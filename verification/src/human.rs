//! The human formatter: one field per line, indented by its depth, with
//! the braces of the document's root left out.

use crate::format::{Format, Op};
use crate::text::{
    annotation_text, base64_text, bool_text, field_text, integer_text, push_bytes, push_name,
    push_raw_string, push_signed, push_unsigned, quoted, raw_string,
};
use crate::value::{key_name, value_name, MapFormat, Options, Value};
use vstd::prelude::*;

verus! {

/// The columns by which a group indents its fields.
pub const INDENT_STEP: u8 = 4;

/// A line break and `indent` spaces.
pub open spec fn line_start(indent: nat) -> Seq<char> {
    seq!['\n'] + Seq::new(indent, |i: int| ' ')
}

/// Appends a line break and `indent` spaces.
fn push_line_start(s: &mut String, indent: u8)
    ensures
        final(s)@ == old(s)@ + line_start(indent as nat),
{
    s.push('\n');
    let mut i: u8 = 0;
    assert(s@ =~= old(s)@ + line_start(0));
    while i < indent
        invariant
            i <= indent,
            s@ == old(s)@ + line_start(i as nat),
        decreases indent - i,
    {
        s.push(' ');
        i += 1;
        assert(s@ =~= old(s)@ + line_start(i as nat));
    }
}

/// A formatter that lays the document out to be read: every value on a
/// line of its own behind its name, indented by four columns for each
/// group around it. The first group of a document is its root and gets no
/// braces, unless a type annotation waits for it. The indentation stops
/// growing at 255 columns.
#[derive(Debug)]
pub struct HumanFormatter {
    /// Nothing was written yet: the next group is the document's root.
    pub root: bool,
    /// The columns by which the next line is indented.
    pub indent: u8,
    /// The type annotation that waits for the next value.
    pub ty: Option<&'static str>,
    /// The field name that waits for the next value.
    pub field: Option<&'static str>,
}

impl HumanFormatter {
    /// The state in which a document starts: at the root, not indented, no
    /// annotation waits, and the first value is named by the placeholder
    /// `-`.
    pub open spec fn start() -> Self {
        HumanFormatter { root: true, indent: 0, ty: None, field: Some("-") }
    }

    /// The state in which a document starts whose root keeps its node.
    pub open spec fn start_with_root_node() -> Self {
        HumanFormatter { root: false, indent: 0, ty: None, field: Some("-") }
    }

    /// The state after a value at the same depth: nothing waits.
    pub open spec fn idle(&self) -> Self {
        HumanFormatter { root: false, indent: self.indent, ty: None, field: None }
    }

    /// What stands before the next value: a new line at the current
    /// indentation, the annotation that waits, and the field name that
    /// waits.
    pub open spec fn prefix(&self) -> Seq<char> {
        line_start(self.indent as nat) + annotation_text(self.ty) + field_text(self.field)
    }

    /// A group opened now is the document's root and gets no braces.
    pub open spec fn elides(&self) -> bool {
        self.root && self.ty is None
    }

    /// The indentation one step deeper, at most 255 columns.
    pub open spec fn deeper(&self) -> u8 {
        if self.indent > 255 - INDENT_STEP {
            255u8
        } else {
            (self.indent + INDENT_STEP) as u8
        }
    }

    /// The indentation is too shallow to close a group: what ends here is
    /// the document's root.
    pub open spec fn shallow(&self) -> bool {
        self.indent < INDENT_STEP
    }

    /// The text that opens a group.
    pub open spec fn begin_group_text(&self) -> Seq<char> {
        if self.elides() {
            Seq::empty()
        } else {
            self.prefix() + "{"@
        }
    }

    /// The state inside a group opened now.
    pub open spec fn after_begin_group(&self) -> Self {
        if self.elides() {
            self.idle()
        } else {
            HumanFormatter { root: false, indent: self.deeper(), ty: None, field: None }
        }
    }

    /// The text that closes a group: a new line, and a brace one step
    /// further out; at the root only the new line.
    pub open spec fn end_group_text(&self) -> Seq<char> {
        if self.shallow() {
            line_start(self.indent as nat)
        } else {
            line_start((self.indent - INDENT_STEP) as nat) + "}"@
        }
    }

    /// The state after a group closed now.
    pub open spec fn after_end_group(&self) -> Self {
        if self.shallow() {
            *self
        } else {
            HumanFormatter {
                root: self.root,
                indent: (self.indent - INDENT_STEP) as u8,
                ty: self.ty,
                field: self.field,
            }
        }
    }

    /// The state with the field name `name` waiting.
    pub open spec fn named(&self, name: &'static str) -> Self {
        HumanFormatter { root: self.root, indent: self.indent, ty: self.ty, field: Some(name) }
    }

    /// A formatter at the start of a document.
    pub fn new() -> (r: Self)
        ensures
            r == Self::start(),
    {
        HumanFormatter { root: true, indent: 0, ty: None, field: Some("-") }
    }

    /// A formatter at the start of a document whose root keeps its node.
    pub fn with_root_node() -> (r: Self)
        ensures
            r == Self::start_with_root_node(),
    {
        HumanFormatter { root: false, indent: 0, ty: None, field: Some("-") }
    }

    /// Starts a line and writes what stands before a value; leaves nothing
    /// waiting.
    fn write_pre_value(&mut self, w: &mut String)
        ensures
            *final(self) == old(self).idle(),
            final(w)@ == old(w)@ + old(self).prefix(),
    {
        let ghost before = w@;
        push_line_start(w, self.indent);
        if let Some(ty) = self.ty {
            w.append("(");
            push_name(w, ty);
            w.append(")");
        }
        assert(w@ =~= before + line_start(self.indent as nat) + annotation_text(self.ty));
        if let Some(field) = self.field {
            push_name(w, field);
            w.append(" ");
        }
        assert(w@ =~= before + self.prefix());
        self.root = false;
        self.ty = None;
        self.field = None;
    }

    /// Opens a group of any kind: nothing for the root without an
    /// annotation, else what stands before a value and `{`, one step
    /// further in.
    fn begin_group(&mut self, s: &mut String)
        ensures
            *final(self) == old(self).after_begin_group(),
            final(s)@ == old(s)@ + old(self).begin_group_text(),
    {
        if self.root && self.ty.is_none() {
            self.root = false;
            self.field = None;
            assert(s@ + Seq::<char>::empty() =~= s@);
        } else {
            let deeper = self.indent.saturating_add(INDENT_STEP);
            self.write_pre_value(s);
            s.append("{");
            self.indent = deeper;
            assert(s@ =~= old(s)@ + old(self).begin_group_text());
        }
    }

    /// Closes a group of any kind: a new line and `}` one step further
    /// out, or only the new line where the indentation is too shallow.
    fn end_group(&mut self, s: &mut String)
        ensures
            *final(self) == old(self).after_end_group(),
            final(s)@ == old(s)@ + old(self).end_group_text(),
    {
        if self.indent < INDENT_STEP {
            push_line_start(s, self.indent);
        } else {
            self.indent = self.indent - INDENT_STEP;
            push_line_start(s, self.indent);
            s.append("}");
            assert(s@ =~= old(s)@ + old(self).end_group_text());
        }
    }

    /// Sets the field name that waits, and writes nothing.
    fn set_field(&mut self, s: &mut String, name: &'static str)
        ensures
            *final(self) == old(self).named(name),
            final(s)@ == old(s)@ + Seq::<char>::empty(),
    {
        self.field = Some(name);
        assert(s@ + Seq::<char>::empty() =~= s@);
    }

    fn write_unsigned(&mut self, s: &mut String, v: u128)
        ensures
            *final(self) == old(self).idle(),
            final(s)@ == old(s)@ + old(self).prefix() + integer_text(v as int),
    {
        self.write_pre_value(s);
        push_unsigned(s, v);
    }

    fn write_signed(&mut self, s: &mut String, v: i128)
        ensures
            *final(self) == old(self).idle(),
            final(s)@ == old(s)@ + old(self).prefix() + integer_text(v as int),
    {
        self.write_pre_value(s);
        push_signed(s, v);
    }
}

impl Default for HumanFormatter {
    fn default() -> (r: Self)
        ensures
            r == HumanFormatter::start(),
    {
        HumanFormatter::new()
    }
}

impl Format for HumanFormatter {
    open spec fn annotated(&self) -> bool {
        self.ty is Some
    }

    open spec fn text(&self, op: Op) -> Seq<char> {
        match op {
            Op::ProvideType(_) | Op::RequireType(_) => Seq::empty(),
            Op::Bool(v) => self.prefix() + bool_text(v),
            Op::Int(v) => self.prefix() + integer_text(v),
            Op::Float(v) => self.prefix() + v,
            Op::Null => self.prefix() + "null"@,
            Op::Str(v) => self.prefix() + raw_string(v),
            Op::Bytes(v) => self.prefix() + quoted(base64_text(v)),
            Op::BeginTuple | Op::BeginStruct | Op::BeginMap => self.begin_group_text(),
            Op::EndTuple | Op::EndStruct | Op::EndMap | Op::EndValue => self.end_group_text(),
            Op::BeginElement | Op::BeginField(_) | Op::BeginValue => Seq::empty(),
            Op::EndElement | Op::EndField | Op::EndKey => Seq::empty(),
            Op::BeginKey => self.named("-").begin_group_text(),
        }
    }

    open spec fn next(&self, op: Op) -> Self {
        match op {
            Op::ProvideType(_) => *self,
            Op::RequireType(ty) => HumanFormatter {
                root: self.root,
                indent: self.indent,
                ty: Some(ty),
                field: self.field,
            },
            Op::Bool(_) | Op::Int(_) | Op::Float(_) | Op::Null | Op::Str(_)
            | Op::Bytes(_) => self.idle(),
            Op::BeginTuple | Op::BeginStruct | Op::BeginMap => self.after_begin_group(),
            Op::EndTuple | Op::EndStruct | Op::EndMap | Op::EndValue => self.after_end_group(),
            Op::EndElement | Op::EndField | Op::EndKey => *self,
            Op::BeginElement | Op::BeginField(_) => self.named(op.field_name()),
            Op::BeginKey => self.named("-").after_begin_group().named("key"),
            Op::BeginValue => self.named("value"),
        }
    }

    proof fn lemma_annotated(&self, op: Op) {
    }

    fn provide_type_annotation(&mut self, s: &mut String, ty: &'static str) {
        assert(s@ + Seq::<char>::empty() =~= s@);
    }

    fn require_type_annotation(&mut self, s: &mut String, ty: &'static str) {
        self.ty = Some(ty);
        assert(s@ + Seq::<char>::empty() =~= s@);
    }

    fn write_bool(&mut self, s: &mut String, v: bool) {
        self.write_pre_value(s);
        if v {
            s.append("true");
        } else {
            s.append("false");
        }
    }

    fn write_u8(&mut self, s: &mut String, v: u8) {
        self.write_unsigned(s, v as u128);
    }

    fn write_u16(&mut self, s: &mut String, v: u16) {
        self.write_unsigned(s, v as u128);
    }

    fn write_u32(&mut self, s: &mut String, v: u32) {
        self.write_unsigned(s, v as u128);
    }

    fn write_u64(&mut self, s: &mut String, v: u64) {
        self.write_unsigned(s, v as u128);
    }

    fn write_u128(&mut self, s: &mut String, v: u128) {
        self.write_unsigned(s, v);
    }

    fn write_i8(&mut self, s: &mut String, v: i8) {
        self.write_signed(s, v as i128);
    }

    fn write_i16(&mut self, s: &mut String, v: i16) {
        self.write_signed(s, v as i128);
    }

    fn write_i32(&mut self, s: &mut String, v: i32) {
        self.write_signed(s, v as i128);
    }

    fn write_i64(&mut self, s: &mut String, v: i64) {
        self.write_signed(s, v as i128);
    }

    fn write_i128(&mut self, s: &mut String, v: i128) {
        self.write_signed(s, v);
    }

    fn write_float(&mut self, s: &mut String, v: &str) {
        self.write_pre_value(s);
        s.append(v);
    }

    fn write_null(&mut self, s: &mut String) {
        self.write_pre_value(s);
        s.append("null");
    }

    fn write_string(&mut self, s: &mut String, v: &str) {
        self.write_pre_value(s);
        push_raw_string(s, v);
    }

    fn write_bytes(&mut self, s: &mut String, v: &[u8]) {
        self.write_pre_value(s);
        push_bytes(s, v);
    }

    fn begin_tuple(&mut self, s: &mut String) {
        self.begin_group(s);
    }

    fn begin_element(&mut self, s: &mut String) {
        self.set_field(s, "-");
    }

    fn end_element(&mut self, s: &mut String) {
        assert(s@ + Seq::<char>::empty() =~= s@);
    }

    fn end_tuple(&mut self, s: &mut String) {
        self.end_group(s);
    }

    fn begin_struct(&mut self, s: &mut String) {
        self.begin_group(s);
    }

    fn begin_field(&mut self, s: &mut String, name: &'static str) {
        self.set_field(s, name);
    }

    fn end_field(&mut self, s: &mut String) {
        assert(s@ + Seq::<char>::empty() =~= s@);
    }

    fn end_struct(&mut self, s: &mut String) {
        self.end_group(s);
    }

    fn begin_map(&mut self, s: &mut String) {
        self.begin_group(s);
    }

    fn begin_key(&mut self, s: &mut String) {
        self.begin_element(s);
        self.begin_struct(s);
        self.begin_field(s, "key");
    }

    fn end_key(&mut self, s: &mut String) {
        self.end_field(s);
    }

    fn begin_value(&mut self, s: &mut String) {
        self.begin_field(s, "value");
    }

    fn end_value(&mut self, s: &mut String) {
        self.end_field(s);
        self.end_struct(s);
        self.end_element(s);
    }

    fn end_map(&mut self, s: &mut String) {
        self.end_group(s);
    }
}

/// What stands before a value in the layout: a new line at `indent`, the
/// annotation and the name.
pub open spec fn lead_line(
    indent: nat,
    annotation: Option<&'static str>,
    name: Option<&'static str>,
) -> Seq<char> {
    line_start(indent) + annotation_text(annotation) + field_text(name)
}

/// The columns at which the fields of a group stand: those of the group
/// itself where it is the root without braces, else one step further in.
pub open spec fn fields_indent(elided: bool, indent: nat) -> nat {
    if elided {
        indent
    } else {
        (indent + INDENT_STEP) as nat
    }
}

/// A group in the layout. With braces: annotation and name on a line that
/// ends in `{`, the fields, and `}` on a line of its own, as far in as the
/// group. Without braces, for the root: the fields and a new line.
pub open spec fn human_group(
    elided: bool,
    indent: nat,
    annotation: Option<&'static str>,
    name: Option<&'static str>,
    fields: Seq<char>,
) -> Seq<char> {
    if elided {
        fields + line_start(indent)
    } else {
        lead_line(indent, annotation, name) + "{"@ + fields + line_start(indent) + "}"@
    }
}

/// The unit in the layout: null, or an empty group.
pub open spec fn human_unit(
    root: bool,
    indent: nat,
    annotation: Option<&'static str>,
    name: Option<&'static str>,
    opt: Options,
) -> Seq<char> {
    if opt.unit_as_tuple {
        human_group(root && annotation is None, indent, annotation, name, Seq::empty())
    } else {
        lead_line(indent, annotation, name) + "null"@
    }
}

/// The first `n` elements of a tuple in the layout, each under the
/// placeholder `-` at `indent`.
pub open spec fn human_elements(items: Seq<Value>, n: int, indent: nat, opt: Options) -> Seq<char>
    decreases items, n,
{
    if 0 < n <= items.len() {
        human_elements(items, n - 1, indent, opt) + items[n - 1].human(
            false,
            indent,
            None,
            Some("-"),
            opt,
        )
    } else {
        Seq::empty()
    }
}

/// The first `n` fields of a struct in the layout, each under its name at
/// `indent`.
pub open spec fn human_fields(
    fields: Seq<(&'static str, Value)>,
    n: int,
    indent: nat,
    opt: Options,
) -> Seq<char>
    decreases fields, n,
{
    if 0 < n <= fields.len() {
        human_fields(fields, n - 1, indent, opt) + fields[n - 1].1.human(
            false,
            indent,
            None,
            Some(fields[n - 1].0),
            opt,
        )
    } else {
        Seq::empty()
    }
}

/// The columns at which the key and the value of an entry stand, where
/// the entries stand at `indent`.
pub open spec fn entry_indent(indent: nat, opt: Options) -> nat {
    match opt.map_format {
        MapFormat::Struct => indent,
        _ => fields_indent(false, indent),
    }
}

/// An entry of a map in the layout, from the texts of its key and of its
/// value: a group of the two under `-`, or the two as fields of the map
/// itself.
pub open spec fn human_entry(key: Seq<char>, value: Seq<char>, indent: nat, opt: Options) -> Seq<
    char,
> {
    match opt.map_format {
        MapFormat::Struct => key + value,
        _ => human_group(false, indent, None, Some("-"), key + value),
    }
}

/// The first `n` entries of a map in the layout, at `indent`.
pub open spec fn human_entries(
    entries: Seq<(Value, Value)>,
    n: int,
    indent: nat,
    opt: Options,
) -> Seq<char>
    decreases entries, n,
{
    if 0 < n <= entries.len() {
        human_entries(entries, n - 1, indent, opt) + human_entry(
            entries[n - 1].0.human(
                false,
                entry_indent(indent, opt),
                None,
                Some(key_name(opt)),
                opt,
            ),
            entries[n - 1].1.human(
                false,
                entry_indent(indent, opt),
                None,
                Some(value_name(opt)),
                opt,
            ),
            indent,
            opt,
        )
    } else {
        Seq::empty()
    }
}

impl Value {
    /// The value in the layout, written at `indent` under `name` with
    /// `annotation` before it; `root` where nothing was written before it.
    ///
    /// A scalar is a line of annotation, name and literal. A group is a
    /// line of annotation and name that ends in `{`, its fields one step
    /// further in, and `}` on a line of its own; the root, where it has no
    /// annotation, is its fields alone, not indented, and a new line. A
    /// variant is written as its content is, annotated with the variant's
    /// name. A wrapper that is written as the value it wraps hands
    /// everything on to that value.
    pub open spec fn human(
        self,
        root: bool,
        indent: nat,
        annotation: Option<&'static str>,
        name: Option<&'static str>,
        opt: Options,
    ) -> Seq<char>
        decreases self,
    {
        let lead = lead_line(indent, annotation, name);
        let elided = root && annotation is None;
        let inside = fields_indent(elided, indent);
        match self {
            Value::Bool(v) => lead + bool_text(v),
            Value::U8(v) => lead + integer_text(v as int),
            Value::U16(v) => lead + integer_text(v as int),
            Value::U32(v) => lead + integer_text(v as int),
            Value::U64(v) => lead + integer_text(v as int),
            Value::U128(v) => lead + integer_text(v as int),
            Value::I8(v) => lead + integer_text(v as int),
            Value::I16(v) => lead + integer_text(v as int),
            Value::I32(v) => lead + integer_text(v as int),
            Value::I64(v) => lead + integer_text(v as int),
            Value::I128(v) => lead + integer_text(v as int),
            Value::Float(v) => lead + v@,
            Value::Char(v) => lead + raw_string(seq![v]),
            Value::Str(v) => lead + raw_string(v@),
            Value::Bytes(v) => lead + quoted(base64_text(v@)),
            Value::Absent => if opt.option_as_enum {
                human_unit(root, indent, Some("None"), name, opt)
            } else {
                lead + "null"@
            },
            Value::Present(v) => if !opt.option_as_enum {
                v.human(root, indent, annotation, name, opt)
            } else if opt.newtype_as_tuple {
                human_group(
                    false,
                    indent,
                    Some("Some"),
                    name,
                    v.human(false, fields_indent(false, indent), None, Some("-"), opt),
                )
            } else {
                v.human(root, indent, Some("Some"), name, opt)
            },
            Value::Unit => human_unit(root, indent, annotation, name, opt),
            Value::UnitStruct(_) => human_unit(root, indent, annotation, name, opt),
            Value::UnitVariant(_, _, variant) => human_unit(root, indent, Some(variant), name, opt),
            Value::NewtypeStruct(_, v) => if opt.newtype_as_tuple {
                human_group(
                    elided,
                    indent,
                    annotation,
                    name,
                    v.human(false, inside, None, Some("-"), opt),
                )
            } else {
                v.human(root, indent, annotation, name, opt)
            },
            Value::NewtypeVariant(_, _, variant, v) => if opt.newtype_as_tuple {
                human_group(
                    false,
                    indent,
                    Some(variant),
                    name,
                    v.human(false, fields_indent(false, indent), None, Some("-"), opt),
                )
            } else {
                v.human(root, indent, Some(variant), name, opt)
            },
            Value::Sequence(items) => human_group(
                elided,
                indent,
                annotation,
                name,
                human_elements(items@, items@.len() as int, inside, opt),
            ),
            Value::Tuple(items) => human_group(
                elided,
                indent,
                annotation,
                name,
                human_elements(items@, items@.len() as int, inside, opt),
            ),
            Value::TupleStruct(_, items) => human_group(
                elided,
                indent,
                annotation,
                name,
                human_elements(items@, items@.len() as int, inside, opt),
            ),
            Value::TupleVariant(_, _, variant, items) => human_group(
                false,
                indent,
                Some(variant),
                name,
                human_elements(items@, items@.len() as int, fields_indent(false, indent), opt),
            ),
            Value::Mapping(entries) => human_group(
                elided,
                indent,
                annotation,
                name,
                human_entries(entries@, entries@.len() as int, inside, opt),
            ),
            Value::Struct(_, fields) => human_group(
                elided,
                indent,
                annotation,
                name,
                human_fields(fields@, fields@.len() as int, inside, opt),
            ),
            Value::StructVariant(_, _, variant, fields) => human_group(
                false,
                indent,
                Some(variant),
                name,
                human_fields(fields@, fields@.len() as int, fields_indent(false, indent), opt),
            ),
        }
    }
}

} // verus!
