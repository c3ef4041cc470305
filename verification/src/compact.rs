//! The compact formatter: one pass, one line, every group between braces.

use crate::format::{Format, Op};
use crate::text::{
    annotation_text, base64_text, bool_text, field_text, integer_text, push_bytes, push_name,
    push_raw_string, push_signed, push_unsigned, quoted, raw_string,
};
use crate::value::{key_name, value_name, MapFormat, Options, Value};
use vstd::prelude::*;

verus! {

/// A formatter that writes in a single pass: every value behind its name,
/// every group between `{ ` and `}`, every field closed by `; `, all on one
/// line.
#[derive(Debug)]
pub struct SimpleFormatter {
    /// The type annotation that waits for the next value.
    pub ty: Option<&'static str>,
    /// The field name that waits for the next value.
    pub field: Option<&'static str>,
}

impl SimpleFormatter {
    /// The state in which a document starts: no annotation waits, and the
    /// first value is named by the placeholder `-`.
    pub open spec fn start() -> Self {
        SimpleFormatter { ty: None, field: Some("-") }
    }

    /// The state after a value: nothing waits.
    pub open spec fn idle() -> Self {
        SimpleFormatter { ty: None, field: None }
    }

    /// What stands before the next value: the annotation that waits, then
    /// the field name that waits.
    pub open spec fn prefix(&self) -> Seq<char> {
        annotation_text(self.ty) + field_text(self.field)
    }

    /// A formatter at the start of a document.
    pub fn new() -> (r: Self)
        ensures
            r == Self::start(),
    {
        SimpleFormatter { ty: None, field: Some("-") }
    }

    /// Writes what stands before a value, and leaves nothing waiting.
    fn write_pre_value(&mut self, w: &mut String)
        ensures
            *final(self) == Self::idle(),
            final(w)@ == old(w)@ + old(self).prefix(),
    {
        let ghost before = w@;
        if let Some(ty) = self.ty {
            w.append("(");
            push_name(w, ty);
            w.append(")");
        }
        assert(w@ =~= before + annotation_text(self.ty));
        if let Some(field) = self.field {
            push_name(w, field);
            w.append(" ");
        }
        assert(w@ =~= before + self.prefix());
        self.ty = None;
        self.field = None;
    }

    /// Opens a group of any kind: what stands before a value, and `{ `.
    fn begin_group(&mut self, s: &mut String)
        ensures
            *final(self) == Self::idle(),
            final(s)@ == old(s)@ + (old(self).prefix() + "{ "@),
    {
        self.write_pre_value(s);
        s.append("{ ");
        assert(s@ =~= old(s)@ + (old(self).prefix() + "{ "@));
    }

    /// Sets the field name that waits, and writes nothing.
    fn set_field(&mut self, s: &mut String, name: &'static str)
        ensures
            *final(self) == (SimpleFormatter { ty: old(self).ty, field: Some(name) }),
            final(s)@ == old(s)@ + Seq::<char>::empty(),
    {
        self.field = Some(name);
        assert(s@ + Seq::<char>::empty() =~= s@);
    }

    fn write_unsigned(&mut self, s: &mut String, v: u128)
        ensures
            *final(self) == Self::idle(),
            final(s)@ == old(s)@ + old(self).prefix() + integer_text(v as int),
    {
        self.write_pre_value(s);
        push_unsigned(s, v);
    }

    fn write_signed(&mut self, s: &mut String, v: i128)
        ensures
            *final(self) == Self::idle(),
            final(s)@ == old(s)@ + old(self).prefix() + integer_text(v as int),
    {
        self.write_pre_value(s);
        push_signed(s, v);
    }
}

impl Default for SimpleFormatter {
    fn default() -> (r: Self)
        ensures
            r == SimpleFormatter::start(),
    {
        SimpleFormatter::new()
    }
}

impl Format for SimpleFormatter {
    open spec fn annotated(&self) -> bool {
        self.ty is Some
    }

    open spec fn text(&self, op: Op) -> Seq<char> {
        match op {
            Op::ProvideType(_) | Op::RequireType(_) => Seq::empty(),
            Op::Bool(v) => self.prefix() + bool_text(v),
            Op::Int(v) => self.prefix() + integer_text(v),
            Op::Float(v) => self.prefix() + v,
            Op::Null => self.prefix() + "null"@,
            Op::Str(v) => self.prefix() + raw_string(v),
            Op::Bytes(v) => self.prefix() + quoted(base64_text(v)),
            Op::BeginTuple | Op::BeginStruct | Op::BeginMap => self.prefix() + "{ "@,
            Op::EndTuple | Op::EndStruct | Op::EndMap => "}"@,
            Op::BeginElement | Op::BeginField(_) | Op::BeginValue => Seq::empty(),
            Op::EndElement | Op::EndField | Op::EndKey => "; "@,
            Op::BeginKey => annotation_text(self.ty) + field_text(Some("-")) + "{ "@,
            Op::EndValue => "; "@ + "}"@ + "; "@,
        }
    }

    open spec fn next(&self, op: Op) -> Self {
        match op {
            Op::ProvideType(_) => *self,
            Op::RequireType(ty) => SimpleFormatter { ty: Some(ty), field: self.field },
            Op::Bool(_) | Op::Int(_) | Op::Float(_) | Op::Null | Op::Str(_) | Op::Bytes(_)
            | Op::BeginTuple | Op::BeginStruct | Op::BeginMap => Self::idle(),
            Op::EndTuple | Op::EndStruct | Op::EndMap => *self,
            Op::EndElement | Op::EndField | Op::EndKey | Op::EndValue => *self,
            Op::BeginElement | Op::BeginField(_) => SimpleFormatter {
                ty: self.ty,
                field: Some(op.field_name()),
            },
            Op::BeginKey => SimpleFormatter { ty: None, field: Some("key") },
            Op::BeginValue => SimpleFormatter { ty: self.ty, field: Some("value") },
        }
    }

    proof fn lemma_annotated(&self, op: Op) {
    }

    fn provide_type_annotation(&mut self, s: &mut String, ty: &'static str) {
        assert(s@ + Seq::<char>::empty() =~= s@);
    }

    fn require_type_annotation(&mut self, s: &mut String, ty: &'static str) {
        self.ty = Some(ty);
        assert(s@ + Seq::<char>::empty() =~= s@);
    }

    fn write_bool(&mut self, s: &mut String, v: bool) {
        self.write_pre_value(s);
        if v {
            s.append("true");
        } else {
            s.append("false");
        }
    }

    fn write_u8(&mut self, s: &mut String, v: u8) {
        self.write_unsigned(s, v as u128);
    }

    fn write_u16(&mut self, s: &mut String, v: u16) {
        self.write_unsigned(s, v as u128);
    }

    fn write_u32(&mut self, s: &mut String, v: u32) {
        self.write_unsigned(s, v as u128);
    }

    fn write_u64(&mut self, s: &mut String, v: u64) {
        self.write_unsigned(s, v as u128);
    }

    fn write_u128(&mut self, s: &mut String, v: u128) {
        self.write_unsigned(s, v);
    }

    fn write_i8(&mut self, s: &mut String, v: i8) {
        self.write_signed(s, v as i128);
    }

    fn write_i16(&mut self, s: &mut String, v: i16) {
        self.write_signed(s, v as i128);
    }

    fn write_i32(&mut self, s: &mut String, v: i32) {
        self.write_signed(s, v as i128);
    }

    fn write_i64(&mut self, s: &mut String, v: i64) {
        self.write_signed(s, v as i128);
    }

    fn write_i128(&mut self, s: &mut String, v: i128) {
        self.write_signed(s, v);
    }

    fn write_float(&mut self, s: &mut String, v: &str) {
        self.write_pre_value(s);
        s.append(v);
    }

    fn write_null(&mut self, s: &mut String) {
        self.write_pre_value(s);
        s.append("null");
    }

    fn write_string(&mut self, s: &mut String, v: &str) {
        self.write_pre_value(s);
        push_raw_string(s, v);
    }

    fn write_bytes(&mut self, s: &mut String, v: &[u8]) {
        self.write_pre_value(s);
        push_bytes(s, v);
    }

    fn begin_tuple(&mut self, s: &mut String) {
        self.begin_group(s);
    }

    fn begin_element(&mut self, s: &mut String) {
        self.set_field(s, "-");
    }

    fn end_element(&mut self, s: &mut String) {
        s.append("; ");
    }

    fn end_tuple(&mut self, s: &mut String) {
        s.append("}");
    }

    fn begin_struct(&mut self, s: &mut String) {
        self.begin_group(s);
    }

    fn begin_field(&mut self, s: &mut String, name: &'static str) {
        self.set_field(s, name);
    }

    fn end_field(&mut self, s: &mut String) {
        s.append("; ");
    }

    fn end_struct(&mut self, s: &mut String) {
        s.append("}");
    }

    fn begin_map(&mut self, s: &mut String) {
        self.begin_group(s);
    }

    fn begin_key(&mut self, s: &mut String) {
        self.begin_element(s);
        self.begin_struct(s);
        self.begin_field(s, "key");
    }

    fn end_key(&mut self, s: &mut String) {
        self.end_field(s);
    }

    fn begin_value(&mut self, s: &mut String) {
        self.begin_field(s, "value");
    }

    fn end_value(&mut self, s: &mut String) {
        self.end_field(s);
        self.end_struct(s);
        self.end_element(s);
        assert(s@ =~= old(s)@ + ("; "@ + "}"@ + "; "@));
    }

    fn end_map(&mut self, s: &mut String) {
        s.append("}");
    }
}

/// What stands before a value in compact form: its annotation, then its
/// name.
pub open spec fn lead(annotation: Option<&'static str>, name: Option<&'static str>) -> Seq<char> {
    annotation_text(annotation) + field_text(name)
}

/// A group in compact form: behind annotation and name, the fields between
/// braces.
pub open spec fn compact_group(
    annotation: Option<&'static str>,
    name: Option<&'static str>,
    fields: Seq<char>,
) -> Seq<char> {
    lead(annotation, name) + "{ "@ + fields + "}"@
}

/// The unit in compact form: null, or an empty group.
pub open spec fn compact_unit(
    annotation: Option<&'static str>,
    name: Option<&'static str>,
    opt: Options,
) -> Seq<char> {
    if opt.unit_as_tuple {
        compact_group(annotation, name, Seq::empty())
    } else {
        lead(annotation, name) + "null"@
    }
}

/// A field in compact form: the text of its value, closed by `; `.
pub open spec fn compact_field(value: Seq<char>) -> Seq<char> {
    value + "; "@
}

/// The first `n` elements of a tuple in compact form, each under the
/// placeholder `-`.
pub open spec fn compact_elements(items: Seq<Value>, n: int, opt: Options) -> Seq<char>
    decreases items, n,
{
    if 0 < n <= items.len() {
        compact_elements(items, n - 1, opt) + compact_field(
            items[n - 1].compact(None, Some("-"), opt),
        )
    } else {
        Seq::empty()
    }
}

/// The first `n` fields of a struct in compact form, each under its name.
pub open spec fn compact_fields(fields: Seq<(&'static str, Value)>, n: int, opt: Options) -> Seq<
    char,
>
    decreases fields, n,
{
    if 0 < n <= fields.len() {
        compact_fields(fields, n - 1, opt) + compact_field(
            fields[n - 1].1.compact(None, Some(fields[n - 1].0), opt),
        )
    } else {
        Seq::empty()
    }
}

/// An entry of a map in compact form, from the texts of its key and of its
/// value: a group of the two under `-`, or the two as fields of the map
/// itself.
pub open spec fn compact_entry(key: Seq<char>, value: Seq<char>, opt: Options) -> Seq<char> {
    match opt.map_format {
        MapFormat::Infer | MapFormat::Tuple => compact_field(
            compact_group(None, Some("-"), compact_field(key) + compact_field(value)),
        ),
        MapFormat::Struct => compact_field(key) + compact_field(value),
    }
}

/// The first `n` entries of a map in compact form.
pub open spec fn compact_entries(entries: Seq<(Value, Value)>, n: int, opt: Options) -> Seq<char>
    decreases entries, n,
{
    if 0 < n <= entries.len() {
        compact_entries(entries, n - 1, opt) + compact_entry(
            entries[n - 1].0.compact(None, Some(key_name(opt)), opt),
            entries[n - 1].1.compact(None, Some(value_name(opt)), opt),
            opt,
        )
    } else {
        Seq::empty()
    }
}

impl Value {
    /// The value in compact form, written under `name` with `annotation`
    /// before it.
    ///
    /// A scalar is annotation, name and literal. A group is annotation and
    /// name before `{ `, its fields each closed by `; `, and `}`. A variant
    /// is written as its content is, annotated with the variant's name. A
    /// wrapper that is written as the value it wraps hands annotation and
    /// name on to that value.
    pub open spec fn compact(
        self,
        annotation: Option<&'static str>,
        name: Option<&'static str>,
        opt: Options,
    ) -> Seq<char>
        decreases self,
    {
        let lead = lead(annotation, name);
        match self {
            Value::Bool(v) => lead + bool_text(v),
            Value::U8(v) => lead + integer_text(v as int),
            Value::U16(v) => lead + integer_text(v as int),
            Value::U32(v) => lead + integer_text(v as int),
            Value::U64(v) => lead + integer_text(v as int),
            Value::U128(v) => lead + integer_text(v as int),
            Value::I8(v) => lead + integer_text(v as int),
            Value::I16(v) => lead + integer_text(v as int),
            Value::I32(v) => lead + integer_text(v as int),
            Value::I64(v) => lead + integer_text(v as int),
            Value::I128(v) => lead + integer_text(v as int),
            Value::Float(v) => lead + v@,
            Value::Char(v) => lead + raw_string(seq![v]),
            Value::Str(v) => lead + raw_string(v@),
            Value::Bytes(v) => lead + quoted(base64_text(v@)),
            Value::Absent => if opt.option_as_enum {
                compact_unit(Some("None"), name, opt)
            } else {
                lead + "null"@
            },
            Value::Present(v) => if !opt.option_as_enum {
                v.compact(annotation, name, opt)
            } else if opt.newtype_as_tuple {
                compact_group(
                    Some("Some"),
                    name,
                    compact_field(v.compact(None, Some("-"), opt)),
                )
            } else {
                v.compact(Some("Some"), name, opt)
            },
            Value::Unit => compact_unit(annotation, name, opt),
            Value::UnitStruct(_) => compact_unit(annotation, name, opt),
            Value::UnitVariant(_, _, variant) => compact_unit(Some(variant), name, opt),
            Value::NewtypeStruct(_, v) => if opt.newtype_as_tuple {
                compact_group(annotation, name, compact_field(v.compact(None, Some("-"), opt)))
            } else {
                v.compact(annotation, name, opt)
            },
            Value::NewtypeVariant(_, _, variant, v) => if opt.newtype_as_tuple {
                compact_group(
                    Some(variant),
                    name,
                    compact_field(v.compact(None, Some("-"), opt)),
                )
            } else {
                v.compact(Some(variant), name, opt)
            },
            Value::Sequence(items) => compact_group(
                annotation,
                name,
                compact_elements(items@, items@.len() as int, opt),
            ),
            Value::Tuple(items) => compact_group(
                annotation,
                name,
                compact_elements(items@, items@.len() as int, opt),
            ),
            Value::TupleStruct(_, items) => compact_group(
                annotation,
                name,
                compact_elements(items@, items@.len() as int, opt),
            ),
            Value::TupleVariant(_, _, variant, items) => compact_group(
                Some(variant),
                name,
                compact_elements(items@, items@.len() as int, opt),
            ),
            Value::Mapping(entries) => compact_group(
                annotation,
                name,
                compact_entries(entries@, entries@.len() as int, opt),
            ),
            Value::Struct(_, fields) => compact_group(
                annotation,
                name,
                compact_fields(fields@, fields@.len() as int, opt),
            ),
            Value::StructVariant(_, _, variant, fields) => compact_group(
                Some(variant),
                name,
                compact_fields(fields@, fields@.len() as int, opt),
            ),
        }
    }
}

} // verus!
