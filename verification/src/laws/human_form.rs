//! What the human formatter writes for the operations of a value is the
//! layout of the value, as long as the value nests no deeper than the
//! indentation can grow.

use crate::format::{
    end_state, lemma_rendering_concat, lemma_rendering_first, lemma_rendering_last,
    lemma_rendering_one, rendering, Format, Op,
};
use crate::human::{
    entry_indent, fields_indent, human_elements, human_entries, human_entry, human_fields,
    human_group, human_unit, lead_line, line_start, HumanFormatter, INDENT_STEP,
};
use crate::protocol::{field_pair, group_pair};
use crate::ser::{human_start, human_text};
use crate::value::{
    element_ops, elements_depth, elements_encodable, elements_ops, entries_depth, entries_encodable,
    entries_ops, field_ops, fields_depth, fields_encodable, fields_ops, key_name, key_ops,
    map_begin_ops, map_end_ops, newtype_struct_ops, unit_ops, value_name, value_ops, MapFormat,
    Options, Value,
};
use vstd::prelude::*;

verus! {

/// The state in which `annotation` and `name` wait at `indent`.
pub open spec fn awaiting(
    root: bool,
    indent: u8,
    annotation: Option<&'static str>,
    name: Option<&'static str>,
) -> HumanFormatter {
    HumanFormatter { root, indent, ty: annotation, field: name }
}

/// The state in which nothing waits at `indent`, after the root.
pub open spec fn resting(indent: u8) -> HumanFormatter {
    awaiting(false, indent, None, None)
}

/// From the state `fmt`, the operations write `text`, leave nothing
/// waiting and come back to the indentation of `fmt`.
pub open spec fn reads(fmt: HumanFormatter, ops: Seq<Op>, text: Seq<char>) -> bool {
    rendering(fmt, ops) == text && end_state(fmt, ops) == resting(fmt.indent)
}

/// A group opened in the state `fmt` can be closed again: as the root it
/// stands too far out to take a closing brace, and otherwise the
/// indentation can still grow by a step.
pub open spec fn has_room(fmt: HumanFormatter) -> bool {
    if fmt.elides() {
        fmt.indent < INDENT_STEP
    } else {
        fmt.indent + INDENT_STEP <= 255
    }
}

/// The indentation of the fields of a group opened in the state `fmt`.
pub open spec fn inside(fmt: HumanFormatter) -> u8 {
    fields_indent(fmt.elides(), fmt.indent as nat) as u8
}

proof fn lemma_reads_concat(
    indent: u8,
    a: Seq<Op>,
    b: Seq<Op>,
    first: Seq<char>,
    second: Seq<char>,
)
    requires
        reads(resting(indent), a, first),
        reads(resting(indent), b, second),
    ensures
        reads(resting(indent), a + b, first + second),
{
    lemma_rendering_concat(resting(indent), a, b);
}

proof fn lemma_group_reads(
    fmt: HumanFormatter,
    open: Op,
    close: Op,
    body: Seq<Op>,
    fields: Seq<char>,
)
    requires
        group_pair(open, close),
        has_room(fmt),
        reads(resting(inside(fmt)), body, fields),
    ensures
        reads(
            fmt,
            seq![open] + body + seq![close],
            human_group(fmt.elides(), fmt.indent as nat, fmt.ty, fmt.field, fields),
        ),
{
    let rest = body + seq![close];
    let ops = seq![open] + body + seq![close];
    assert(ops =~= seq![open] + rest);
    assert(fmt.next(open) == resting(inside(fmt)));
    lemma_rendering_last(resting(inside(fmt)), body, close);
    lemma_rendering_first(fmt, open, rest);
    assert(rendering(fmt, ops) =~= human_group(
        fmt.elides(),
        fmt.indent as nat,
        fmt.ty,
        fmt.field,
        fields,
    ));
}

proof fn lemma_field_reads(indent: u8, open: Op, close: Op, inner: Seq<Op>, text: Seq<char>)
    requires
        field_pair(open, close),
        reads(awaiting(false, indent, None, Some(open.field_name())), inner, text),
    ensures
        reads(resting(indent), seq![open] + inner + seq![close], text),
{
    let start = resting(indent);
    let rest = inner + seq![close];
    let ops = seq![open] + inner + seq![close];
    assert(ops =~= seq![open] + rest);
    assert(start.next(open) == awaiting(false, indent, None, Some(open.field_name())));
    lemma_rendering_last(start.next(open), inner, close);
    lemma_rendering_first(start, open, rest);
    assert(rendering(start, ops) =~= text);
}

proof fn lemma_offer_reads(fmt: HumanFormatter, name: &'static str, inner: Seq<Op>, text: Seq<char>)
    requires
        reads(fmt, inner, text),
    ensures
        reads(fmt, seq![Op::ProvideType(name)] + inner, text),
{
    lemma_rendering_first(fmt, Op::ProvideType(name), inner);
    assert(Seq::<char>::empty() + text =~= text);
}

proof fn lemma_annotation_reads(
    fmt: HumanFormatter,
    variant: &'static str,
    inner: Seq<Op>,
    text: Seq<char>,
)
    requires
        reads(awaiting(fmt.root, fmt.indent, Some(variant), fmt.field), inner, text),
    ensures
        reads(fmt, seq![Op::RequireType(variant)] + inner, text),
{
    lemma_rendering_first(fmt, Op::RequireType(variant), inner);
    assert(Seq::<char>::empty() + text =~= text);
}

proof fn lemma_unit_reads(fmt: HumanFormatter, opt: Options)
    requires
        opt.unit_as_tuple ==> has_room(fmt),
    ensures
        reads(
            fmt,
            unit_ops(opt),
            human_unit(fmt.root, fmt.indent as nat, fmt.ty, fmt.field, opt),
        ),
{
    if opt.unit_as_tuple {
        assert(reads(resting(inside(fmt)), Seq::empty(), Seq::empty()));
        lemma_group_reads(fmt, Op::BeginTuple, Op::EndTuple, Seq::empty(), Seq::empty());
        assert(seq![Op::BeginTuple] + Seq::<Op>::empty() + seq![Op::EndTuple] =~= unit_ops(opt));
    } else {
        lemma_rendering_one(fmt, Op::Null);
    }
}

proof fn lemma_wrapped_reads(
    fmt: HumanFormatter,
    name: &'static str,
    inner: Seq<Op>,
    text: Seq<char>,
    opt: Options,
)
    requires
        opt.newtype_as_tuple,
        has_room(fmt),
        reads(awaiting(false, inside(fmt), None, Some("-")), inner, text),
    ensures
        reads(
            fmt,
            newtype_struct_ops(name, inner, opt),
            human_group(fmt.elides(), fmt.indent as nat, fmt.ty, fmt.field, text),
        ),
{
    lemma_field_reads(inside(fmt), Op::BeginElement, Op::EndElement, inner, text);
    lemma_group_reads(fmt, Op::BeginTuple, Op::EndTuple, element_ops(inner), text);
    let group = seq![Op::BeginTuple] + element_ops(inner) + seq![Op::EndTuple];
    lemma_offer_reads(
        fmt,
        name,
        group,
        human_group(fmt.elides(), fmt.indent as nat, fmt.ty, fmt.field, text),
    );
    assert(newtype_struct_ops(name, inner, opt) =~= seq![Op::ProvideType(name)] + group);
}

proof fn lemma_inferred_entry_reads(
    indent: u8,
    key: Seq<Op>,
    value: Seq<Op>,
    key_text: Seq<char>,
    value_text: Seq<char>,
    opt: Options,
)
    requires
        opt.map_format is Infer,
        indent + INDENT_STEP <= 255,
        reads(awaiting(false, (indent + INDENT_STEP) as u8, None, Some("key")), key, key_text),
        reads(
            awaiting(false, (indent + INDENT_STEP) as u8, None, Some("value")),
            value,
            value_text,
        ),
    ensures
        reads(
            resting(indent),
            key_ops(key, opt) + value_ops(value, opt),
            human_entry(key_text, value_text, indent as nat, opt),
        ),
{
    let start = resting(indent);
    let deeper = (indent + INDENT_STEP) as u8;
    let ops = key_ops(key, opt) + value_ops(value, opt);
    let in_key = awaiting(false, deeper, None, Some("key"));
    let in_value = awaiting(false, deeper, None, Some("value"));
    let a = key + seq![Op::EndKey];
    let b = value + seq![Op::EndValue];
    let c = seq![Op::BeginValue] + b;
    let closing = line_start(indent as nat) + "}"@;
    assert(ops =~= seq![Op::BeginKey] + (a + c));
    lemma_rendering_last(in_key, key, Op::EndKey);
    assert(rendering(in_key, a) =~= key_text);
    assert(end_state(in_key, a) == resting(deeper));
    lemma_rendering_last(in_value, value, Op::EndValue);
    assert(resting(deeper).text(Op::EndValue) =~= closing);
    assert(rendering(in_value, b) =~= value_text + closing);
    assert(end_state(in_value, b) == start);
    lemma_rendering_first(resting(deeper), Op::BeginValue, b);
    assert(resting(deeper).next(Op::BeginValue) == in_value);
    assert(rendering(resting(deeper), c) =~= value_text + closing);
    lemma_rendering_concat(in_key, a, c);
    lemma_rendering_first(start, Op::BeginKey, a + c);
    assert(start.next(Op::BeginKey) == in_key);
    let opening = start.text(Op::BeginKey);
    assert(opening =~= lead_line(indent as nat, None, Some("-")) + "{"@);
    assert(rendering(start, ops) =~= opening + (key_text + (value_text + closing)));
    assert(human_entry(key_text, value_text, indent as nat, opt) =~= opening + (key_text + (
        value_text + closing)));
}

proof fn lemma_flattened_entry_reads(
    indent: u8,
    key: Seq<Op>,
    value: Seq<Op>,
    key_text: Seq<char>,
    value_text: Seq<char>,
    opt: Options,
)
    requires
        opt.map_format is Tuple,
        indent + INDENT_STEP <= 255,
        reads(awaiting(false, (indent + INDENT_STEP) as u8, None, Some("-")), key, key_text),
        reads(awaiting(false, (indent + INDENT_STEP) as u8, None, Some("-")), value, value_text),
    ensures
        reads(
            resting(indent),
            key_ops(key, opt) + value_ops(value, opt),
            human_entry(key_text, value_text, indent as nat, opt),
        ),
{
    let deeper = (indent + INDENT_STEP) as u8;
    let ops = key_ops(key, opt) + value_ops(value, opt);
    let named = awaiting(false, indent, None, Some("-"));
    lemma_field_reads(deeper, Op::BeginElement, Op::EndElement, key, key_text);
    lemma_field_reads(deeper, Op::BeginElement, Op::EndElement, value, value_text);
    let fields = element_ops(key) + element_ops(value);
    lemma_reads_concat(deeper, element_ops(key), element_ops(value), key_text, value_text);
    assert(inside(named) == deeper);
    lemma_group_reads(named, Op::BeginTuple, Op::EndTuple, fields, key_text + value_text);
    let group = seq![Op::BeginTuple] + fields + seq![Op::EndTuple];
    lemma_field_reads(
        indent,
        Op::BeginElement,
        Op::EndElement,
        group,
        human_group(false, indent as nat, None, Some("-"), key_text + value_text),
    );
    assert(ops =~= seq![Op::BeginElement] + group + seq![Op::EndElement]);
}

proof fn lemma_fields_entry_reads(
    indent: u8,
    key: Seq<Op>,
    value: Seq<Op>,
    key_text: Seq<char>,
    value_text: Seq<char>,
    opt: Options,
)
    requires
        opt.map_format is Struct,
        reads(awaiting(false, indent, None, Some("key")), key, key_text),
        reads(awaiting(false, indent, None, Some("value")), value, value_text),
    ensures
        reads(
            resting(indent),
            key_ops(key, opt) + value_ops(value, opt),
            human_entry(key_text, value_text, indent as nat, opt),
        ),
{
    lemma_field_reads(indent, Op::BeginField("key"), Op::EndField, key, key_text);
    lemma_field_reads(indent, Op::BeginField("value"), Op::EndField, value, value_text);
    lemma_reads_concat(
        indent,
        field_ops("key", key),
        field_ops("value", value),
        key_text,
        value_text,
    );
}

proof fn lemma_elements_read(items: Seq<Value>, n: int, indent: u8, opt: Options)
    requires
        0 <= n <= items.len(),
        elements_encodable(items, opt),
        indent + INDENT_STEP * elements_depth(items, n, opt) <= 255,
    ensures
        reads(
            resting(indent),
            elements_ops(items, n, opt),
            human_elements(items, n, indent as nat, opt),
        ),
    decreases items, n,
{
    if n > 0 {
        let item = items[n - 1];
        lemma_elements_read(items, n - 1, indent, opt);
        lemma_human_form(item, false, indent, None, Some("-"), opt);
        lemma_field_reads(
            indent,
            Op::BeginElement,
            Op::EndElement,
            item.ops(opt),
            item.human(false, indent as nat, None, Some("-"), opt),
        );
        lemma_reads_concat(
            indent,
            elements_ops(items, n - 1, opt),
            element_ops(item.ops(opt)),
            human_elements(items, n - 1, indent as nat, opt),
            item.human(false, indent as nat, None, Some("-"), opt),
        );
    } else {
        assert(reads(resting(indent), Seq::empty(), Seq::empty()));
    }
}

proof fn lemma_fields_read(fields: Seq<(&'static str, Value)>, n: int, indent: u8, opt: Options)
    requires
        0 <= n <= fields.len(),
        fields_encodable(fields, opt),
        indent + INDENT_STEP * fields_depth(fields, n, opt) <= 255,
    ensures
        reads(
            resting(indent),
            fields_ops(fields, n, opt),
            human_fields(fields, n, indent as nat, opt),
        ),
    decreases fields, n,
{
    if n > 0 {
        let field = fields[n - 1];
        let text = field.1.human(false, indent as nat, None, Some(field.0), opt);
        lemma_fields_read(fields, n - 1, indent, opt);
        lemma_human_form(field.1, false, indent, None, Some(field.0), opt);
        lemma_field_reads(indent, Op::BeginField(field.0), Op::EndField, field.1.ops(opt), text);
        lemma_reads_concat(
            indent,
            fields_ops(fields, n - 1, opt),
            field_ops(field.0, field.1.ops(opt)),
            human_fields(fields, n - 1, indent as nat, opt),
            text,
        );
    } else {
        assert(reads(resting(indent), Seq::empty(), Seq::empty()));
    }
}

proof fn lemma_entries_read(entries: Seq<(Value, Value)>, n: int, indent: u8, opt: Options)
    requires
        0 <= n <= entries.len(),
        entries_encodable(entries, opt),
        entry_indent(indent as nat, opt) + INDENT_STEP * entries_depth(entries, n, opt) <= 255,
    ensures
        reads(
            resting(indent),
            entries_ops(entries, n, opt),
            human_entries(entries, n, indent as nat, opt),
        ),
    decreases entries, n,
{
    if n > 0 {
        let entry = entries[n - 1];
        let deeper = entry_indent(indent as nat, opt) as u8;
        let key = key_ops(entry.0.ops(opt), opt);
        let value = value_ops(entry.1.ops(opt), opt);
        let key_text = entry.0.human(false, deeper as nat, None, Some(key_name(opt)), opt);
        let value_text = entry.1.human(false, deeper as nat, None, Some(value_name(opt)), opt);
        lemma_entries_read(entries, n - 1, indent, opt);
        lemma_human_form(entry.0, false, deeper, None, Some(key_name(opt)), opt);
        lemma_human_form(entry.1, false, deeper, None, Some(value_name(opt)), opt);
        match opt.map_format {
            MapFormat::Infer => lemma_inferred_entry_reads(
                indent,
                entry.0.ops(opt),
                entry.1.ops(opt),
                key_text,
                value_text,
                opt,
            ),
            MapFormat::Tuple => lemma_flattened_entry_reads(
                indent,
                entry.0.ops(opt),
                entry.1.ops(opt),
                key_text,
                value_text,
                opt,
            ),
            MapFormat::Struct => lemma_fields_entry_reads(
                indent,
                entry.0.ops(opt),
                entry.1.ops(opt),
                key_text,
                value_text,
                opt,
            ),
        }
        lemma_reads_concat(
            indent,
            entries_ops(entries, n - 1, opt),
            key + value,
            human_entries(entries, n - 1, indent as nat, opt),
            human_entry(key_text, value_text, indent as nat, opt),
        );
        assert(entries_ops(entries, n, opt) =~= entries_ops(entries, n - 1, opt) + (key + value));
    } else {
        assert(reads(resting(indent), Seq::empty(), Seq::empty()));
    }
}

proof fn lemma_scalar_form(value: Value, fmt: HumanFormatter, opt: Options)
    requires
        value.ops(opt).len() == 1,
        value.ops(opt)[0].is_value(),
        !value.ops(opt)[0].opens_group(),
        !(value.ops(opt)[0] is BeginKey),
        !(value is Present),
        !(value is NewtypeStruct),
    ensures
        reads(
            fmt,
            value.ops(opt),
            value.human(fmt.root, fmt.indent as nat, fmt.ty, fmt.field, opt),
        ),
{
    let ops = value.ops(opt);
    lemma_rendering_one(fmt, ops[0]);
    assert(ops =~= seq![ops[0]]);
}

proof fn lemma_unit_form(value: Value, fmt: HumanFormatter, opt: Options)
    requires
        value is Absent || value is Unit || value is UnitStruct || value is UnitVariant,
        value.starts_annotated(opt) ==> fmt.ty is None,
        fmt.root ==> fmt.indent < INDENT_STEP,
        fmt.indent + INDENT_STEP * value.depth(opt) <= 255,
    ensures
        reads(
            fmt,
            value.ops(opt),
            value.human(fmt.root, fmt.indent as nat, fmt.ty, fmt.field, opt),
        ),
{
    match value {
        Value::Absent => {
            if opt.option_as_enum {
                let annotated = awaiting(fmt.root, fmt.indent, Some("None"), fmt.field);
                lemma_unit_reads(annotated, opt);
                lemma_annotation_reads(
                    fmt,
                    "None",
                    unit_ops(opt),
                    human_unit(fmt.root, fmt.indent as nat, Some("None"), fmt.field, opt),
                );
            } else {
                lemma_rendering_one(fmt, Op::Null);
            }
        },
        Value::Unit => {
            lemma_unit_reads(fmt, opt);
        },
        Value::UnitStruct(of_type) => {
            lemma_unit_reads(fmt, opt);
            lemma_offer_reads(
                fmt,
                of_type,
                unit_ops(opt),
                human_unit(fmt.root, fmt.indent as nat, fmt.ty, fmt.field, opt),
            );
        },
        Value::UnitVariant(_, _, variant) => {
            let annotated = awaiting(fmt.root, fmt.indent, Some(variant), fmt.field);
            lemma_unit_reads(annotated, opt);
            lemma_annotation_reads(
                fmt,
                variant,
                unit_ops(opt),
                human_unit(fmt.root, fmt.indent as nat, Some(variant), fmt.field, opt),
            );
        },
        _ => {},
    }
}

proof fn lemma_newtype_struct_form(
    inner: Value,
    of_type: &'static str,
    fmt: HumanFormatter,
    opt: Options,
)
    requires
        inner.encodable(opt),
        !opt.newtype_as_tuple && inner.starts_annotated(opt) ==> fmt.ty is None,
        fmt.root ==> fmt.indent < INDENT_STEP,
        opt.newtype_as_tuple ==> fmt.indent + INDENT_STEP * (1 + inner.depth(opt)) <= 255,
        !opt.newtype_as_tuple ==> fmt.indent + INDENT_STEP * inner.depth(opt) <= 255,
    ensures
        reads(
            fmt,
            newtype_struct_ops(of_type, inner.ops(opt), opt),
            if opt.newtype_as_tuple {
                human_group(
                    fmt.elides(),
                    fmt.indent as nat,
                    fmt.ty,
                    fmt.field,
                    inner.human(
                        false,
                        fields_indent(fmt.elides(), fmt.indent as nat),
                        None,
                        Some("-"),
                        opt,
                    ),
                )
            } else {
                inner.human(fmt.root, fmt.indent as nat, fmt.ty, fmt.field, opt)
            },
        ),
    decreases inner, 2int,
{
    if opt.newtype_as_tuple {
        lemma_human_form(inner, false, inside(fmt), None, Some("-"), opt);
        lemma_wrapped_reads(
            fmt,
            of_type,
            inner.ops(opt),
            inner.human(false, inside(fmt) as nat, None, Some("-"), opt),
            opt,
        );
    } else {
        lemma_human_form(inner, fmt.root, fmt.indent, fmt.ty, fmt.field, opt);
        lemma_offer_reads(
            fmt,
            of_type,
            inner.ops(opt),
            inner.human(fmt.root, fmt.indent as nat, fmt.ty, fmt.field, opt),
        );
    }
}

proof fn lemma_newtype_variant_form(
    inner: Value,
    of_type: &'static str,
    variant: &'static str,
    fmt: HumanFormatter,
    opt: Options,
)
    requires
        inner.encodable(opt),
        fmt.ty is None,
        !opt.newtype_as_tuple ==> !inner.starts_annotated(opt),
        fmt.root ==> fmt.indent < INDENT_STEP,
        opt.newtype_as_tuple ==> fmt.indent + INDENT_STEP * (1 + inner.depth(opt)) <= 255,
        !opt.newtype_as_tuple ==> fmt.indent + INDENT_STEP * inner.depth(opt) <= 255,
    ensures
        reads(
            fmt,
            seq![Op::RequireType(variant)] + newtype_struct_ops(of_type, inner.ops(opt), opt),
            if opt.newtype_as_tuple {
                human_group(
                    false,
                    fmt.indent as nat,
                    Some(variant),
                    fmt.field,
                    inner.human(
                        false,
                        fields_indent(false, fmt.indent as nat),
                        None,
                        Some("-"),
                        opt,
                    ),
                )
            } else {
                inner.human(fmt.root, fmt.indent as nat, Some(variant), fmt.field, opt)
            },
        ),
    decreases inner, 3int,
{
    let annotated = awaiting(fmt.root, fmt.indent, Some(variant), fmt.field);
    lemma_newtype_struct_form(inner, of_type, annotated, opt);
    let text = if opt.newtype_as_tuple {
        human_group(
            false,
            fmt.indent as nat,
            Some(variant),
            fmt.field,
            inner.human(false, fields_indent(false, fmt.indent as nat), None, Some("-"), opt),
        )
    } else {
        inner.human(fmt.root, fmt.indent as nat, Some(variant), fmt.field, opt)
    };
    lemma_annotation_reads(
        fmt,
        variant,
        newtype_struct_ops(of_type, inner.ops(opt), opt),
        text,
    );
}

proof fn lemma_tuple_form(items: Seq<Value>, fmt: HumanFormatter, opt: Options)
    requires
        elements_encodable(items, opt),
        fmt.root ==> fmt.indent < INDENT_STEP,
        fmt.indent + INDENT_STEP * (1 + elements_depth(items, items.len() as int, opt)) <= 255,
    ensures
        reads(
            fmt,
            seq![Op::BeginTuple] + elements_ops(items, items.len() as int, opt) + seq![
                Op::EndTuple,
            ],
            human_group(
                fmt.elides(),
                fmt.indent as nat,
                fmt.ty,
                fmt.field,
                human_elements(
                    items,
                    items.len() as int,
                    fields_indent(fmt.elides(), fmt.indent as nat),
                    opt,
                ),
            ),
        ),
    decreases items, items.len() + 1,
{
    lemma_elements_read(items, items.len() as int, inside(fmt), opt);
    lemma_group_reads(
        fmt,
        Op::BeginTuple,
        Op::EndTuple,
        elements_ops(items, items.len() as int, opt),
        human_elements(items, items.len() as int, inside(fmt) as nat, opt),
    );
}

proof fn lemma_struct_form(fields: Seq<(&'static str, Value)>, fmt: HumanFormatter, opt: Options)
    requires
        fields_encodable(fields, opt),
        fmt.root ==> fmt.indent < INDENT_STEP,
        fmt.indent + INDENT_STEP * (1 + fields_depth(fields, fields.len() as int, opt)) <= 255,
    ensures
        reads(
            fmt,
            seq![Op::BeginStruct] + fields_ops(fields, fields.len() as int, opt) + seq![
                Op::EndStruct,
            ],
            human_group(
                fmt.elides(),
                fmt.indent as nat,
                fmt.ty,
                fmt.field,
                human_fields(
                    fields,
                    fields.len() as int,
                    fields_indent(fmt.elides(), fmt.indent as nat),
                    opt,
                ),
            ),
        ),
    decreases fields, fields.len() + 1,
{
    lemma_fields_read(fields, fields.len() as int, inside(fmt), opt);
    lemma_group_reads(
        fmt,
        Op::BeginStruct,
        Op::EndStruct,
        fields_ops(fields, fields.len() as int, opt),
        human_fields(fields, fields.len() as int, inside(fmt) as nat, opt),
    );
}

proof fn lemma_map_form(entries: Seq<(Value, Value)>, fmt: HumanFormatter, opt: Options)
    requires
        entries_encodable(entries, opt),
        fmt.root ==> fmt.indent < INDENT_STEP,
        opt.map_format is Struct ==> fmt.indent + INDENT_STEP * (1 + entries_depth(
            entries,
            entries.len() as int,
            opt,
        )) <= 255,
        !(opt.map_format is Struct) ==> fmt.indent + INDENT_STEP * (2 + entries_depth(
            entries,
            entries.len() as int,
            opt,
        )) <= 255,
    ensures
        reads(
            fmt,
            map_begin_ops(opt) + entries_ops(entries, entries.len() as int, opt) + map_end_ops(
                opt,
            ),
            human_group(
                fmt.elides(),
                fmt.indent as nat,
                fmt.ty,
                fmt.field,
                human_entries(
                    entries,
                    entries.len() as int,
                    fields_indent(fmt.elides(), fmt.indent as nat),
                    opt,
                ),
            ),
        ),
    decreases entries, entries.len() + 1,
{
    let body = entries_ops(entries, entries.len() as int, opt);
    let text = human_entries(entries, entries.len() as int, inside(fmt) as nat, opt);
    let ops = map_begin_ops(opt) + body + map_end_ops(opt);
    lemma_entries_read(entries, entries.len() as int, inside(fmt), opt);
    match opt.map_format {
        MapFormat::Infer => lemma_group_reads(fmt, Op::BeginMap, Op::EndMap, body, text),
        MapFormat::Tuple => lemma_group_reads(fmt, Op::BeginTuple, Op::EndTuple, body, text),
        MapFormat::Struct => lemma_group_reads(fmt, Op::BeginStruct, Op::EndStruct, body, text),
    }
}

proof fn lemma_present_form(
    value: Value,
    root: bool,
    indent: u8,
    annotation: Option<&'static str>,
    name: Option<&'static str>,
    opt: Options,
)
    requires
        value is Present,
        value.encodable(opt),
        value.starts_annotated(opt) ==> annotation is None,
        root ==> indent < INDENT_STEP,
        indent + INDENT_STEP * value.depth(opt) <= 255,
    ensures
        reads(
            awaiting(root, indent, annotation, name),
            value.ops(opt),
            value.human(root, indent as nat, annotation, name, opt),
        ),
    decreases value, 0int,
{
    let fmt = awaiting(root, indent, annotation, name);
    let ops = value.ops(opt);
    let text = value.human(root, indent as nat, annotation, name, opt);
    match value {
        Value::Present(inner) => {
            if opt.option_as_enum {
                lemma_newtype_variant_form(*inner, "Option", "Some", fmt, opt);
            } else {
                lemma_human_form(*inner, root, indent, annotation, name, opt);
            }
        },
        _ => {},
    }
}

proof fn lemma_newtype_form(
    value: Value,
    root: bool,
    indent: u8,
    annotation: Option<&'static str>,
    name: Option<&'static str>,
    opt: Options,
)
    requires
        value is NewtypeStruct || value is NewtypeVariant,
        value.encodable(opt),
        value.starts_annotated(opt) ==> annotation is None,
        root ==> indent < INDENT_STEP,
        indent + INDENT_STEP * value.depth(opt) <= 255,
    ensures
        reads(
            awaiting(root, indent, annotation, name),
            value.ops(opt),
            value.human(root, indent as nat, annotation, name, opt),
        ),
    decreases value, 0int,
{
    let fmt = awaiting(root, indent, annotation, name);
    let ops = value.ops(opt);
    let text = value.human(root, indent as nat, annotation, name, opt);
    match value {
        Value::NewtypeStruct(of_type, inner) => {
            lemma_newtype_struct_form(*inner, of_type, fmt, opt);
        },
        Value::NewtypeVariant(of_type, _, variant, inner) => {
            lemma_newtype_variant_form(*inner, of_type, variant, fmt, opt);
        },
        _ => {},
    }
}

proof fn lemma_sequence_form(
    value: Value,
    root: bool,
    indent: u8,
    annotation: Option<&'static str>,
    name: Option<&'static str>,
    opt: Options,
)
    requires
        value is Sequence || value is Tuple,
        value.encodable(opt),
        value.starts_annotated(opt) ==> annotation is None,
        root ==> indent < INDENT_STEP,
        indent + INDENT_STEP * value.depth(opt) <= 255,
    ensures
        reads(
            awaiting(root, indent, annotation, name),
            value.ops(opt),
            value.human(root, indent as nat, annotation, name, opt),
        ),
    decreases value, 0int,
{
    let fmt = awaiting(root, indent, annotation, name);
    let ops = value.ops(opt);
    let text = value.human(root, indent as nat, annotation, name, opt);
    match value {
        Value::Sequence(items) => {
            lemma_tuple_form(items@, fmt, opt);
        },
        Value::Tuple(items) => {
            lemma_tuple_form(items@, fmt, opt);
        },
        _ => {},
    }
}

proof fn lemma_tuple_struct_form(
    value: Value,
    root: bool,
    indent: u8,
    annotation: Option<&'static str>,
    name: Option<&'static str>,
    opt: Options,
)
    requires
        value is TupleStruct,
        value.encodable(opt),
        value.starts_annotated(opt) ==> annotation is None,
        root ==> indent < INDENT_STEP,
        indent + INDENT_STEP * value.depth(opt) <= 255,
    ensures
        reads(
            awaiting(root, indent, annotation, name),
            value.ops(opt),
            value.human(root, indent as nat, annotation, name, opt),
        ),
    decreases value, 0int,
{
    let fmt = awaiting(root, indent, annotation, name);
    let ops = value.ops(opt);
    let text = value.human(root, indent as nat, annotation, name, opt);
    match value {
        Value::TupleStruct(of_type, items) => {
            let group = seq![Op::BeginTuple] + elements_ops(items@, items@.len() as int, opt)
                + seq![Op::EndTuple];
            lemma_tuple_form(items@, fmt, opt);
            lemma_offer_reads(fmt, of_type, group, text);
            assert(ops =~= seq![Op::ProvideType(of_type)] + group);
        },
        _ => {},
    }
}

proof fn lemma_tuple_variant_form(
    value: Value,
    root: bool,
    indent: u8,
    annotation: Option<&'static str>,
    name: Option<&'static str>,
    opt: Options,
)
    requires
        value is TupleVariant,
        value.encodable(opt),
        value.starts_annotated(opt) ==> annotation is None,
        root ==> indent < INDENT_STEP,
        indent + INDENT_STEP * value.depth(opt) <= 255,
    ensures
        reads(
            awaiting(root, indent, annotation, name),
            value.ops(opt),
            value.human(root, indent as nat, annotation, name, opt),
        ),
    decreases value, 0int,
{
    let fmt = awaiting(root, indent, annotation, name);
    let ops = value.ops(opt);
    let text = value.human(root, indent as nat, annotation, name, opt);
    match value {
        Value::TupleVariant(_, _, variant, items) => {
            let group = seq![Op::BeginTuple] + elements_ops(items@, items@.len() as int, opt)
                + seq![Op::EndTuple];
            lemma_tuple_form(items@, awaiting(root, indent, Some(variant), name), opt);
            lemma_annotation_reads(fmt, variant, group, text);
            assert(ops =~= seq![Op::RequireType(variant)] + group);
        },
        _ => {},
    }
}

proof fn lemma_struct_value_form(
    value: Value,
    root: bool,
    indent: u8,
    annotation: Option<&'static str>,
    name: Option<&'static str>,
    opt: Options,
)
    requires
        value is Struct,
        value.encodable(opt),
        value.starts_annotated(opt) ==> annotation is None,
        root ==> indent < INDENT_STEP,
        indent + INDENT_STEP * value.depth(opt) <= 255,
    ensures
        reads(
            awaiting(root, indent, annotation, name),
            value.ops(opt),
            value.human(root, indent as nat, annotation, name, opt),
        ),
    decreases value, 0int,
{
    let fmt = awaiting(root, indent, annotation, name);
    let ops = value.ops(opt);
    let text = value.human(root, indent as nat, annotation, name, opt);
    match value {
        Value::Struct(of_type, fields) => {
            let group = seq![Op::BeginStruct] + fields_ops(fields@, fields@.len() as int, opt)
                + seq![Op::EndStruct];
            lemma_struct_form(fields@, fmt, opt);
            lemma_offer_reads(fmt, of_type, group, text);
            assert(ops =~= seq![Op::ProvideType(of_type)] + group);
        },
        _ => {},
    }
}

proof fn lemma_struct_variant_form(
    value: Value,
    root: bool,
    indent: u8,
    annotation: Option<&'static str>,
    name: Option<&'static str>,
    opt: Options,
)
    requires
        value is StructVariant,
        value.encodable(opt),
        value.starts_annotated(opt) ==> annotation is None,
        root ==> indent < INDENT_STEP,
        indent + INDENT_STEP * value.depth(opt) <= 255,
    ensures
        reads(
            awaiting(root, indent, annotation, name),
            value.ops(opt),
            value.human(root, indent as nat, annotation, name, opt),
        ),
    decreases value, 0int,
{
    let fmt = awaiting(root, indent, annotation, name);
    let ops = value.ops(opt);
    let text = value.human(root, indent as nat, annotation, name, opt);
    match value {
        Value::StructVariant(of_type, _, variant, fields) => {
            let group = seq![Op::BeginStruct] + fields_ops(fields@, fields@.len() as int, opt)
                + seq![Op::EndStruct];
            let offered = seq![Op::ProvideType(of_type)] + group;
            let annotated = awaiting(root, indent, Some(variant), name);
            lemma_struct_form(fields@, annotated, opt);
            lemma_offer_reads(annotated, of_type, group, text);
            lemma_annotation_reads(fmt, variant, offered, text);
            assert(ops =~= seq![Op::RequireType(variant)] + offered);
        },
        _ => {},
    }
}

proof fn lemma_mapping_form(
    value: Value,
    root: bool,
    indent: u8,
    annotation: Option<&'static str>,
    name: Option<&'static str>,
    opt: Options,
)
    requires
        value is Mapping,
        value.encodable(opt),
        value.starts_annotated(opt) ==> annotation is None,
        root ==> indent < INDENT_STEP,
        indent + INDENT_STEP * value.depth(opt) <= 255,
    ensures
        reads(
            awaiting(root, indent, annotation, name),
            value.ops(opt),
            value.human(root, indent as nat, annotation, name, opt),
        ),
    decreases value, 0int,
{
    let fmt = awaiting(root, indent, annotation, name);
    let ops = value.ops(opt);
    let text = value.human(root, indent as nat, annotation, name, opt);
    match value {
        Value::Mapping(entries) => {
            lemma_map_form(entries@, fmt, opt);
        },
        _ => {},
    }
}

/// What the human formatter writes for the operations of a value, with
/// `annotation` and `name` waiting at `indent`, is the layout of the value
/// there; nothing waits after it, and the indentation is as before. This
/// holds where the indentation can grow by a step for each group that the
/// value nests.
pub proof fn lemma_human_form(
    value: Value,
    root: bool,
    indent: u8,
    annotation: Option<&'static str>,
    name: Option<&'static str>,
    opt: Options,
)
    requires
        value.encodable(opt),
        value.starts_annotated(opt) ==> annotation is None,
        root ==> indent < INDENT_STEP,
        indent + INDENT_STEP * value.depth(opt) <= 255,
    ensures
        reads(
            awaiting(root, indent, annotation, name),
            value.ops(opt),
            value.human(root, indent as nat, annotation, name, opt),
        ),
    decreases value, 1int,
{
    let fmt = awaiting(root, indent, annotation, name);
    if value is Absent || value is Unit || value is UnitStruct || value is UnitVariant {
        lemma_unit_form(value, fmt, opt);
    } else if value is Present {
        lemma_present_form(value, root, indent, annotation, name, opt);
    } else if value is NewtypeStruct || value is NewtypeVariant {
        lemma_newtype_form(value, root, indent, annotation, name, opt);
    } else if value is Sequence || value is Tuple {
        lemma_sequence_form(value, root, indent, annotation, name, opt);
    } else if value is TupleStruct {
        lemma_tuple_struct_form(value, root, indent, annotation, name, opt);
    } else if value is TupleVariant {
        lemma_tuple_variant_form(value, root, indent, annotation, name, opt);
    } else if value is Struct {
        lemma_struct_value_form(value, root, indent, annotation, name, opt);
    } else if value is StructVariant {
        lemma_struct_variant_form(value, root, indent, annotation, name, opt);
    } else if value is Mapping {
        lemma_mapping_form(value, root, indent, annotation, name, opt);
    } else {
        lemma_scalar_form(value, fmt, opt);
    }
}

/// The laid-out text of a value that nests at most 63 groups is its layout
/// from the first column under the placeholder `-`: as the root, unless
/// the policies keep the root's node.
pub proof fn lemma_human_text_is_human_form(value: Value, opt: Options)
    requires
        value.encodable(opt),
        value.depth(opt) <= 63,
    ensures
        human_text(value, opt) == value.human(!opt.force_root_node, 0, None, Some("-"), opt),
{
    lemma_human_form(value, !opt.force_root_node, 0, None, Some("-"), opt);
}

} // verus!
