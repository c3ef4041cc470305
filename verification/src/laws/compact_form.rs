//! What the compact formatter writes for the operations of a value is the
//! compact form of the value.

use crate::compact::{
    compact_elements, compact_entries, compact_entry, compact_field, compact_fields, compact_group,
    compact_unit, lead, SimpleFormatter,
};
use crate::format::{
    end_state, lemma_rendering_concat, lemma_rendering_first, lemma_rendering_last,
    lemma_rendering_one, rendering, Format, Op,
};
use crate::protocol::{field_pair, group_pair};
use crate::ser::compact_text;
use crate::value::{
    element_ops, elements_encodable, elements_ops, entries_encodable, entries_ops, field_ops,
    fields_encodable, fields_ops, key_name, key_ops, map_begin_ops, map_end_ops, newtype_struct_ops,
    unit_ops, value_name, value_ops, MapFormat, Options, Value,
};
use vstd::prelude::*;

verus! {

/// From the state `fmt`, the operations write `text` and leave nothing
/// waiting.
pub open spec fn reads(fmt: SimpleFormatter, ops: Seq<Op>, text: Seq<char>) -> bool {
    rendering(fmt, ops) == text && end_state(fmt, ops) == SimpleFormatter::idle()
}

/// The state in which `annotation` and `name` wait.
pub open spec fn awaiting(
    annotation: Option<&'static str>,
    name: Option<&'static str>,
) -> SimpleFormatter {
    SimpleFormatter { ty: annotation, field: name }
}

proof fn lemma_reads_concat(a: Seq<Op>, b: Seq<Op>, first: Seq<char>, second: Seq<char>)
    requires
        reads(SimpleFormatter::idle(), a, first),
        reads(SimpleFormatter::idle(), b, second),
    ensures
        reads(SimpleFormatter::idle(), a + b, first + second),
{
    lemma_rendering_concat(SimpleFormatter::idle(), a, b);
}

proof fn lemma_group_reads(
    fmt: SimpleFormatter,
    open: Op,
    close: Op,
    body: Seq<Op>,
    fields: Seq<char>,
)
    requires
        group_pair(open, close),
        reads(SimpleFormatter::idle(), body, fields),
    ensures
        reads(fmt, seq![open] + body + seq![close], compact_group(fmt.ty, fmt.field, fields)),
{
    let rest = body + seq![close];
    let ops = seq![open] + body + seq![close];
    assert(ops =~= seq![open] + rest);
    lemma_rendering_last(SimpleFormatter::idle(), body, close);
    lemma_rendering_first(fmt, open, rest);
    assert(rendering(fmt, ops) =~= compact_group(fmt.ty, fmt.field, fields));
}

proof fn lemma_field_reads(open: Op, close: Op, inner: Seq<Op>, text: Seq<char>)
    requires
        field_pair(open, close),
        reads(awaiting(None, Some(open.field_name())), inner, text),
    ensures
        reads(SimpleFormatter::idle(), seq![open] + inner + seq![close], compact_field(text)),
{
    let idle = SimpleFormatter::idle();
    let rest = inner + seq![close];
    let ops = seq![open] + inner + seq![close];
    assert(ops =~= seq![open] + rest);
    assert(idle.next(open) == awaiting(None, Some(open.field_name())));
    lemma_rendering_last(idle.next(open), inner, close);
    lemma_rendering_first(idle, open, rest);
    assert(rendering(idle, ops) =~= compact_field(text));
}

proof fn lemma_offer_reads(
    fmt: SimpleFormatter,
    name: &'static str,
    inner: Seq<Op>,
    text: Seq<char>,
)
    requires
        reads(fmt, inner, text),
    ensures
        reads(fmt, seq![Op::ProvideType(name)] + inner, text),
{
    lemma_rendering_first(fmt, Op::ProvideType(name), inner);
    assert(Seq::<char>::empty() + text =~= text);
}

proof fn lemma_annotation_reads(
    fmt: SimpleFormatter,
    variant: &'static str,
    inner: Seq<Op>,
    text: Seq<char>,
)
    requires
        reads(awaiting(Some(variant), fmt.field), inner, text),
    ensures
        reads(fmt, seq![Op::RequireType(variant)] + inner, text),
{
    lemma_rendering_first(fmt, Op::RequireType(variant), inner);
    assert(Seq::<char>::empty() + text =~= text);
}

proof fn lemma_unit_reads(fmt: SimpleFormatter, opt: Options)
    ensures
        reads(fmt, unit_ops(opt), compact_unit(fmt.ty, fmt.field, opt)),
{
    if opt.unit_as_tuple {
        let idle = SimpleFormatter::idle();
        assert(reads(idle, Seq::empty(), Seq::empty()));
        lemma_group_reads(fmt, Op::BeginTuple, Op::EndTuple, Seq::empty(), Seq::empty());
        assert(seq![Op::BeginTuple] + Seq::<Op>::empty() + seq![Op::EndTuple] =~= unit_ops(opt));
    } else {
        lemma_rendering_one(fmt, Op::Null);
    }
}

proof fn lemma_wrapped_reads(
    fmt: SimpleFormatter,
    name: &'static str,
    inner: Seq<Op>,
    text: Seq<char>,
    opt: Options,
)
    requires
        opt.newtype_as_tuple,
        reads(awaiting(None, Some("-")), inner, text),
    ensures
        reads(
            fmt,
            newtype_struct_ops(name, inner, opt),
            compact_group(fmt.ty, fmt.field, compact_field(text)),
        ),
{
    lemma_field_reads(Op::BeginElement, Op::EndElement, inner, text);
    lemma_group_reads(fmt, Op::BeginTuple, Op::EndTuple, element_ops(inner), compact_field(text));
    let group = seq![Op::BeginTuple] + element_ops(inner) + seq![Op::EndTuple];
    lemma_offer_reads(fmt, name, group, compact_group(fmt.ty, fmt.field, compact_field(text)));
    assert(newtype_struct_ops(name, inner, opt) =~= seq![Op::ProvideType(name)] + group);
}

proof fn lemma_inferred_entry_reads(
    key: Seq<Op>,
    value: Seq<Op>,
    key_text: Seq<char>,
    value_text: Seq<char>,
    opt: Options,
)
    requires
        opt.map_format is Infer,
        reads(awaiting(None, Some("key")), key, key_text),
        reads(awaiting(None, Some("value")), value, value_text),
    ensures
        reads(
            SimpleFormatter::idle(),
            key_ops(key, opt) + value_ops(value, opt),
            compact_entry(key_text, value_text, opt),
        ),
{
    let idle = SimpleFormatter::idle();
    let ops = key_ops(key, opt) + value_ops(value, opt);
    let in_key = awaiting(None, Some("key"));
    let in_value = awaiting(None, Some("value"));
    let a = key + seq![Op::EndKey];
    let b = value + seq![Op::EndValue];
    let c = seq![Op::BeginValue] + b;
    assert(ops =~= seq![Op::BeginKey] + (a + c));
    lemma_rendering_last(in_key, key, Op::EndKey);
    assert(reads(in_key, a, key_text + "; "@));
    lemma_rendering_last(in_value, value, Op::EndValue);
    assert(reads(in_value, b, value_text + ("; "@ + "}"@ + "; "@)));
    lemma_rendering_first(idle, Op::BeginValue, b);
    assert(idle.next(Op::BeginValue) == in_value);
    assert(rendering(idle, c) =~= value_text + ("; "@ + "}"@ + "; "@));
    lemma_rendering_concat(in_key, a, c);
    lemma_rendering_first(idle, Op::BeginKey, a + c);
    assert(idle.next(Op::BeginKey) == in_key);
    let opening = idle.text(Op::BeginKey);
    assert(opening =~= lead(None, Some("-")) + "{ "@);
    assert(rendering(idle, ops) =~= opening + ((key_text + "; "@) + (value_text + ("; "@ + "}"@
        + "; "@))));
    assert(compact_entry(key_text, value_text, opt) =~= opening + ((key_text + "; "@) + (value_text
        + ("; "@ + "}"@ + "; "@))));
}

proof fn lemma_flattened_entry_reads(
    key: Seq<Op>,
    value: Seq<Op>,
    key_text: Seq<char>,
    value_text: Seq<char>,
    opt: Options,
)
    requires
        opt.map_format is Tuple,
        reads(awaiting(None, Some("-")), key, key_text),
        reads(awaiting(None, Some("-")), value, value_text),
    ensures
        reads(
            SimpleFormatter::idle(),
            key_ops(key, opt) + value_ops(value, opt),
            compact_entry(key_text, value_text, opt),
        ),
{
    let ops = key_ops(key, opt) + value_ops(value, opt);
    lemma_field_reads(Op::BeginElement, Op::EndElement, key, key_text);
    lemma_field_reads(Op::BeginElement, Op::EndElement, value, value_text);
    let fields = element_ops(key) + element_ops(value);
    let texts = compact_field(key_text) + compact_field(value_text);
    lemma_reads_concat(
        element_ops(key),
        element_ops(value),
        compact_field(key_text),
        compact_field(value_text),
    );
    lemma_group_reads(awaiting(None, Some("-")), Op::BeginTuple, Op::EndTuple, fields, texts);
    let group = seq![Op::BeginTuple] + fields + seq![Op::EndTuple];
    lemma_field_reads(
        Op::BeginElement,
        Op::EndElement,
        group,
        compact_group(None, Some("-"), texts),
    );
    assert(ops =~= seq![Op::BeginElement] + group + seq![Op::EndElement]);
}

proof fn lemma_fields_entry_reads(
    key: Seq<Op>,
    value: Seq<Op>,
    key_text: Seq<char>,
    value_text: Seq<char>,
    opt: Options,
)
    requires
        opt.map_format is Struct,
        reads(awaiting(None, Some("key")), key, key_text),
        reads(awaiting(None, Some("value")), value, value_text),
    ensures
        reads(
            SimpleFormatter::idle(),
            key_ops(key, opt) + value_ops(value, opt),
            compact_entry(key_text, value_text, opt),
        ),
{
    lemma_field_reads(Op::BeginField("key"), Op::EndField, key, key_text);
    lemma_field_reads(Op::BeginField("value"), Op::EndField, value, value_text);
    lemma_reads_concat(
        field_ops("key", key),
        field_ops("value", value),
        compact_field(key_text),
        compact_field(value_text),
    );
}

proof fn lemma_entry_reads(
    key: Seq<Op>,
    value: Seq<Op>,
    key_text: Seq<char>,
    value_text: Seq<char>,
    opt: Options,
)
    requires
        reads(awaiting(None, Some(key_name(opt))), key, key_text),
        reads(awaiting(None, Some(value_name(opt))), value, value_text),
    ensures
        reads(
            SimpleFormatter::idle(),
            key_ops(key, opt) + value_ops(value, opt),
            compact_entry(key_text, value_text, opt),
        ),
{
    match opt.map_format {
        MapFormat::Infer => lemma_inferred_entry_reads(key, value, key_text, value_text, opt),
        MapFormat::Tuple => lemma_flattened_entry_reads(key, value, key_text, value_text, opt),
        MapFormat::Struct => lemma_fields_entry_reads(key, value, key_text, value_text, opt),
    }
}

proof fn lemma_elements_read(items: Seq<Value>, n: int, opt: Options)
    requires
        0 <= n <= items.len(),
        elements_encodable(items, opt),
    ensures
        reads(
            SimpleFormatter::idle(),
            elements_ops(items, n, opt),
            compact_elements(items, n, opt),
        ),
    decreases items, n,
{
    if n > 0 {
        let item = items[n - 1];
        lemma_elements_read(items, n - 1, opt);
        lemma_compact_form(item, None, Some("-"), opt);
        lemma_field_reads(
            Op::BeginElement,
            Op::EndElement,
            item.ops(opt),
            item.compact(None, Some("-"), opt),
        );
        lemma_reads_concat(
            elements_ops(items, n - 1, opt),
            element_ops(item.ops(opt)),
            compact_elements(items, n - 1, opt),
            compact_field(item.compact(None, Some("-"), opt)),
        );
    }
}

proof fn lemma_fields_read(fields: Seq<(&'static str, Value)>, n: int, opt: Options)
    requires
        0 <= n <= fields.len(),
        fields_encodable(fields, opt),
    ensures
        reads(SimpleFormatter::idle(), fields_ops(fields, n, opt), compact_fields(fields, n, opt)),
    decreases fields, n,
{
    if n > 0 {
        let field = fields[n - 1];
        lemma_fields_read(fields, n - 1, opt);
        lemma_compact_form(field.1, None, Some(field.0), opt);
        lemma_field_reads(
            Op::BeginField(field.0),
            Op::EndField,
            field.1.ops(opt),
            field.1.compact(None, Some(field.0), opt),
        );
        lemma_reads_concat(
            fields_ops(fields, n - 1, opt),
            field_ops(field.0, field.1.ops(opt)),
            compact_fields(fields, n - 1, opt),
            compact_field(field.1.compact(None, Some(field.0), opt)),
        );
    }
}

proof fn lemma_entries_read(entries: Seq<(Value, Value)>, n: int, opt: Options)
    requires
        0 <= n <= entries.len(),
        entries_encodable(entries, opt),
    ensures
        reads(
            SimpleFormatter::idle(),
            entries_ops(entries, n, opt),
            compact_entries(entries, n, opt),
        ),
    decreases entries, n,
{
    if n > 0 {
        let entry = entries[n - 1];
        let key = key_ops(entry.0.ops(opt), opt);
        let value = value_ops(entry.1.ops(opt), opt);
        let key_text = entry.0.compact(None, Some(key_name(opt)), opt);
        let value_text = entry.1.compact(None, Some(value_name(opt)), opt);
        lemma_entries_read(entries, n - 1, opt);
        lemma_compact_form(entry.0, None, Some(key_name(opt)), opt);
        lemma_compact_form(entry.1, None, Some(value_name(opt)), opt);
        lemma_entry_reads(entry.0.ops(opt), entry.1.ops(opt), key_text, value_text, opt);
        lemma_reads_concat(
            entries_ops(entries, n - 1, opt),
            key + value,
            compact_entries(entries, n - 1, opt),
            compact_entry(key_text, value_text, opt),
        );
        assert(entries_ops(entries, n, opt) =~= entries_ops(entries, n - 1, opt) + (key + value));
    }
}

proof fn lemma_scalar_form(
    value: Value,
    annotation: Option<&'static str>,
    name: Option<&'static str>,
    opt: Options,
)
    requires
        value.ops(opt).len() == 1,
        value.ops(opt)[0].is_value(),
        !value.ops(opt)[0].opens_group(),
        !(value.ops(opt)[0] is BeginKey),
        !(value is Present),
        !(value is NewtypeStruct),
    ensures
        reads(awaiting(annotation, name), value.ops(opt), value.compact(annotation, name, opt)),
{
    let ops = value.ops(opt);
    lemma_rendering_one(awaiting(annotation, name), ops[0]);
    assert(ops =~= seq![ops[0]]);
}

proof fn lemma_unit_form(
    value: Value,
    annotation: Option<&'static str>,
    name: Option<&'static str>,
    opt: Options,
)
    requires
        value is Absent || value is Unit || value is UnitStruct || value is UnitVariant,
        value.starts_annotated(opt) ==> annotation is None,
    ensures
        reads(awaiting(annotation, name), value.ops(opt), value.compact(annotation, name, opt)),
{
    let fmt = awaiting(annotation, name);
    match value {
        Value::Absent => {
            if opt.option_as_enum {
                lemma_unit_reads(awaiting(Some("None"), name), opt);
                lemma_annotation_reads(
                    fmt,
                    "None",
                    unit_ops(opt),
                    compact_unit(Some("None"), name, opt),
                );
            } else {
                lemma_rendering_one(fmt, Op::Null);
            }
        },
        Value::Unit => {
            lemma_unit_reads(fmt, opt);
        },
        Value::UnitStruct(of_type) => {
            lemma_unit_reads(fmt, opt);
            lemma_offer_reads(fmt, of_type, unit_ops(opt), compact_unit(annotation, name, opt));
        },
        Value::UnitVariant(_, _, variant) => {
            lemma_unit_reads(awaiting(Some(variant), name), opt);
            lemma_annotation_reads(
                fmt,
                variant,
                unit_ops(opt),
                compact_unit(Some(variant), name, opt),
            );
        },
        _ => {},
    }
}

proof fn lemma_newtype_variant_form(
    inner: Value,
    of_type: &'static str,
    variant: &'static str,
    name: Option<&'static str>,
    opt: Options,
)
    requires
        inner.encodable(opt),
        !opt.newtype_as_tuple ==> !inner.starts_annotated(opt),
    ensures
        reads(
            awaiting(None, name),
            seq![Op::RequireType(variant)] + newtype_struct_ops(of_type, inner.ops(opt), opt),
            if opt.newtype_as_tuple {
                compact_group(
                    Some(variant),
                    name,
                    compact_field(inner.compact(None, Some("-"), opt)),
                )
            } else {
                inner.compact(Some(variant), name, opt)
            },
        ),
    decreases inner, 2int,
{
    let annotated = awaiting(Some(variant), name);
    let text = if opt.newtype_as_tuple {
        compact_group(Some(variant), name, compact_field(inner.compact(None, Some("-"), opt)))
    } else {
        inner.compact(Some(variant), name, opt)
    };
    if opt.newtype_as_tuple {
        lemma_compact_form(inner, None, Some("-"), opt);
        lemma_wrapped_reads(
            annotated,
            of_type,
            inner.ops(opt),
            inner.compact(None, Some("-"), opt),
            opt,
        );
    } else {
        lemma_compact_form(inner, Some(variant), name, opt);
        lemma_offer_reads(annotated, of_type, inner.ops(opt), text);
    }
    lemma_annotation_reads(
        awaiting(None, name),
        variant,
        newtype_struct_ops(of_type, inner.ops(opt), opt),
        text,
    );
}

proof fn lemma_newtype_struct_form(
    inner: Value,
    of_type: &'static str,
    annotation: Option<&'static str>,
    name: Option<&'static str>,
    opt: Options,
)
    requires
        inner.encodable(opt),
        !opt.newtype_as_tuple && inner.starts_annotated(opt) ==> annotation is None,
    ensures
        reads(
            awaiting(annotation, name),
            newtype_struct_ops(of_type, inner.ops(opt), opt),
            if opt.newtype_as_tuple {
                compact_group(annotation, name, compact_field(inner.compact(None, Some("-"), opt)))
            } else {
                inner.compact(annotation, name, opt)
            },
        ),
    decreases inner, 2int,
{
    let fmt = awaiting(annotation, name);
    if opt.newtype_as_tuple {
        lemma_compact_form(inner, None, Some("-"), opt);
        lemma_wrapped_reads(
            fmt,
            of_type,
            inner.ops(opt),
            inner.compact(None, Some("-"), opt),
            opt,
        );
    } else {
        lemma_compact_form(inner, annotation, name, opt);
        lemma_offer_reads(fmt, of_type, inner.ops(opt), inner.compact(annotation, name, opt));
    }
}

proof fn lemma_tuple_form(
    items: Seq<Value>,
    annotation: Option<&'static str>,
    name: Option<&'static str>,
    opt: Options,
)
    requires
        elements_encodable(items, opt),
    ensures
        reads(
            awaiting(annotation, name),
            seq![Op::BeginTuple] + elements_ops(items, items.len() as int, opt) + seq![
                Op::EndTuple,
            ],
            compact_group(annotation, name, compact_elements(items, items.len() as int, opt)),
        ),
    decreases items, items.len() + 1,
{
    lemma_elements_read(items, items.len() as int, opt);
    lemma_group_reads(
        awaiting(annotation, name),
        Op::BeginTuple,
        Op::EndTuple,
        elements_ops(items, items.len() as int, opt),
        compact_elements(items, items.len() as int, opt),
    );
}

proof fn lemma_struct_form(
    fields: Seq<(&'static str, Value)>,
    annotation: Option<&'static str>,
    name: Option<&'static str>,
    opt: Options,
)
    requires
        fields_encodable(fields, opt),
    ensures
        reads(
            awaiting(annotation, name),
            seq![Op::BeginStruct] + fields_ops(fields, fields.len() as int, opt) + seq![
                Op::EndStruct,
            ],
            compact_group(annotation, name, compact_fields(fields, fields.len() as int, opt)),
        ),
    decreases fields, fields.len() + 1,
{
    lemma_fields_read(fields, fields.len() as int, opt);
    lemma_group_reads(
        awaiting(annotation, name),
        Op::BeginStruct,
        Op::EndStruct,
        fields_ops(fields, fields.len() as int, opt),
        compact_fields(fields, fields.len() as int, opt),
    );
}

proof fn lemma_map_form(
    entries: Seq<(Value, Value)>,
    annotation: Option<&'static str>,
    name: Option<&'static str>,
    opt: Options,
)
    requires
        entries_encodable(entries, opt),
    ensures
        reads(
            awaiting(annotation, name),
            map_begin_ops(opt) + entries_ops(entries, entries.len() as int, opt) + map_end_ops(
                opt,
            ),
            compact_group(annotation, name, compact_entries(entries, entries.len() as int, opt)),
        ),
    decreases entries, entries.len() + 1,
{
    let fmt = awaiting(annotation, name);
    let body = entries_ops(entries, entries.len() as int, opt);
    let text = compact_entries(entries, entries.len() as int, opt);
    let ops = map_begin_ops(opt) + body + map_end_ops(opt);
    lemma_entries_read(entries, entries.len() as int, opt);
    match opt.map_format {
        MapFormat::Infer => lemma_group_reads(fmt, Op::BeginMap, Op::EndMap, body, text),
        MapFormat::Tuple => lemma_group_reads(fmt, Op::BeginTuple, Op::EndTuple, body, text),
        MapFormat::Struct => lemma_group_reads(fmt, Op::BeginStruct, Op::EndStruct, body, text),
    }
}

/// What the compact formatter writes for the operations of a value, with
/// `annotation` and `name` waiting, is the compact form of the value under
/// that annotation and name; and nothing waits after it.
pub proof fn lemma_compact_form(
    value: Value,
    annotation: Option<&'static str>,
    name: Option<&'static str>,
    opt: Options,
)
    requires
        value.encodable(opt),
        value.starts_annotated(opt) ==> annotation is None,
    ensures
        reads(awaiting(annotation, name), value.ops(opt), value.compact(annotation, name, opt)),
    decreases value, 0int,
{
    let fmt = awaiting(annotation, name);
    let ops = value.ops(opt);
    let text = value.compact(annotation, name, opt);
    match value {
        Value::Absent | Value::Unit | Value::UnitStruct(_) | Value::UnitVariant(..) => {
            lemma_unit_form(value, annotation, name, opt);
        },
        Value::Present(inner) => {
            if opt.option_as_enum {
                lemma_newtype_variant_form(*inner, "Option", "Some", name, opt);
            } else {
                lemma_compact_form(*inner, annotation, name, opt);
            }
        },
        Value::NewtypeStruct(of_type, inner) => {
            lemma_newtype_struct_form(*inner, of_type, annotation, name, opt);
        },
        Value::NewtypeVariant(of_type, _, variant, inner) => {
            lemma_newtype_variant_form(*inner, of_type, variant, name, opt);
        },
        Value::Sequence(items) => {
            lemma_tuple_form(items@, annotation, name, opt);
        },
        Value::Tuple(items) => {
            lemma_tuple_form(items@, annotation, name, opt);
        },
        Value::TupleStruct(of_type, items) => {
            let group = seq![Op::BeginTuple] + elements_ops(items@, items@.len() as int, opt)
                + seq![Op::EndTuple];
            lemma_tuple_form(items@, annotation, name, opt);
            lemma_offer_reads(fmt, of_type, group, text);
            assert(ops =~= seq![Op::ProvideType(of_type)] + group);
        },
        Value::TupleVariant(_, _, variant, items) => {
            let group = seq![Op::BeginTuple] + elements_ops(items@, items@.len() as int, opt)
                + seq![Op::EndTuple];
            lemma_tuple_form(items@, Some(variant), name, opt);
            lemma_annotation_reads(fmt, variant, group, text);
            assert(ops =~= seq![Op::RequireType(variant)] + group);
        },
        Value::Struct(of_type, fields) => {
            let group = seq![Op::BeginStruct] + fields_ops(fields@, fields@.len() as int, opt)
                + seq![Op::EndStruct];
            lemma_struct_form(fields@, annotation, name, opt);
            lemma_offer_reads(fmt, of_type, group, text);
            assert(ops =~= seq![Op::ProvideType(of_type)] + group);
        },
        Value::StructVariant(of_type, _, variant, fields) => {
            let group = seq![Op::BeginStruct] + fields_ops(fields@, fields@.len() as int, opt)
                + seq![Op::EndStruct];
            let offered = seq![Op::ProvideType(of_type)] + group;
            lemma_struct_form(fields@, Some(variant), name, opt);
            lemma_offer_reads(awaiting(Some(variant), name), of_type, group, text);
            lemma_annotation_reads(fmt, variant, offered, text);
            assert(ops =~= seq![Op::RequireType(variant)] + offered);
        },
        Value::Mapping(entries) => {
            lemma_map_form(entries@, annotation, name, opt);
        },
        _ => {
            lemma_scalar_form(value, annotation, name, opt);
        },
    }
}

/// The compact text of a value is its compact form under the placeholder
/// `-`, without an annotation.
pub proof fn lemma_compact_text_is_compact_form(value: Value, opt: Options)
    requires
        value.encodable(opt),
    ensures
        compact_text(value, opt) == value.compact(None, Some("-"), opt),
{
    lemma_compact_form(value, None, Some("-"), opt);
}

} // verus!
