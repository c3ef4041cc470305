//! Every value is written under a field name.

use crate::compact::SimpleFormatter;
use crate::format::{end_state, Format, Op};
use crate::human::HumanFormatter;
use crate::protocol::{
    all_named, field_pair, group_pair, lemma_named_concat, lemma_named_one, named_after,
};
use crate::value::{
    element_ops, elements_ops, entries_ops, field_ops, fields_ops, key_ops, newtype_struct_ops,
    unit_ops, value_ops, MapFormat, Options, Value,
};
use vstd::prelude::*;

verus! {

/// The operations of one value: where a field name waits before them, all
/// they write is named, and they use the name up.
pub open spec fn named_value(ops: Seq<Op>) -> bool {
    all_named(ops, true) && !named_after(ops, true)
}

/// The operations of fields inside a group: they bring their own names,
/// and leave none waiting.
pub open spec fn named_fields(ops: Seq<Op>) -> bool {
    all_named(ops, false) && !named_after(ops, false)
}

proof fn lemma_named_first(first: Op, rest: Seq<Op>, named: bool)
    ensures
        named_after(seq![first] + rest, named) == named_after(rest, first.names(named)),
        all_named(seq![first] + rest, named) == ((first.takes_name() ==> named) && all_named(
            rest,
            first.names(named),
        )),
{
    lemma_named_one(first, named);
    lemma_named_concat(seq![first], rest, named);
}

proof fn lemma_named_last(body: Seq<Op>, last: Op, named: bool)
    ensures
        named_after(body + seq![last], named) == last.names(named_after(body, named)),
        all_named(body + seq![last], named) == (all_named(body, named) && (last.takes_name()
            ==> named_after(body, named))),
{
    lemma_named_one(last, named_after(body, named));
    lemma_named_concat(body, seq![last], named);
}

proof fn lemma_named_fields_concat(a: Seq<Op>, b: Seq<Op>)
    requires
        named_fields(a),
        named_fields(b),
    ensures
        named_fields(a + b),
{
    lemma_named_concat(a, b, false);
}

proof fn lemma_group_named(open: Op, close: Op, body: Seq<Op>)
    requires
        group_pair(open, close),
        named_fields(body),
    ensures
        named_value(seq![open] + body + seq![close]),
{
    let rest = body + seq![close];
    assert(seq![open] + body + seq![close] =~= seq![open] + rest);
    lemma_named_last(body, close, false);
    lemma_named_first(open, rest, true);
}

proof fn lemma_field_named(open: Op, close: Op, inner: Seq<Op>)
    requires
        field_pair(open, close),
        named_value(inner),
    ensures
        named_fields(seq![open] + inner + seq![close]),
{
    let rest = inner + seq![close];
    assert(seq![open] + inner + seq![close] =~= seq![open] + rest);
    lemma_named_last(inner, close, true);
    lemma_named_first(open, rest, false);
}

proof fn lemma_offer_named(op: Op, inner: Seq<Op>)
    requires
        op is ProvideType || op is RequireType,
        named_value(inner),
    ensures
        named_value(seq![op] + inner),
{
    lemma_named_first(op, inner, true);
}

proof fn lemma_unit_named(opt: Options)
    ensures
        named_value(unit_ops(opt)),
{
    if opt.unit_as_tuple {
        lemma_group_named(Op::BeginTuple, Op::EndTuple, Seq::empty());
        assert(seq![Op::BeginTuple] + Seq::<Op>::empty() + seq![Op::EndTuple] =~= unit_ops(opt));
    } else {
        lemma_named_one(Op::Null, true);
    }
}

proof fn lemma_newtype_struct_named(name: &'static str, inner: Seq<Op>, opt: Options)
    requires
        named_value(inner),
    ensures
        named_value(newtype_struct_ops(name, inner, opt)),
{
    if opt.newtype_as_tuple {
        lemma_field_named(Op::BeginElement, Op::EndElement, inner);
        lemma_group_named(Op::BeginTuple, Op::EndTuple, element_ops(inner));
        let group = seq![Op::BeginTuple] + element_ops(inner) + seq![Op::EndTuple];
        lemma_offer_named(Op::ProvideType(name), group);
        assert(newtype_struct_ops(name, inner, opt) =~= seq![Op::ProvideType(name)] + group);
    } else {
        lemma_offer_named(Op::ProvideType(name), inner);
    }
}

proof fn lemma_entry_named(key: Seq<Op>, value: Seq<Op>, opt: Options)
    requires
        named_value(key),
        named_value(value),
    ensures
        named_fields(key_ops(key, opt) + value_ops(value, opt)),
{
    match opt.map_format {
        MapFormat::Infer => {
            let key_rest = key + seq![Op::EndKey];
            let value_rest = value + seq![Op::EndValue];
            assert(key_ops(key, opt) =~= seq![Op::BeginKey] + key_rest);
            assert(value_ops(value, opt) =~= seq![Op::BeginValue] + value_rest);
            lemma_named_last(key, Op::EndKey, true);
            lemma_named_first(Op::BeginKey, key_rest, false);
            lemma_named_last(value, Op::EndValue, true);
            lemma_named_first(Op::BeginValue, value_rest, false);
            lemma_named_fields_concat(key_ops(key, opt), value_ops(value, opt));
        },
        MapFormat::Tuple => {
            lemma_field_named(Op::BeginElement, Op::EndElement, key);
            lemma_field_named(Op::BeginElement, Op::EndElement, value);
            lemma_named_fields_concat(element_ops(key), element_ops(value));
            lemma_group_named(Op::BeginTuple, Op::EndTuple, element_ops(key) + element_ops(value));
            let group = seq![Op::BeginTuple] + (element_ops(key) + element_ops(value)) + seq![
                Op::EndTuple,
            ];
            lemma_field_named(Op::BeginElement, Op::EndElement, group);
            assert(key_ops(key, opt) + value_ops(value, opt) =~= seq![Op::BeginElement] + group
                + seq![Op::EndElement]);
        },
        MapFormat::Struct => {
            lemma_field_named(Op::BeginField("key"), Op::EndField, key);
            lemma_field_named(Op::BeginField("value"), Op::EndField, value);
            lemma_named_fields_concat(field_ops("key", key), field_ops("value", value));
        },
    }
}

proof fn lemma_elements_named(items: Seq<Value>, n: int, opt: Options)
    requires
        0 <= n <= items.len(),
    ensures
        named_fields(elements_ops(items, n, opt)),
    decreases items, n,
{
    if n > 0 {
        lemma_elements_named(items, n - 1, opt);
        lemma_values_are_named(items[n - 1], opt);
        lemma_field_named(Op::BeginElement, Op::EndElement, items[n - 1].ops(opt));
        lemma_named_fields_concat(
            elements_ops(items, n - 1, opt),
            element_ops(items[n - 1].ops(opt)),
        );
    }
}

proof fn lemma_fields_named(fields: Seq<(&'static str, Value)>, n: int, opt: Options)
    requires
        0 <= n <= fields.len(),
    ensures
        named_fields(fields_ops(fields, n, opt)),
    decreases fields, n,
{
    if n > 0 {
        let field = fields[n - 1];
        lemma_fields_named(fields, n - 1, opt);
        lemma_values_are_named(field.1, opt);
        lemma_field_named(Op::BeginField(field.0), Op::EndField, field.1.ops(opt));
        lemma_named_fields_concat(
            fields_ops(fields, n - 1, opt),
            field_ops(field.0, field.1.ops(opt)),
        );
    }
}

proof fn lemma_entries_named(entries: Seq<(Value, Value)>, n: int, opt: Options)
    requires
        0 <= n <= entries.len(),
    ensures
        named_fields(entries_ops(entries, n, opt)),
    decreases entries, n,
{
    if n > 0 {
        let entry = entries[n - 1];
        let key = key_ops(entry.0.ops(opt), opt);
        let value = value_ops(entry.1.ops(opt), opt);
        lemma_entries_named(entries, n - 1, opt);
        lemma_values_are_named(entry.0, opt);
        lemma_values_are_named(entry.1, opt);
        lemma_entry_named(entry.0.ops(opt), entry.1.ops(opt), opt);
        lemma_named_fields_concat(entries_ops(entries, n - 1, opt), key + value);
        assert(entries_ops(entries, n, opt) =~= entries_ops(entries, n - 1, opt) + (key + value));
    }
}

/// Every value and every group that encoding a value writes stands under
/// a field name, where a name waits for the value itself; and no name is
/// left waiting after it.
pub proof fn lemma_values_are_named(value: Value, opt: Options)
    ensures
        named_value(value.ops(opt)),
    decreases value, 0int,
{
    let ops = value.ops(opt);
    match value {
        Value::Absent => {
            lemma_unit_named(opt);
            if opt.option_as_enum {
                lemma_offer_named(Op::RequireType("None"), unit_ops(opt));
            } else {
                lemma_named_one(Op::Null, true);
            }
        },
        Value::Unit => {
            lemma_unit_named(opt);
        },
        Value::UnitStruct(name) => {
            lemma_unit_named(opt);
            lemma_offer_named(Op::ProvideType(name), unit_ops(opt));
        },
        Value::UnitVariant(_, _, variant) => {
            lemma_unit_named(opt);
            lemma_offer_named(Op::RequireType(variant), unit_ops(opt));
        },
        Value::Present(inner) => {
            lemma_values_are_named(*inner, opt);
            if opt.option_as_enum {
                lemma_newtype_struct_named("Option", inner.ops(opt), opt);
                lemma_offer_named(
                    Op::RequireType("Some"),
                    newtype_struct_ops("Option", inner.ops(opt), opt),
                );
            }
        },
        Value::NewtypeStruct(name, inner) => {
            lemma_values_are_named(*inner, opt);
            lemma_newtype_struct_named(name, inner.ops(opt), opt);
        },
        Value::NewtypeVariant(name, _, variant, inner) => {
            lemma_values_are_named(*inner, opt);
            lemma_newtype_struct_named(name, inner.ops(opt), opt);
            lemma_offer_named(
                Op::RequireType(variant),
                newtype_struct_ops(name, inner.ops(opt), opt),
            );
        },
        Value::Sequence(items) => {
            lemma_elements_named(items@, items@.len() as int, opt);
            lemma_group_named(
                Op::BeginTuple,
                Op::EndTuple,
                elements_ops(items@, items@.len() as int, opt),
            );
        },
        Value::Tuple(items) => {
            lemma_elements_named(items@, items@.len() as int, opt);
            lemma_group_named(
                Op::BeginTuple,
                Op::EndTuple,
                elements_ops(items@, items@.len() as int, opt),
            );
        },
        Value::TupleStruct(name, items) => {
            let body = elements_ops(items@, items@.len() as int, opt);
            let group = seq![Op::BeginTuple] + body + seq![Op::EndTuple];
            lemma_elements_named(items@, items@.len() as int, opt);
            lemma_group_named(Op::BeginTuple, Op::EndTuple, body);
            lemma_offer_named(Op::ProvideType(name), group);
            assert(ops =~= seq![Op::ProvideType(name)] + group);
        },
        Value::TupleVariant(_, _, variant, items) => {
            let body = elements_ops(items@, items@.len() as int, opt);
            let group = seq![Op::BeginTuple] + body + seq![Op::EndTuple];
            lemma_elements_named(items@, items@.len() as int, opt);
            lemma_group_named(Op::BeginTuple, Op::EndTuple, body);
            lemma_offer_named(Op::RequireType(variant), group);
            assert(ops =~= seq![Op::RequireType(variant)] + group);
        },
        Value::Struct(name, fields) => {
            let body = fields_ops(fields@, fields@.len() as int, opt);
            let group = seq![Op::BeginStruct] + body + seq![Op::EndStruct];
            lemma_fields_named(fields@, fields@.len() as int, opt);
            lemma_group_named(Op::BeginStruct, Op::EndStruct, body);
            lemma_offer_named(Op::ProvideType(name), group);
            assert(ops =~= seq![Op::ProvideType(name)] + group);
        },
        Value::StructVariant(name, _, variant, fields) => {
            let body = fields_ops(fields@, fields@.len() as int, opt);
            let group = seq![Op::BeginStruct] + body + seq![Op::EndStruct];
            let offered = seq![Op::ProvideType(name)] + group;
            lemma_fields_named(fields@, fields@.len() as int, opt);
            lemma_group_named(Op::BeginStruct, Op::EndStruct, body);
            lemma_offer_named(Op::ProvideType(name), group);
            lemma_offer_named(Op::RequireType(variant), offered);
            assert(ops =~= seq![Op::RequireType(variant)] + offered);
        },
        Value::Mapping(entries) => {
            let body = entries_ops(entries@, entries@.len() as int, opt);
            lemma_entries_named(entries@, entries@.len() as int, opt);
            match opt.map_format {
                MapFormat::Infer => lemma_group_named(Op::BeginMap, Op::EndMap, body),
                MapFormat::Tuple => lemma_group_named(Op::BeginTuple, Op::EndTuple, body),
                MapFormat::Struct => lemma_group_named(Op::BeginStruct, Op::EndStruct, body),
            }
        },
        _ => {
            lemma_named_one(ops[0], true);
            assert(ops =~= seq![ops[0]]);
        },
    }
}

/// The compact formatter has a field name waiting after `ops` exactly
/// where the operations leave one waiting.
pub proof fn lemma_compact_name_waits(fmt: SimpleFormatter, ops: Seq<Op>)
    ensures
        end_state(fmt, ops).field is Some == named_after(ops, fmt.field is Some),
    decreases ops.len(),
{
    if ops.len() > 0 {
        lemma_compact_name_waits(fmt, ops.drop_last());
    }
}

/// The human formatter has a field name waiting after `ops` exactly where
/// the operations leave one waiting.
pub proof fn lemma_human_name_waits(fmt: HumanFormatter, ops: Seq<Op>)
    ensures
        end_state(fmt, ops).field is Some == named_after(ops, fmt.field is Some),
    decreases ops.len(),
{
    if ops.len() > 0 {
        lemma_human_name_waits(fmt, ops.drop_last());
    }
}

} // verus!
