//! What encoding a value opens, it closes, innermost first.

use crate::format::Op;
use crate::protocol::{
    field_pair, frames_after, group_pair, lemma_frames_concat, lemma_frames_one, Frame,
};
use crate::value::{
    element_ops, elements_ops, entries_ops, field_ops, fields_ops, key_ops, newtype_struct_ops,
    unit_ops, value_ops, MapFormat, Options, Value,
};
use vstd::prelude::*;

verus! {

/// The operations leave open what was open before them, whatever that
/// was, and never close anything of it.
pub open spec fn paired(ops: Seq<Op>) -> bool {
    forall|stack: Seq<Frame>| #[trigger] frames_after(ops, stack) == Some(stack)
}

proof fn lemma_paired_concat(a: Seq<Op>, b: Seq<Op>)
    requires
        paired(a),
        paired(b),
    ensures
        paired(a + b),
{
    assert forall|stack: Seq<Frame>| #[trigger] frames_after(a + b, stack) == Some(stack) by {
        lemma_frames_concat(a, b, stack);
        assert(frames_after(a, stack) == Some(stack));
        assert(frames_after(b, stack) == Some(stack));
    }
}

proof fn lemma_paired_one(op: Op)
    requires
        forall|stack: Seq<Frame>| #[trigger] op.frames(stack) == Some(stack),
    ensures
        paired(seq![op]),
{
    assert forall|stack: Seq<Frame>| #[trigger] frames_after(seq![op], stack) == Some(stack) by {
        lemma_frames_one(op, stack);
        assert(op.frames(stack) == Some(stack));
    }
}

proof fn lemma_paired_around(open: Op, body: Seq<Op>, close: Op, frame: Frame)
    requires
        paired(body),
        forall|stack: Seq<Frame>| #[trigger] open.frames(stack) == Some(stack.push(frame)),
        forall|stack: Seq<Frame>| #[trigger] close.frames(stack.push(frame)) == Some(stack),
    ensures
        paired(seq![open] + body + seq![close]),
{
    let ops = seq![open] + body + seq![close];
    assert forall|stack: Seq<Frame>| #[trigger] frames_after(ops, stack) == Some(stack) by {
        let inside = stack.push(frame);
        lemma_frames_one(open, stack);
        lemma_frames_one(close, inside);
        lemma_frames_concat(seq![open], body, stack);
        lemma_frames_concat(seq![open] + body, seq![close], stack);
        assert(open.frames(stack) == Some(inside));
        assert(frames_after(body, inside) == Some(inside));
        assert(close.frames(inside) == Some(stack));
    }
}

proof fn lemma_group_paired(open: Op, close: Op, body: Seq<Op>)
    requires
        group_pair(open, close) || field_pair(open, close),
        paired(body),
    ensures
        paired(seq![open] + body + seq![close]),
{
    let frame = open.frame();
    assert forall|stack: Seq<Frame>| #[trigger] close.frames(stack.push(frame)) == Some(stack) by {
        assert(stack.push(frame).drop_last() =~= stack);
    }
    lemma_paired_around(open, body, close, frame);
}

proof fn lemma_unit_paired(opt: Options)
    ensures
        paired(unit_ops(opt)),
{
    if opt.unit_as_tuple {
        assert(paired(Seq::<Op>::empty()));
        lemma_group_paired(Op::BeginTuple, Op::EndTuple, Seq::empty());
        assert(seq![Op::BeginTuple] + Seq::<Op>::empty() + seq![Op::EndTuple] =~= unit_ops(opt));
    } else {
        lemma_paired_one(Op::Null);
    }
}

proof fn lemma_newtype_struct_paired(name: &'static str, inner: Seq<Op>, opt: Options)
    requires
        paired(inner),
    ensures
        paired(newtype_struct_ops(name, inner, opt)),
{
    lemma_paired_one(Op::ProvideType(name));
    if opt.newtype_as_tuple {
        lemma_group_paired(Op::BeginElement, Op::EndElement, inner);
        lemma_group_paired(Op::BeginTuple, Op::EndTuple, element_ops(inner));
        let group = seq![Op::BeginTuple] + element_ops(inner) + seq![Op::EndTuple];
        lemma_paired_concat(seq![Op::ProvideType(name)], group);
        assert(newtype_struct_ops(name, inner, opt) =~= seq![Op::ProvideType(name)] + group);
    } else {
        lemma_paired_concat(seq![Op::ProvideType(name)], inner);
    }
}

proof fn lemma_entry_paired(key: Seq<Op>, value: Seq<Op>, opt: Options)
    requires
        paired(key),
        paired(value),
    ensures
        paired(key_ops(key, opt) + value_ops(value, opt)),
{
    match opt.map_format {
        MapFormat::Infer => {
            let ops = key_ops(key, opt) + value_ops(value, opt);
            assert forall|stack: Seq<Frame>| #[trigger] frames_after(ops, stack) == Some(stack) by {
                let entry = stack.push(Frame::Entry);
                let in_key = entry.push(Frame::Key);
                let in_value = entry.push(Frame::EntryValue);
                let a = seq![Op::BeginKey];
                let b = a + key;
                let c = b + seq![Op::EndKey];
                let d = c + seq![Op::BeginValue];
                let e = d + value;
                assert(ops =~= e + seq![Op::EndValue]);
                lemma_frames_one(Op::BeginKey, stack);
                lemma_frames_concat(a, key, stack);
                assert(frames_after(key, in_key) == Some(in_key));
                lemma_frames_one(Op::EndKey, in_key);
                lemma_frames_concat(b, seq![Op::EndKey], stack);
                assert(in_key.drop_last() =~= entry);
                lemma_frames_one(Op::BeginValue, entry);
                lemma_frames_concat(c, seq![Op::BeginValue], stack);
                lemma_frames_concat(d, value, stack);
                assert(frames_after(value, in_value) == Some(in_value));
                lemma_frames_one(Op::EndValue, in_value);
                lemma_frames_concat(e, seq![Op::EndValue], stack);
                assert(in_value.drop_last() =~= entry);
                assert(entry.drop_last() =~= stack);
            }
        },
        MapFormat::Tuple => {
            lemma_group_paired(Op::BeginElement, Op::EndElement, key);
            lemma_group_paired(Op::BeginElement, Op::EndElement, value);
            lemma_paired_concat(element_ops(key), element_ops(value));
            lemma_group_paired(
                Op::BeginTuple,
                Op::EndTuple,
                element_ops(key) + element_ops(value),
            );
            let group = seq![Op::BeginTuple] + (element_ops(key) + element_ops(value)) + seq![
                Op::EndTuple,
            ];
            lemma_group_paired(Op::BeginElement, Op::EndElement, group);
            assert(key_ops(key, opt) + value_ops(value, opt) =~= seq![Op::BeginElement] + group
                + seq![Op::EndElement]);
        },
        MapFormat::Struct => {
            lemma_group_paired(Op::BeginField("key"), Op::EndField, key);
            lemma_group_paired(Op::BeginField("value"), Op::EndField, value);
            lemma_paired_concat(field_ops("key", key), field_ops("value", value));
        },
    }
}

proof fn lemma_elements_paired(items: Seq<Value>, n: int, opt: Options)
    requires
        0 <= n <= items.len(),
    ensures
        paired(elements_ops(items, n, opt)),
    decreases items, n,
{
    if n > 0 {
        lemma_elements_paired(items, n - 1, opt);
        lemma_groups_are_paired(items[n - 1], opt);
        lemma_group_paired(Op::BeginElement, Op::EndElement, items[n - 1].ops(opt));
        lemma_paired_concat(elements_ops(items, n - 1, opt), element_ops(items[n - 1].ops(opt)));
    } else {
        assert(paired(Seq::<Op>::empty()));
    }
}

proof fn lemma_fields_paired(fields: Seq<(&'static str, Value)>, n: int, opt: Options)
    requires
        0 <= n <= fields.len(),
    ensures
        paired(fields_ops(fields, n, opt)),
    decreases fields, n,
{
    if n > 0 {
        let field = fields[n - 1];
        lemma_fields_paired(fields, n - 1, opt);
        lemma_groups_are_paired(field.1, opt);
        lemma_group_paired(Op::BeginField(field.0), Op::EndField, field.1.ops(opt));
        lemma_paired_concat(fields_ops(fields, n - 1, opt), field_ops(field.0, field.1.ops(opt)));
    } else {
        assert(paired(Seq::<Op>::empty()));
    }
}

proof fn lemma_entries_paired(entries: Seq<(Value, Value)>, n: int, opt: Options)
    requires
        0 <= n <= entries.len(),
    ensures
        paired(entries_ops(entries, n, opt)),
    decreases entries, n,
{
    if n > 0 {
        let entry = entries[n - 1];
        let key = key_ops(entry.0.ops(opt), opt);
        let value = value_ops(entry.1.ops(opt), opt);
        lemma_entries_paired(entries, n - 1, opt);
        lemma_groups_are_paired(entry.0, opt);
        lemma_groups_are_paired(entry.1, opt);
        lemma_entry_paired(entry.0.ops(opt), entry.1.ops(opt), opt);
        lemma_paired_concat(entries_ops(entries, n - 1, opt), key + value);
        assert(entries_ops(entries, n, opt) =~= entries_ops(entries, n - 1, opt) + (key + value));
    } else {
        assert(paired(Seq::<Op>::empty()));
    }
}

/// Every group, field, map and entry that encoding a value opens, it also
/// closes, innermost first: after the operations of a value exactly that is
/// open which was open before them.
pub proof fn lemma_groups_are_paired(value: Value, opt: Options)
    ensures
        paired(value.ops(opt)),
    decreases value, 0int,
{
    let ops = value.ops(opt);
    match value {
        Value::Absent => {
            lemma_unit_paired(opt);
            if opt.option_as_enum {
                lemma_paired_one(Op::RequireType("None"));
                lemma_paired_concat(seq![Op::RequireType("None")], unit_ops(opt));
            } else {
                lemma_paired_one(Op::Null);
            }
        },
        Value::Unit => {
            lemma_unit_paired(opt);
        },
        Value::UnitStruct(name) => {
            lemma_unit_paired(opt);
            lemma_paired_one(Op::ProvideType(name));
            lemma_paired_concat(seq![Op::ProvideType(name)], unit_ops(opt));
        },
        Value::UnitVariant(_, _, variant) => {
            lemma_unit_paired(opt);
            lemma_paired_one(Op::RequireType(variant));
            lemma_paired_concat(seq![Op::RequireType(variant)], unit_ops(opt));
        },
        Value::Present(inner) => {
            lemma_groups_are_paired(*inner, opt);
            if opt.option_as_enum {
                lemma_newtype_struct_paired("Option", inner.ops(opt), opt);
                lemma_paired_one(Op::RequireType("Some"));
                lemma_paired_concat(
                    seq![Op::RequireType("Some")],
                    newtype_struct_ops("Option", inner.ops(opt), opt),
                );
            }
        },
        Value::NewtypeStruct(name, inner) => {
            lemma_groups_are_paired(*inner, opt);
            lemma_newtype_struct_paired(name, inner.ops(opt), opt);
        },
        Value::NewtypeVariant(name, _, variant, inner) => {
            lemma_groups_are_paired(*inner, opt);
            lemma_newtype_struct_paired(name, inner.ops(opt), opt);
            lemma_paired_one(Op::RequireType(variant));
            lemma_paired_concat(
                seq![Op::RequireType(variant)],
                newtype_struct_ops(name, inner.ops(opt), opt),
            );
        },
        Value::Sequence(items) => {
            lemma_elements_paired(items@, items@.len() as int, opt);
            lemma_group_paired(
                Op::BeginTuple,
                Op::EndTuple,
                elements_ops(items@, items@.len() as int, opt),
            );
        },
        Value::Tuple(items) => {
            lemma_elements_paired(items@, items@.len() as int, opt);
            lemma_group_paired(
                Op::BeginTuple,
                Op::EndTuple,
                elements_ops(items@, items@.len() as int, opt),
            );
        },
        Value::TupleStruct(name, items) => {
            let body = elements_ops(items@, items@.len() as int, opt);
            let group = seq![Op::BeginTuple] + body + seq![Op::EndTuple];
            lemma_elements_paired(items@, items@.len() as int, opt);
            lemma_group_paired(Op::BeginTuple, Op::EndTuple, body);
            lemma_paired_one(Op::ProvideType(name));
            lemma_paired_concat(seq![Op::ProvideType(name)], group);
            assert(ops =~= seq![Op::ProvideType(name)] + group);
        },
        Value::TupleVariant(_, _, variant, items) => {
            let body = elements_ops(items@, items@.len() as int, opt);
            let group = seq![Op::BeginTuple] + body + seq![Op::EndTuple];
            lemma_elements_paired(items@, items@.len() as int, opt);
            lemma_group_paired(Op::BeginTuple, Op::EndTuple, body);
            lemma_paired_one(Op::RequireType(variant));
            lemma_paired_concat(seq![Op::RequireType(variant)], group);
            assert(ops =~= seq![Op::RequireType(variant)] + group);
        },
        Value::Struct(name, fields) => {
            let body = fields_ops(fields@, fields@.len() as int, opt);
            let group = seq![Op::BeginStruct] + body + seq![Op::EndStruct];
            lemma_fields_paired(fields@, fields@.len() as int, opt);
            lemma_group_paired(Op::BeginStruct, Op::EndStruct, body);
            lemma_paired_one(Op::ProvideType(name));
            lemma_paired_concat(seq![Op::ProvideType(name)], group);
            assert(ops =~= seq![Op::ProvideType(name)] + group);
        },
        Value::StructVariant(name, _, variant, fields) => {
            let body = fields_ops(fields@, fields@.len() as int, opt);
            let group = seq![Op::BeginStruct] + body + seq![Op::EndStruct];
            let offered = seq![Op::ProvideType(name)] + group;
            lemma_fields_paired(fields@, fields@.len() as int, opt);
            lemma_group_paired(Op::BeginStruct, Op::EndStruct, body);
            lemma_paired_one(Op::ProvideType(name));
            lemma_paired_concat(seq![Op::ProvideType(name)], group);
            lemma_paired_one(Op::RequireType(variant));
            lemma_paired_concat(seq![Op::RequireType(variant)], offered);
            assert(ops =~= seq![Op::RequireType(variant)] + offered);
        },
        Value::Mapping(entries) => {
            let body = entries_ops(entries@, entries@.len() as int, opt);
            lemma_entries_paired(entries@, entries@.len() as int, opt);
            match opt.map_format {
                MapFormat::Infer => lemma_group_paired(Op::BeginMap, Op::EndMap, body),
                MapFormat::Tuple => lemma_group_paired(Op::BeginTuple, Op::EndTuple, body),
                MapFormat::Struct => lemma_group_paired(Op::BeginStruct, Op::EndStruct, body),
            }
        },
        _ => {
            lemma_paired_one(ops[0]);
            assert(ops =~= seq![ops[0]]);
        },
    }
}

} // verus!
