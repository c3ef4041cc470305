//! Mandatory type annotations: a value can be encoded exactly where its
//! operations set them one at a time, and the name of a variant is always
//! written.

use crate::compact::SimpleFormatter;
use crate::format::{end_state, lemma_rendering_concat, lemma_rendering_one, rendering, Format, Op};
use crate::human::line_start;
use crate::protocol::{
    all_allowed, field_pair, group_pair, lemma_allowed_concat, lemma_allowed_one, waiting_after,
};
use crate::ser::{compact_text, human_start, human_text};
use crate::text::annotation_text;
use crate::value::{
    element_ops, elements_encodable, elements_ops, entries_encodable, entries_ops, field_ops,
    fields_encodable, fields_ops, key_ops, newtype_struct_ops, unit_ops, value_ops, MapFormat,
    Options, Value,
};
use vstd::prelude::*;

verus! {

/// How operations treat mandatory type annotations: all of them may be
/// asked exactly where `sound` holds and, if `annotates` holds, no
/// annotation waits before them; and none waits after them.
pub open spec fn behaves(ops: Seq<Op>, sound: bool, annotates: bool) -> bool {
    &&& all_allowed(ops, false) == sound
    &&& all_allowed(ops, true) == (sound && !annotates)
    &&& !waiting_after(ops, false)
    &&& !waiting_after(ops, true)
}

proof fn lemma_first_op(first: Op, rest: Seq<Op>, waiting: bool)
    ensures
        waiting_after(seq![first] + rest, waiting) == waiting_after(rest, first.annotates(waiting)),
        all_allowed(seq![first] + rest, waiting) == (first.allowed(waiting) && all_allowed(
            rest,
            first.annotates(waiting),
        )),
{
    lemma_allowed_one(first, waiting);
    lemma_allowed_concat(seq![first], rest, waiting);
}

proof fn lemma_last_op(body: Seq<Op>, last: Op, waiting: bool)
    ensures
        waiting_after(body + seq![last], waiting) == last.annotates(waiting_after(body, waiting)),
        all_allowed(body + seq![last], waiting) == (all_allowed(body, waiting) && last.allowed(
            waiting_after(body, waiting),
        )),
{
    lemma_allowed_one(last, waiting_after(body, waiting));
    lemma_allowed_concat(body, seq![last], waiting);
}

proof fn lemma_offer_behaves(name: &'static str, inner: Seq<Op>, sound: bool, annotates: bool)
    requires
        behaves(inner, sound, annotates),
    ensures
        behaves(seq![Op::ProvideType(name)] + inner, sound, annotates),
{
    lemma_first_op(Op::ProvideType(name), inner, false);
    lemma_first_op(Op::ProvideType(name), inner, true);
}

proof fn lemma_annotation_behaves(
    name: &'static str,
    inner: Seq<Op>,
    sound: bool,
    annotates: bool,
)
    requires
        behaves(inner, sound, annotates),
    ensures
        behaves(seq![Op::RequireType(name)] + inner, sound && !annotates, true),
{
    lemma_first_op(Op::RequireType(name), inner, false);
    lemma_first_op(Op::RequireType(name), inner, true);
}

proof fn lemma_group_behaves(open: Op, close: Op, body: Seq<Op>, sound: bool)
    requires
        group_pair(open, close),
        all_allowed(body, false) == sound,
        !waiting_after(body, false),
    ensures
        behaves(seq![open] + body + seq![close], sound, false),
{
    let rest = body + seq![close];
    assert(seq![open] + body + seq![close] =~= seq![open] + rest);
    lemma_last_op(body, close, false);
    lemma_first_op(open, rest, false);
    lemma_first_op(open, rest, true);
}

proof fn lemma_unit_behaves(opt: Options)
    ensures
        behaves(unit_ops(opt), true, false),
{
    if opt.unit_as_tuple {
        lemma_group_behaves(Op::BeginTuple, Op::EndTuple, Seq::empty(), true);
        assert(seq![Op::BeginTuple] + Seq::<Op>::empty() + seq![Op::EndTuple] =~= unit_ops(opt));
    } else {
        lemma_allowed_one(Op::Null, false);
        lemma_allowed_one(Op::Null, true);
    }
}

proof fn lemma_field_behaves(open: Op, close: Op, inner: Seq<Op>, sound: bool, annotates: bool)
    requires
        field_pair(open, close),
        behaves(inner, sound, annotates),
    ensures
        all_allowed(seq![open] + inner + seq![close], false) == sound,
        !waiting_after(seq![open] + inner + seq![close], false),
{
    let rest = inner + seq![close];
    assert(seq![open] + inner + seq![close] =~= seq![open] + rest);
    lemma_last_op(inner, close, false);
    lemma_first_op(open, rest, false);
}

proof fn lemma_newtype_struct_behaves(
    name: &'static str,
    inner: Seq<Op>,
    sound: bool,
    annotates: bool,
    opt: Options,
)
    requires
        behaves(inner, sound, annotates),
    ensures
        behaves(
            newtype_struct_ops(name, inner, opt),
            sound,
            !opt.newtype_as_tuple && annotates,
        ),
{
    if opt.newtype_as_tuple {
        lemma_field_behaves(Op::BeginElement, Op::EndElement, inner, sound, annotates);
        lemma_group_behaves(Op::BeginTuple, Op::EndTuple, element_ops(inner), sound);
        let group = seq![Op::BeginTuple] + element_ops(inner) + seq![Op::EndTuple];
        lemma_offer_behaves(name, group, sound, false);
        assert(newtype_struct_ops(name, inner, opt) =~= seq![Op::ProvideType(name)] + group);
    } else {
        lemma_offer_behaves(name, inner, sound, annotates);
    }
}

proof fn lemma_key_behaves(inner: Seq<Op>, sound: bool, annotates: bool, opt: Options)
    requires
        behaves(inner, sound, annotates),
    ensures
        all_allowed(key_ops(inner, opt), false) == sound,
        !waiting_after(key_ops(inner, opt), false),
{
    match opt.map_format {
        MapFormat::Infer => {
            let rest = inner + seq![Op::EndKey];
            assert(key_ops(inner, opt) =~= seq![Op::BeginKey] + rest);
            lemma_last_op(inner, Op::EndKey, false);
            lemma_first_op(Op::BeginKey, rest, false);
        },
        MapFormat::Tuple => {
            lemma_field_behaves(Op::BeginElement, Op::EndElement, inner, sound, annotates);
            let rest = seq![Op::BeginTuple] + element_ops(inner);
            assert(key_ops(inner, opt) =~= seq![Op::BeginElement] + rest);
            lemma_first_op(Op::BeginTuple, element_ops(inner), false);
            lemma_first_op(Op::BeginElement, rest, false);
        },
        MapFormat::Struct => {
            lemma_field_behaves(Op::BeginField("key"), Op::EndField, inner, sound, annotates);
        },
    }
}

proof fn lemma_value_behaves(inner: Seq<Op>, sound: bool, annotates: bool, opt: Options)
    requires
        behaves(inner, sound, annotates),
    ensures
        all_allowed(value_ops(inner, opt), false) == sound,
        !waiting_after(value_ops(inner, opt), false),
{
    match opt.map_format {
        MapFormat::Infer => {
            let rest = inner + seq![Op::EndValue];
            assert(value_ops(inner, opt) =~= seq![Op::BeginValue] + rest);
            lemma_last_op(inner, Op::EndValue, false);
            lemma_first_op(Op::BeginValue, rest, false);
        },
        MapFormat::Tuple => {
            lemma_field_behaves(Op::BeginElement, Op::EndElement, inner, sound, annotates);
            let closed = element_ops(inner) + seq![Op::EndTuple];
            assert(value_ops(inner, opt) =~= closed + seq![Op::EndElement]);
            lemma_last_op(element_ops(inner), Op::EndTuple, false);
            lemma_last_op(closed, Op::EndElement, false);
        },
        MapFormat::Struct => {
            lemma_field_behaves(Op::BeginField("value"), Op::EndField, inner, sound, annotates);
        },
    }
}

proof fn lemma_elements_behave(items: Seq<Value>, n: int, opt: Options)
    requires
        0 <= n <= items.len(),
    ensures
        all_allowed(elements_ops(items, n, opt), false) == elements_encodable(
            items.take(n),
            opt,
        ),
        !waiting_after(elements_ops(items, n, opt), false),
    decreases items, n,
{
    if n > 0 {
        let item = items[n - 1];
        let inner = item.ops(opt);
        lemma_elements_behave(items, n - 1, opt);
        lemma_annotations_behave(item, opt);
        lemma_field_behaves(
            Op::BeginElement,
            Op::EndElement,
            inner,
            item.encodable(opt),
            item.starts_annotated(opt),
        );
        lemma_allowed_concat(elements_ops(items, n - 1, opt), element_ops(inner), false);
        if elements_encodable(items.take(n), opt) {
            assert(items.take(n)[n - 1].encodable(opt));
            assert forall|i: int| 0 <= i < n - 1 implies (#[trigger] items.take(
                n - 1,
            )[i]).encodable(opt) by {
                assert(items.take(n)[i].encodable(opt));
            }
        }
        if elements_encodable(items.take(n - 1), opt) && item.encodable(opt) {
            assert forall|i: int| 0 <= i < n implies (#[trigger] items.take(n)[i]).encodable(
                opt,
            ) by {
                if i < n - 1 {
                    assert(items.take(n - 1)[i].encodable(opt));
                }
            }
        }
    }
}

proof fn lemma_fields_behave(fields: Seq<(&'static str, Value)>, n: int, opt: Options)
    requires
        0 <= n <= fields.len(),
    ensures
        all_allowed(fields_ops(fields, n, opt), false) == fields_encodable(fields.take(n), opt),
        !waiting_after(fields_ops(fields, n, opt), false),
    decreases fields, n,
{
    if n > 0 {
        let field = fields[n - 1];
        let inner = field.1.ops(opt);
        lemma_fields_behave(fields, n - 1, opt);
        lemma_annotations_behave(field.1, opt);
        lemma_field_behaves(
            Op::BeginField(field.0),
            Op::EndField,
            inner,
            field.1.encodable(opt),
            field.1.starts_annotated(opt),
        );
        lemma_allowed_concat(fields_ops(fields, n - 1, opt), field_ops(field.0, inner), false);
        if fields_encodable(fields.take(n), opt) {
            assert(fields.take(n)[n - 1].1.encodable(opt));
            assert forall|i: int| 0 <= i < n - 1 implies (#[trigger] fields.take(
                n - 1,
            )[i]).1.encodable(opt) by {
                assert(fields.take(n)[i].1.encodable(opt));
            }
        }
        if fields_encodable(fields.take(n - 1), opt) && field.1.encodable(opt) {
            assert forall|i: int| 0 <= i < n implies (#[trigger] fields.take(n)[i]).1.encodable(
                opt,
            ) by {
                if i < n - 1 {
                    assert(fields.take(n - 1)[i].1.encodable(opt));
                }
            }
        }
    }
}

proof fn lemma_entries_behave(entries: Seq<(Value, Value)>, n: int, opt: Options)
    requires
        0 <= n <= entries.len(),
    ensures
        all_allowed(entries_ops(entries, n, opt), false) == entries_encodable(
            entries.take(n),
            opt,
        ),
        !waiting_after(entries_ops(entries, n, opt), false),
    decreases entries, n,
{
    if n > 0 {
        let entry = entries[n - 1];
        let key = key_ops(entry.0.ops(opt), opt);
        let value = value_ops(entry.1.ops(opt), opt);
        let before = entries_ops(entries, n - 1, opt);
        lemma_entries_behave(entries, n - 1, opt);
        lemma_annotations_behave(entry.0, opt);
        lemma_annotations_behave(entry.1, opt);
        lemma_key_behaves(
            entry.0.ops(opt),
            entry.0.encodable(opt),
            entry.0.starts_annotated(opt),
            opt,
        );
        lemma_value_behaves(
            entry.1.ops(opt),
            entry.1.encodable(opt),
            entry.1.starts_annotated(opt),
            opt,
        );
        lemma_allowed_concat(before, key, false);
        lemma_allowed_concat(before + key, value, false);
        let sound = entry.0.encodable(opt) && entry.1.encodable(opt);
        if entries_encodable(entries.take(n), opt) {
            assert(entries.take(n)[n - 1].0.encodable(opt));
            assert forall|i: int| 0 <= i < n - 1 implies (#[trigger] entries.take(
                n - 1,
            )[i]).0.encodable(opt) && entries.take(n - 1)[i].1.encodable(opt) by {
                assert(entries.take(n)[i].0.encodable(opt));
            }
        }
        if entries_encodable(entries.take(n - 1), opt) && sound {
            assert forall|i: int| 0 <= i < n implies (#[trigger] entries.take(n)[i]).0.encodable(
                opt,
            ) && entries.take(n)[i].1.encodable(opt) by {
                if i < n - 1 {
                    assert(entries.take(n - 1)[i].0.encodable(opt));
                }
            }
        }
    }
}

/// What `encodable` asks of a value is what the formatters ask of the
/// session: all operations of the value may be asked in their turn exactly
/// where the value can be encoded and, if it begins by setting a mandatory
/// type annotation, none waits already. After the operations of a value no
/// annotation waits.
pub proof fn lemma_annotations_behave(value: Value, opt: Options)
    ensures
        behaves(value.ops(opt), value.encodable(opt), value.starts_annotated(opt)),
    decreases value, 0int,
{
    let ops = value.ops(opt);
    match value {
        Value::Absent => {
            lemma_unit_behaves(opt);
            if opt.option_as_enum {
                lemma_annotation_behaves("None", unit_ops(opt), true, false);
            } else {
                lemma_allowed_one(Op::Null, false);
                lemma_allowed_one(Op::Null, true);
            }
        },
        Value::Unit => {
            lemma_unit_behaves(opt);
        },
        Value::UnitStruct(name) => {
            lemma_unit_behaves(opt);
            lemma_offer_behaves(name, unit_ops(opt), true, false);
        },
        Value::UnitVariant(_, _, variant) => {
            lemma_unit_behaves(opt);
            lemma_annotation_behaves(variant, unit_ops(opt), true, false);
        },
        Value::Present(inner) => {
            let sound = inner.encodable(opt);
            let annotates = inner.starts_annotated(opt);
            lemma_annotations_behave(*inner, opt);
            if opt.option_as_enum {
                lemma_newtype_struct_behaves("Option", inner.ops(opt), sound, annotates, opt);
                lemma_annotation_behaves(
                    "Some",
                    newtype_struct_ops("Option", inner.ops(opt), opt),
                    sound,
                    !opt.newtype_as_tuple && annotates,
                );
            }
        },
        Value::NewtypeStruct(name, inner) => {
            lemma_annotations_behave(*inner, opt);
            lemma_newtype_struct_behaves(
                name,
                inner.ops(opt),
                inner.encodable(opt),
                inner.starts_annotated(opt),
                opt,
            );
        },
        Value::NewtypeVariant(name, _, variant, inner) => {
            let sound = inner.encodable(opt);
            let annotates = inner.starts_annotated(opt);
            lemma_annotations_behave(*inner, opt);
            lemma_newtype_struct_behaves(name, inner.ops(opt), sound, annotates, opt);
            lemma_annotation_behaves(
                variant,
                newtype_struct_ops(name, inner.ops(opt), opt),
                sound,
                !opt.newtype_as_tuple && annotates,
            );
        },
        Value::Sequence(items) => {
            lemma_elements_behave(items@, items@.len() as int, opt);
            assert(items@.take(items@.len() as int) =~= items@);
            lemma_group_behaves(
                Op::BeginTuple,
                Op::EndTuple,
                elements_ops(items@, items@.len() as int, opt),
                elements_encodable(items@, opt),
            );
        },
        Value::Tuple(items) => {
            lemma_elements_behave(items@, items@.len() as int, opt);
            assert(items@.take(items@.len() as int) =~= items@);
            lemma_group_behaves(
                Op::BeginTuple,
                Op::EndTuple,
                elements_ops(items@, items@.len() as int, opt),
                elements_encodable(items@, opt),
            );
        },
        Value::TupleStruct(name, items) => {
            let body = elements_ops(items@, items@.len() as int, opt);
            let group = seq![Op::BeginTuple] + body + seq![Op::EndTuple];
            lemma_elements_behave(items@, items@.len() as int, opt);
            assert(items@.take(items@.len() as int) =~= items@);
            lemma_group_behaves(
                Op::BeginTuple,
                Op::EndTuple,
                body,
                elements_encodable(items@, opt),
            );
            lemma_offer_behaves(name, group, elements_encodable(items@, opt), false);
            assert(ops =~= seq![Op::ProvideType(name)] + group);
        },
        Value::TupleVariant(_, _, variant, items) => {
            let body = elements_ops(items@, items@.len() as int, opt);
            let group = seq![Op::BeginTuple] + body + seq![Op::EndTuple];
            lemma_elements_behave(items@, items@.len() as int, opt);
            assert(items@.take(items@.len() as int) =~= items@);
            lemma_group_behaves(
                Op::BeginTuple,
                Op::EndTuple,
                body,
                elements_encodable(items@, opt),
            );
            lemma_annotation_behaves(variant, group, elements_encodable(items@, opt), false);
            assert(ops =~= seq![Op::RequireType(variant)] + group);
        },
        Value::Struct(name, fields) => {
            let body = fields_ops(fields@, fields@.len() as int, opt);
            let group = seq![Op::BeginStruct] + body + seq![Op::EndStruct];
            lemma_fields_behave(fields@, fields@.len() as int, opt);
            assert(fields@.take(fields@.len() as int) =~= fields@);
            lemma_group_behaves(
                Op::BeginStruct,
                Op::EndStruct,
                body,
                fields_encodable(fields@, opt),
            );
            lemma_offer_behaves(name, group, fields_encodable(fields@, opt), false);
            assert(ops =~= seq![Op::ProvideType(name)] + group);
        },
        Value::StructVariant(name, _, variant, fields) => {
            let body = fields_ops(fields@, fields@.len() as int, opt);
            let group = seq![Op::BeginStruct] + body + seq![Op::EndStruct];
            let offered = seq![Op::ProvideType(name)] + group;
            lemma_fields_behave(fields@, fields@.len() as int, opt);
            assert(fields@.take(fields@.len() as int) =~= fields@);
            lemma_group_behaves(
                Op::BeginStruct,
                Op::EndStruct,
                body,
                fields_encodable(fields@, opt),
            );
            lemma_offer_behaves(name, group, fields_encodable(fields@, opt), false);
            lemma_annotation_behaves(variant, offered, fields_encodable(fields@, opt), false);
            assert(ops =~= seq![Op::RequireType(variant)] + offered);
        },
        Value::Mapping(entries) => {
            let body = entries_ops(entries@, entries@.len() as int, opt);
            let sound = entries_encodable(entries@, opt);
            lemma_entries_behave(entries@, entries@.len() as int, opt);
            assert(entries@.take(entries@.len() as int) =~= entries@);
            match opt.map_format {
                MapFormat::Infer => lemma_group_behaves(Op::BeginMap, Op::EndMap, body, sound),
                MapFormat::Tuple => lemma_group_behaves(Op::BeginTuple, Op::EndTuple, body, sound),
                MapFormat::Struct => lemma_group_behaves(
                    Op::BeginStruct,
                    Op::EndStruct,
                    body,
                    sound,
                ),
            }
        },
        Value::Bool(v) => {
            lemma_allowed_one(Op::Bool(v), false);
            lemma_allowed_one(Op::Bool(v), true);
        },
        Value::Float(v) => {
            lemma_allowed_one(Op::Float(v@), false);
            lemma_allowed_one(Op::Float(v@), true);
        },
        Value::Char(v) => {
            lemma_allowed_one(Op::Str(seq![v]), false);
            lemma_allowed_one(Op::Str(seq![v]), true);
        },
        Value::Str(v) => {
            lemma_allowed_one(Op::Str(v@), false);
            lemma_allowed_one(Op::Str(v@), true);
        },
        Value::Bytes(v) => {
            lemma_allowed_one(Op::Bytes(v@), false);
            lemma_allowed_one(Op::Bytes(v@), true);
        },
        _ => {
            lemma_allowed_one(ops[0], false);
            lemma_allowed_one(ops[0], true);
            assert(ops =~= seq![ops[0]]);
        },
    }
}

/// Encoding a variant begins by setting its name as the mandatory type
/// annotation, under every policy.
pub proof fn lemma_variant_sets_annotation(value: Value, opt: Options)
    requires
        value.is_variant(),
    ensures
        value.ops(opt).len() > 0,
        value.ops(opt)[0] == Op::RequireType(value.variant()),
{
}

/// The operations begin by writing a value or opening a group: before the
/// first operation that does so, type names are offered and nothing else is
/// asked.
pub open spec fn begins_with_value(ops: Seq<Op>) -> bool {
    exists|k: int| leads_to_value(ops, k)
}

/// The operation at `k` writes a value or opens a group, and those before
/// it only offer type names.
pub open spec fn leads_to_value(ops: Seq<Op>, k: int) -> bool {
    &&& 0 <= k < ops.len()
    &&& ops[k].is_value()
    &&& forall|j: int| 0 <= j < k ==> ops[j] is ProvideType
}

/// Encoding a value that sets no mandatory type annotation of its own
/// begins by writing a value or opening a group.
pub proof fn lemma_value_begins_with_value(value: Value, opt: Options)
    requires
        !value.starts_annotated(opt),
    ensures
        begins_with_value(value.ops(opt)),
    decreases value,
{
    let ops = value.ops(opt);
    match value {
        Value::Present(inner) => {
            lemma_value_begins_with_value(*inner, opt);
        },
        Value::NewtypeStruct(name, inner) => {
            if opt.newtype_as_tuple {
                assert(leads_to_value(ops, 1));
            } else {
                lemma_value_begins_with_value(*inner, opt);
                let k = choose|k: int| leads_to_value(inner.ops(opt), k);
                assert(leads_to_value(ops, k + 1));
            }
        },
        Value::UnitStruct(_) | Value::TupleStruct(..) | Value::Struct(..) => {
            assert(leads_to_value(ops, 1));
        },
        _ => {
            assert(leads_to_value(ops, 0));
        },
    }
}

/// `mark` stands at the front of whatever the formatter writes next for a
/// value or the start of a group, and offering a type name changes nothing.
pub open spec fn shows<F: Format>(fmt: F, mark: Seq<char>) -> bool {
    &&& forall|op: Op| op.is_value() ==> mark.is_prefix_of(#[trigger] fmt.text(op))
    &&& forall|op: Op| op is ProvideType ==> #[trigger] fmt.next(op) == fmt
    &&& forall|op: Op| op is ProvideType ==> #[trigger] fmt.text(op) == Seq::<char>::empty()
}

/// Where a formatter shows `mark`, the text of operations that begin with
/// a value begins with `mark`.
pub proof fn lemma_mark_is_written<F: Format>(fmt: F, ops: Seq<Op>, mark: Seq<char>)
    requires
        shows(fmt, mark),
        begins_with_value(ops),
    ensures
        mark.is_prefix_of(rendering(fmt, ops)),
{
    let k = choose|k: int| leads_to_value(ops, k);
    lemma_offers_write_nothing(fmt, ops.take(k));
    let head = ops.take(k) + seq![ops[k]];
    let rest = ops.skip(k + 1);
    assert(ops =~= head + rest);
    lemma_rendering_concat(fmt, head, rest);
    lemma_rendering_concat(fmt, ops.take(k), seq![ops[k]]);
    lemma_rendering_one(fmt, ops[k]);
    assert(rendering(fmt, head) =~= fmt.text(ops[k]));
    assert(mark.is_prefix_of(fmt.text(ops[k])));
    assert(mark =~= rendering(fmt, ops).subrange(0, mark.len() as int));
}

/// Offering type names to a formatter that ignores them writes nothing and
/// changes nothing.
proof fn lemma_offers_write_nothing<F: Format>(fmt: F, ops: Seq<Op>)
    requires
        forall|op: Op| op is ProvideType ==> #[trigger] fmt.next(op) == fmt,
        forall|op: Op| op is ProvideType ==> #[trigger] fmt.text(op) == Seq::<char>::empty(),
        forall|j: int| 0 <= j < ops.len() ==> ops[j] is ProvideType,
    ensures
        end_state(fmt, ops) == fmt,
        rendering(fmt, ops) == Seq::<char>::empty(),
    decreases ops.len(),
{
    if ops.len() > 0 {
        lemma_offers_write_nothing(fmt, ops.drop_last());
        assert(ops.last() is ProvideType);
        assert(rendering(fmt, ops) =~= Seq::<char>::empty());
    }
}

/// What follows the annotation of a variant begins with a value.
proof fn lemma_variant_body_begins_with_value(value: Value, opt: Options)
    requires
        value.is_variant(),
        value.encodable(opt),
    ensures
        value.ops(opt) == seq![Op::RequireType(value.variant())] + value.ops(opt).skip(1),
        begins_with_value(value.ops(opt).skip(1)),
{
    let ops = value.ops(opt);
    let body = ops.skip(1);
    assert(ops =~= seq![Op::RequireType(value.variant())] + body);
    match value {
        Value::UnitVariant(..) | Value::TupleVariant(..) => {
            assert(leads_to_value(body, 0));
        },
        Value::StructVariant(..) => {
            assert(leads_to_value(body, 1));
        },
        Value::NewtypeVariant(_, _, _, inner) => {
            if opt.newtype_as_tuple {
                assert(leads_to_value(body, 1));
            } else {
                lemma_value_begins_with_value(*inner, opt);
                let k = choose|k: int| leads_to_value(inner.ops(opt), k);
                assert(leads_to_value(body, k + 1));
            }
        },
        _ => {},
    }
}

/// The compact text of a variant begins with the variant's name between
/// round brackets: the mandatory annotation is never left out.
pub proof fn lemma_compact_variant_annotated(value: Value, opt: Options)
    requires
        value.is_variant(),
        value.encodable(opt),
    ensures
        annotation_text(Some(value.variant())).is_prefix_of(compact_text(value, opt)),
{
    let require = Op::RequireType(value.variant());
    let body = value.ops(opt).skip(1);
    let start = SimpleFormatter::start();
    let annotated = start.next(require);
    let mark = annotation_text(Some(value.variant()));
    lemma_variant_body_begins_with_value(value, opt);
    lemma_rendering_concat(start, seq![require], body);
    lemma_rendering_one(start, require);
    assert forall|op: Op| op.is_value() implies mark.is_prefix_of(
        #[trigger] annotated.text(op),
    ) by {
        assert(mark =~= annotated.text(op).subrange(0, mark.len() as int));
    }
    lemma_mark_is_written(annotated, body, mark);
    assert(compact_text(value, opt) =~= rendering(annotated, body));
}

/// The laid-out text of a variant begins, on its first line, with the
/// variant's name between round brackets: the mandatory annotation is
/// never left out, and the variant is never taken for the root.
pub proof fn lemma_human_variant_annotated(value: Value, opt: Options)
    requires
        value.is_variant(),
        value.encodable(opt),
    ensures
        (line_start(0) + annotation_text(Some(value.variant()))).is_prefix_of(
            human_text(value, opt),
        ),
{
    let require = Op::RequireType(value.variant());
    let body = value.ops(opt).skip(1);
    let start = human_start(opt);
    let annotated = start.next(require);
    let mark = line_start(0) + annotation_text(Some(value.variant()));
    lemma_variant_body_begins_with_value(value, opt);
    lemma_rendering_concat(start, seq![require], body);
    lemma_rendering_one(start, require);
    assert forall|op: Op| op.is_value() implies mark.is_prefix_of(
        #[trigger] annotated.text(op),
    ) by {
        assert(mark =~= annotated.text(op).subrange(0, mark.len() as int));
    }
    lemma_mark_is_written(annotated, body, mark);
    assert(human_text(value, opt) =~= rendering(annotated, body));
}

} // verus!
