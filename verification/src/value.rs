//! The values that can be encoded, the policies that choose among their
//! representations, and the operations that each value asks of a formatter.

use crate::format::Op;
use vstd::prelude::*;

verus! {

/// How a map is represented.
#[derive(Debug, Clone, Copy, PartialEq, Eq, Hash)]
pub enum MapFormat {
    /// The formatter decides: each entry is a block of its own that holds
    /// the key and the value.
    Infer,
    /// Each entry is a tuple of two elements, the key and the value.
    Tuple,
    /// Each entry is two fields of the map's own group, `key` and `value`.
    Struct,
}

/// The policies of one encoding session.
#[derive(Debug, Clone, Copy)]
pub struct Options {
    /// An optional value is written as a variant, `None` or `Some`, and not
    /// as null or as the value itself.
    pub option_as_enum: bool,
    /// The unit is written as an empty tuple, and not as null.
    pub unit_as_tuple: bool,
    /// A newtype is written as a tuple of one element, and not as the value
    /// that it wraps.
    pub newtype_as_tuple: bool,
    /// How a map is represented.
    pub map_format: MapFormat,
    /// The root of a document gets a node of its own even where the
    /// formatter could leave it out.
    pub force_root_node: bool,
}

impl Options {
    /// The policies of a session that was given none.
    pub open spec fn standard() -> Options {
        Options {
            option_as_enum: false,
            unit_as_tuple: false,
            newtype_as_tuple: false,
            map_format: MapFormat::Infer,
            force_root_node: false,
        }
    }
}

impl Default for Options {
    fn default() -> (r: Self)
        ensures
            r == Options::standard(),
    {
        Options {
            option_as_enum: false,
            unit_as_tuple: false,
            newtype_as_tuple: false,
            map_format: MapFormat::Infer,
            force_root_node: false,
        }
    }
}

/// A value to encode. The names of types, variants and fields are part of
/// the value; a variant also carries its index in its type.
#[derive(Debug)]
pub enum Value {
    /// A boolean.
    Bool(bool),
    /// An unsigned integer of 8 bits.
    U8(u8),
    /// An unsigned integer of 16 bits.
    U16(u16),
    /// An unsigned integer of 32 bits.
    U32(u32),
    /// An unsigned integer of 64 bits.
    U64(u64),
    /// An unsigned integer of 128 bits.
    U128(u128),
    /// A signed integer of 8 bits.
    I8(i8),
    /// A signed integer of 16 bits.
    I16(i16),
    /// A signed integer of 32 bits.
    I32(i32),
    /// A signed integer of 64 bits.
    I64(i64),
    /// A signed integer of 128 bits.
    I128(i128),
    /// A floating-point number, by its decimal text.
    Float(String),
    /// A character.
    Char(char),
    /// A string.
    Str(String),
    /// A byte sequence.
    Bytes(Vec<u8>),
    /// An optional value that is absent.
    Absent,
    /// An optional value that is present.
    Present(Box<Value>),
    /// The unit.
    Unit,
    /// A unit struct: the type's name.
    UnitStruct(&'static str),
    /// A unit variant: the type's name, the variant's index and name.
    UnitVariant(&'static str, u32, &'static str),
    /// A newtype struct: the type's name and the wrapped value.
    NewtypeStruct(&'static str, Box<Value>),
    /// A newtype variant: the type's name, the variant's index and name,
    /// and the wrapped value.
    NewtypeVariant(&'static str, u32, &'static str, Box<Value>),
    /// A sequence of any length.
    Sequence(Vec<Value>),
    /// A tuple.
    Tuple(Vec<Value>),
    /// A tuple struct: the type's name and the elements.
    TupleStruct(&'static str, Vec<Value>),
    /// A tuple variant: the type's name, the variant's index and name, and
    /// the elements.
    TupleVariant(&'static str, u32, &'static str, Vec<Value>),
    /// A map: its entries, each a key and a value, in order.
    Mapping(Vec<(Value, Value)>),
    /// A struct: the type's name and the fields, each a name and a value,
    /// in order.
    Struct(&'static str, Vec<(&'static str, Value)>),
    /// A struct variant: the type's name, the variant's index and name, and
    /// the fields.
    StructVariant(&'static str, u32, &'static str, Vec<(&'static str, Value)>),
}

/// The operations of the unit.
pub open spec fn unit_ops(opt: Options) -> Seq<Op> {
    if opt.unit_as_tuple {
        seq![Op::BeginTuple, Op::EndTuple]
    } else {
        seq![Op::Null]
    }
}

/// The operations of an optional value that is absent.
pub open spec fn none_ops(opt: Options) -> Seq<Op> {
    if opt.option_as_enum {
        unit_variant_ops("None", opt)
    } else {
        seq![Op::Null]
    }
}

/// The operations of an optional value that is present, from those of the
/// value.
pub open spec fn some_ops(inner: Seq<Op>, opt: Options) -> Seq<Op> {
    if opt.option_as_enum {
        newtype_variant_ops("Option", "Some", inner, opt)
    } else {
        inner
    }
}

/// The operations of a unit struct.
pub open spec fn unit_struct_ops(name: &'static str, opt: Options) -> Seq<Op> {
    seq![Op::ProvideType(name)] + unit_ops(opt)
}

/// The operations of a unit variant.
pub open spec fn unit_variant_ops(variant: &'static str, opt: Options) -> Seq<Op> {
    seq![Op::RequireType(variant)] + unit_ops(opt)
}

/// The operations of an element of a tuple, from those of its value.
pub open spec fn element_ops(inner: Seq<Op>) -> Seq<Op> {
    seq![Op::BeginElement] + inner + seq![Op::EndElement]
}

/// The operations of a named field, from those of its value.
pub open spec fn field_ops(key: &'static str, inner: Seq<Op>) -> Seq<Op> {
    seq![Op::BeginField(key)] + inner + seq![Op::EndField]
}

/// The operations of a newtype struct, from those of the wrapped value.
pub open spec fn newtype_struct_ops(name: &'static str, inner: Seq<Op>, opt: Options) -> Seq<Op> {
    if opt.newtype_as_tuple {
        seq![Op::ProvideType(name), Op::BeginTuple] + element_ops(inner) + seq![Op::EndTuple]
    } else {
        seq![Op::ProvideType(name)] + inner
    }
}

/// The operations of a newtype variant, from those of the wrapped value.
pub open spec fn newtype_variant_ops(
    name: &'static str,
    variant: &'static str,
    inner: Seq<Op>,
    opt: Options,
) -> Seq<Op> {
    seq![Op::RequireType(variant)] + newtype_struct_ops(name, inner, opt)
}

/// The operations that open a map.
pub open spec fn map_begin_ops(opt: Options) -> Seq<Op> {
    match opt.map_format {
        MapFormat::Infer => seq![Op::BeginMap],
        MapFormat::Tuple => seq![Op::BeginTuple],
        MapFormat::Struct => seq![Op::BeginStruct],
    }
}

/// The operations of the key of an entry, from those of its value.
pub open spec fn key_ops(inner: Seq<Op>, opt: Options) -> Seq<Op> {
    match opt.map_format {
        MapFormat::Infer => seq![Op::BeginKey] + inner + seq![Op::EndKey],
        MapFormat::Tuple => seq![Op::BeginElement, Op::BeginTuple] + element_ops(inner),
        MapFormat::Struct => field_ops("key", inner),
    }
}

/// The operations of the value of an entry, from those of its value.
pub open spec fn value_ops(inner: Seq<Op>, opt: Options) -> Seq<Op> {
    match opt.map_format {
        MapFormat::Infer => seq![Op::BeginValue] + inner + seq![Op::EndValue],
        MapFormat::Tuple => element_ops(inner) + seq![Op::EndTuple, Op::EndElement],
        MapFormat::Struct => field_ops("value", inner),
    }
}

/// The name under which the key of an entry is written.
pub open spec fn key_name(opt: Options) -> &'static str {
    match opt.map_format {
        MapFormat::Tuple => "-",
        _ => "key",
    }
}

/// The name under which the value of an entry is written.
pub open spec fn value_name(opt: Options) -> &'static str {
    match opt.map_format {
        MapFormat::Tuple => "-",
        _ => "value",
    }
}

/// The operations that close a map.
pub open spec fn map_end_ops(opt: Options) -> Seq<Op> {
    match opt.map_format {
        MapFormat::Infer => seq![Op::EndMap],
        MapFormat::Tuple => seq![Op::EndTuple],
        MapFormat::Struct => seq![Op::EndStruct],
    }
}

/// Whether a newtype struct may be encoded: written as the value it wraps,
/// it hands a waiting annotation on to that value, which must not set one
/// of its own.
pub open spec fn newtype_struct_ok(inner_annotated: bool, waiting: bool, opt: Options) -> bool {
    opt.newtype_as_tuple || !(inner_annotated && waiting)
}

/// Whether a newtype variant may be encoded: no annotation waits, and
/// where it is written as the value it wraps, that value sets none.
pub open spec fn newtype_variant_ok(inner_annotated: bool, waiting: bool, opt: Options) -> bool {
    !waiting && (opt.newtype_as_tuple || !inner_annotated)
}

/// Whether an optional value that is present may be encoded.
pub open spec fn some_ok(inner_annotated: bool, waiting: bool, opt: Options) -> bool {
    if opt.option_as_enum {
        newtype_variant_ok(inner_annotated, waiting, opt)
    } else {
        !(inner_annotated && waiting)
    }
}

/// The operations of the first `n` elements of a tuple.
pub open spec fn elements_ops(items: Seq<Value>, n: int, opt: Options) -> Seq<Op>
    decreases items, n,
{
    if 0 < n <= items.len() {
        elements_ops(items, n - 1, opt) + element_ops(items[n - 1].ops(opt))
    } else {
        Seq::empty()
    }
}

/// The operations of the first `n` fields of a struct.
pub open spec fn fields_ops(fields: Seq<(&'static str, Value)>, n: int, opt: Options) -> Seq<Op>
    decreases fields, n,
{
    if 0 < n <= fields.len() {
        fields_ops(fields, n - 1, opt) + field_ops(fields[n - 1].0, fields[n - 1].1.ops(opt))
    } else {
        Seq::empty()
    }
}

/// The operations of the first `n` entries of a map.
pub open spec fn entries_ops(entries: Seq<(Value, Value)>, n: int, opt: Options) -> Seq<Op>
    decreases entries, n,
{
    if 0 < n <= entries.len() {
        entries_ops(entries, n - 1, opt) + key_ops(entries[n - 1].0.ops(opt), opt) + value_ops(
            entries[n - 1].1.ops(opt),
            opt,
        )
    } else {
        Seq::empty()
    }
}

impl Value {
    /// The value is a variant of an enum.
    pub open spec fn is_variant(self) -> bool {
        self is UnitVariant || self is NewtypeVariant || self is TupleVariant
            || self is StructVariant
    }

    /// The name of the variant, where the value is one.
    pub open spec fn variant(self) -> &'static str
        recommends
            self.is_variant(),
    {
        match self {
            Value::UnitVariant(_, _, variant) => variant,
            Value::NewtypeVariant(_, _, variant, _) => variant,
            Value::TupleVariant(_, _, variant, _) => variant,
            Value::StructVariant(_, _, variant, _) => variant,
            _ => "",
        }
    }

    /// The operations that encoding the value asks of a formatter, in
    /// order.
    pub open spec fn ops(self, opt: Options) -> Seq<Op>
        decreases self,
    {
        match self {
            Value::Bool(v) => seq![Op::Bool(v)],
            Value::U8(v) => seq![Op::Int(v as int)],
            Value::U16(v) => seq![Op::Int(v as int)],
            Value::U32(v) => seq![Op::Int(v as int)],
            Value::U64(v) => seq![Op::Int(v as int)],
            Value::U128(v) => seq![Op::Int(v as int)],
            Value::I8(v) => seq![Op::Int(v as int)],
            Value::I16(v) => seq![Op::Int(v as int)],
            Value::I32(v) => seq![Op::Int(v as int)],
            Value::I64(v) => seq![Op::Int(v as int)],
            Value::I128(v) => seq![Op::Int(v as int)],
            Value::Float(v) => seq![Op::Float(v@)],
            Value::Char(v) => seq![Op::Str(seq![v])],
            Value::Str(v) => seq![Op::Str(v@)],
            Value::Bytes(v) => seq![Op::Bytes(v@)],
            Value::Absent => none_ops(opt),
            Value::Present(v) => some_ops(v.ops(opt), opt),
            Value::Unit => unit_ops(opt),
            Value::UnitStruct(name) => unit_struct_ops(name, opt),
            Value::UnitVariant(_, _, variant) => unit_variant_ops(variant, opt),
            Value::NewtypeStruct(name, v) => newtype_struct_ops(name, v.ops(opt), opt),
            Value::NewtypeVariant(name, _, variant, v) => newtype_variant_ops(
                name,
                variant,
                v.ops(opt),
                opt,
            ),
            Value::Sequence(items) => seq![Op::BeginTuple] + elements_ops(
                items@,
                items@.len() as int,
                opt,
            ) + seq![Op::EndTuple],
            Value::Tuple(items) => seq![Op::BeginTuple] + elements_ops(
                items@,
                items@.len() as int,
                opt,
            ) + seq![Op::EndTuple],
            Value::TupleStruct(name, items) => seq![Op::ProvideType(name), Op::BeginTuple]
                + elements_ops(items@, items@.len() as int, opt) + seq![Op::EndTuple],
            Value::TupleVariant(_, _, variant, items) => seq![
                Op::RequireType(variant),
                Op::BeginTuple,
            ] + elements_ops(items@, items@.len() as int, opt) + seq![Op::EndTuple],
            Value::Mapping(entries) => map_begin_ops(opt) + entries_ops(
                entries@,
                entries@.len() as int,
                opt,
            ) + map_end_ops(opt),
            Value::Struct(name, fields) => seq![Op::ProvideType(name), Op::BeginStruct]
                + fields_ops(fields@, fields@.len() as int, opt) + seq![Op::EndStruct],
            Value::StructVariant(name, _, variant, fields) => seq![
                Op::RequireType(variant),
                Op::ProvideType(name),
                Op::BeginStruct,
            ] + fields_ops(fields@, fields@.len() as int, opt) + seq![Op::EndStruct],
        }
    }

    /// How many groups deep encoding the value nests: none for a scalar,
    /// one more than its deepest field for a group, and for a map one more
    /// where each entry is a group of its own.
    pub open spec fn depth(self, opt: Options) -> nat
        decreases self,
    {
        let unit: nat = if opt.unit_as_tuple {
            1
        } else {
            0
        };
        let wrapper: nat = if opt.newtype_as_tuple {
            1
        } else {
            0
        };
        match self {
            Value::Absent => if opt.option_as_enum {
                unit
            } else {
                0
            },
            Value::Present(v) => if opt.option_as_enum {
                wrapper + v.depth(opt)
            } else {
                v.depth(opt)
            },
            Value::Unit => unit,
            Value::UnitStruct(_) => unit,
            Value::UnitVariant(..) => unit,
            Value::NewtypeStruct(_, v) => wrapper + v.depth(opt),
            Value::NewtypeVariant(_, _, _, v) => wrapper + v.depth(opt),
            Value::Sequence(items) => 1 + elements_depth(items@, items@.len() as int, opt),
            Value::Tuple(items) => 1 + elements_depth(items@, items@.len() as int, opt),
            Value::TupleStruct(_, items) => 1 + elements_depth(items@, items@.len() as int, opt),
            Value::TupleVariant(_, _, _, items) => 1 + elements_depth(
                items@,
                items@.len() as int,
                opt,
            ),
            Value::Mapping(entries) => match opt.map_format {
                MapFormat::Struct => 1 + entries_depth(entries@, entries@.len() as int, opt),
                _ => 2 + entries_depth(entries@, entries@.len() as int, opt),
            },
            Value::Struct(_, fields) => 1 + fields_depth(fields@, fields@.len() as int, opt),
            Value::StructVariant(_, _, _, fields) => 1 + fields_depth(
                fields@,
                fields@.len() as int,
                opt,
            ),
            _ => 0,
        }
    }

    /// Encoding the value begins by setting a mandatory type annotation.
    pub open spec fn starts_annotated(self, opt: Options) -> bool
        decreases self,
    {
        match self {
            Value::UnitVariant(..) | Value::NewtypeVariant(..) | Value::TupleVariant(..)
            | Value::StructVariant(..) => true,
            Value::Absent => opt.option_as_enum,
            Value::Present(v) => opt.option_as_enum || v.starts_annotated(opt),
            Value::NewtypeStruct(_, v) => !opt.newtype_as_tuple && v.starts_annotated(opt),
            _ => false,
        }
    }

    /// Encoding the value never sets a second mandatory type annotation
    /// before the first is written: no variant stands directly inside a
    /// newtype variant that is written as the value it wraps.
    pub open spec fn encodable(self, opt: Options) -> bool
        decreases self,
    {
        match self {
            Value::Present(v) => v.encodable(opt) && (opt.option_as_enum && !opt.newtype_as_tuple
                ==> !v.starts_annotated(opt)),
            Value::NewtypeStruct(_, v) => v.encodable(opt),
            Value::NewtypeVariant(_, _, _, v) => v.encodable(opt) && (!opt.newtype_as_tuple
                ==> !v.starts_annotated(opt)),
            Value::Sequence(items) => elements_encodable(items@, opt),
            Value::Tuple(items) => elements_encodable(items@, opt),
            Value::TupleStruct(_, items) => elements_encodable(items@, opt),
            Value::TupleVariant(_, _, _, items) => elements_encodable(items@, opt),
            Value::Mapping(entries) => entries_encodable(entries@, opt),
            Value::Struct(_, fields) => fields_encodable(fields@, opt),
            Value::StructVariant(_, _, _, fields) => fields_encodable(fields@, opt),
            _ => true,
        }
    }
}

/// The nesting depth of the deepest of the first `n` elements.
pub open spec fn elements_depth(items: Seq<Value>, n: int, opt: Options) -> nat
    decreases items, n,
{
    if 0 < n <= items.len() {
        let before = elements_depth(items, n - 1, opt);
        let last = items[n - 1].depth(opt);
        if last > before {
            last
        } else {
            before
        }
    } else {
        0
    }
}

/// The nesting depth of the deepest value of the first `n` fields.
pub open spec fn fields_depth(fields: Seq<(&'static str, Value)>, n: int, opt: Options) -> nat
    decreases fields, n,
{
    if 0 < n <= fields.len() {
        let before = fields_depth(fields, n - 1, opt);
        let last = fields[n - 1].1.depth(opt);
        if last > before {
            last
        } else {
            before
        }
    } else {
        0
    }
}

/// The nesting depth of the deepest key or value of the first `n` entries.
pub open spec fn entries_depth(entries: Seq<(Value, Value)>, n: int, opt: Options) -> nat
    decreases entries, n,
{
    if 0 < n <= entries.len() {
        let before = entries_depth(entries, n - 1, opt);
        let key = entries[n - 1].0.depth(opt);
        let value = entries[n - 1].1.depth(opt);
        let last = if key > value {
            key
        } else {
            value
        };
        if last > before {
            last
        } else {
            before
        }
    } else {
        0
    }
}

/// The deepest of more elements is no less deep.
pub proof fn lemma_elements_depth_grows(items: Seq<Value>, n: int, m: int, opt: Options)
    requires
        0 <= n <= m <= items.len(),
    ensures
        elements_depth(items, n, opt) <= elements_depth(items, m, opt),
    decreases m - n,
{
    if n < m {
        lemma_elements_depth_grows(items, n, m - 1, opt);
    }
}

/// The deepest of more fields is no less deep.
pub proof fn lemma_fields_depth_grows(
    fields: Seq<(&'static str, Value)>,
    n: int,
    m: int,
    opt: Options,
)
    requires
        0 <= n <= m <= fields.len(),
    ensures
        fields_depth(fields, n, opt) <= fields_depth(fields, m, opt),
    decreases m - n,
{
    if n < m {
        lemma_fields_depth_grows(fields, n, m - 1, opt);
    }
}

/// The deepest of more entries is no less deep.
pub proof fn lemma_entries_depth_grows(entries: Seq<(Value, Value)>, n: int, m: int, opt: Options)
    requires
        0 <= n <= m <= entries.len(),
    ensures
        entries_depth(entries, n, opt) <= entries_depth(entries, m, opt),
    decreases m - n,
{
    if n < m {
        lemma_entries_depth_grows(entries, n, m - 1, opt);
    }
}

/// Every element can be encoded.
pub open spec fn elements_encodable(items: Seq<Value>, opt: Options) -> bool
    decreases items,
{
    forall|i: int| 0 <= i < items.len() ==> (#[trigger] items[i]).encodable(opt)
}

/// The value of every field can be encoded.
pub open spec fn fields_encodable(fields: Seq<(&'static str, Value)>, opt: Options) -> bool
    decreases fields,
{
    forall|i: int| 0 <= i < fields.len() ==> (#[trigger] fields[i]).1.encodable(opt)
}

/// The key and the value of every entry can be encoded.
pub open spec fn entries_encodable(entries: Seq<(Value, Value)>, opt: Options) -> bool
    decreases entries,
{
    forall|i: int|
        0 <= i < entries.len() ==> (#[trigger] entries[i]).0.encodable(opt)
            && entries[i].1.encodable(opt)
}

} // verus!
