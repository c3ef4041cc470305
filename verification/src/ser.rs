//! The encoding session: it takes a value apart and asks a formatter for
//! each piece, under the policies it was given.

use crate::compact::SimpleFormatter;
use crate::error::Result;
use crate::format::{end_state, lemma_rendering_concat, lemma_rendering_one, rendering, Format, Op};
use crate::human::HumanFormatter;
use crate::laws::compact_form::lemma_compact_text_is_compact_form;
use crate::laws::human_form::lemma_human_text_is_human_form;
use crate::value::{
    element_ops, elements_depth, elements_encodable, elements_ops, entries_depth, entries_encodable,
    entries_ops, field_ops, fields_depth, fields_encodable, fields_ops, key_ops,
    lemma_elements_depth_grows, lemma_entries_depth_grows, lemma_fields_depth_grows, map_begin_ops,
    map_end_ops, newtype_struct_ok, newtype_struct_ops, newtype_variant_ok, newtype_variant_ops,
    none_ops, some_ok, some_ops, unit_ops, unit_struct_ops, unit_variant_ops, value_ops, MapFormat,
    Options, Value,
};
use vstd::prelude::*;

verus! {

/// One encoding session: the policies, the sink and the formatter. Every
/// step takes the session and gives it back, with the text of the step
/// appended to the sink.
#[derive(Debug)]
pub struct Serializer<F: Format> {
    opt: Options,
    sink: String,
    fmt: F,
}

/// A session inside a tuple: between two elements, or before the first.
#[derive(Debug)]
pub struct TupleSerializer<F: Format> {
    ser: Serializer<F>,
}

/// A session inside a group of named fields.
#[derive(Debug)]
pub struct StructSerializer<F: Format> {
    ser: Serializer<F>,
}

/// A session inside a map. It knows whether the key of an entry was
/// written and its value is still to come.
#[derive(Debug)]
pub struct MapSerializer<F: Format> {
    ser: Serializer<F>,
    key_written: bool,
}

impl<F: Format> Serializer<F> {
    /// The policies of the session.
    pub closed spec fn options(self) -> Options {
        self.opt
    }

    /// The text written so far.
    pub closed spec fn text(self) -> Seq<char> {
        self.sink@
    }

    /// The state of the formatter.
    pub closed spec fn formatter(self) -> F {
        self.fmt
    }

    /// `self` is the session `before` after its formatter was asked `ops`
    /// in order: the policies are the same, the formatter has moved on, and
    /// the sink has grown by the text of `ops`.
    pub open spec fn follows(self, before: Self, ops: Seq<Op>) -> bool {
        &&& self.options() == before.options()
        &&& self.formatter() == end_state(before.formatter(), ops)
        &&& self.text() == before.text() + rendering(before.formatter(), ops)
    }

    /// Whether a mandatory type annotation waits for the next value.
    pub open spec fn annotated(self) -> bool {
        self.formatter().annotated()
    }

    /// The session can encode `value`: nothing in it, and nothing that
    /// waits, sets two mandatory type annotations for one value.
    pub open spec fn accepts(self, value: Value) -> bool {
        &&& value.encodable(self.options())
        &&& value.starts_annotated(self.options()) ==> !self.annotated()
    }

    /// Steps add up: `ops` and then `more` is `ops + more`.
    pub proof fn lemma_follows_then(self, middle: Self, before: Self, ops: Seq<Op>, more: Seq<Op>)
        requires
            middle.follows(before, ops),
            self.follows(middle, more),
        ensures
            self.follows(before, ops + more),
    {
        lemma_rendering_concat(before.formatter(), ops, more);
        assert(self.text() =~= before.text() + rendering(before.formatter(), ops + more));
    }

    /// A session that has not moved follows itself by no operation.
    pub proof fn lemma_follows_nothing(self)
        ensures
            self.follows(self, Seq::empty()),
    {
        assert(self.text() + Seq::<char>::empty() =~= self.text());
    }

    /// A session over `sink` and `fmt`, with the standard policies.
    pub fn new(sink: String, fmt: F) -> (r: Self)
        ensures
            r.options() == Options::standard(),
            r.text() == sink@,
            r.formatter() == fmt,
    {
        Self::new_with_options(sink, fmt, Options::default())
    }

    /// A session over `sink` and `fmt`, with the policies `opt`.
    pub fn new_with_options(sink: String, fmt: F, opt: Options) -> (r: Self)
        ensures
            r.options() == opt,
            r.text() == sink@,
            r.formatter() == fmt,
    {
        Serializer { opt, sink, fmt }
    }

    /// Ends the session and hands out the sink.
    pub fn into_sink(self) -> (r: String)
        ensures
            r@ == self.text(),
    {
        self.sink
    }

    fn provide_type(self, ty: &'static str) -> (r: Self)
        ensures
            r.follows(self, seq![Op::ProvideType(ty)]),
            r.annotated() == self.annotated(),
    {
        let mut ser = self;
        ser.fmt.provide_type_annotation(&mut ser.sink, ty);
        proof {
            lemma_rendering_one(self.fmt, Op::ProvideType(ty));
            self.fmt.lemma_annotated(Op::ProvideType(ty));
        }
        ser
    }

    fn require_type(self, ty: &'static str) -> (r: Self)
        requires
            !self.annotated(),
        ensures
            r.follows(self, seq![Op::RequireType(ty)]),
            r.annotated(),
    {
        let mut ser = self;
        ser.fmt.require_type_annotation(&mut ser.sink, ty);
        proof {
            lemma_rendering_one(self.fmt, Op::RequireType(ty));
            self.fmt.lemma_annotated(Op::RequireType(ty));
        }
        ser
    }

    fn begin_tuple(self) -> (r: Self)
        ensures
            r.follows(self, seq![Op::BeginTuple]),
            !r.annotated(),
    {
        let mut ser = self;
        ser.fmt.begin_tuple(&mut ser.sink);
        proof {
            lemma_rendering_one(self.fmt, Op::BeginTuple);
            self.fmt.lemma_annotated(Op::BeginTuple);
        }
        ser
    }

    fn end_tuple(self) -> (r: Self)
        ensures
            r.follows(self, seq![Op::EndTuple]),
            r.annotated() == self.annotated(),
    {
        let mut ser = self;
        ser.fmt.end_tuple(&mut ser.sink);
        proof {
            lemma_rendering_one(self.fmt, Op::EndTuple);
            self.fmt.lemma_annotated(Op::EndTuple);
        }
        ser
    }

    fn begin_struct(self) -> (r: Self)
        ensures
            r.follows(self, seq![Op::BeginStruct]),
            !r.annotated(),
    {
        let mut ser = self;
        ser.fmt.begin_struct(&mut ser.sink);
        proof {
            lemma_rendering_one(self.fmt, Op::BeginStruct);
            self.fmt.lemma_annotated(Op::BeginStruct);
        }
        ser
    }

    fn end_struct(self) -> (r: Self)
        ensures
            r.follows(self, seq![Op::EndStruct]),
            r.annotated() == self.annotated(),
    {
        let mut ser = self;
        ser.fmt.end_struct(&mut ser.sink);
        proof {
            lemma_rendering_one(self.fmt, Op::EndStruct);
            self.fmt.lemma_annotated(Op::EndStruct);
        }
        ser
    }

    fn begin_element(self) -> (r: Self)
        ensures
            r.follows(self, seq![Op::BeginElement]),
            r.annotated() == self.annotated(),
    {
        let mut ser = self;
        ser.fmt.begin_element(&mut ser.sink);
        proof {
            lemma_rendering_one(self.fmt, Op::BeginElement);
            self.fmt.lemma_annotated(Op::BeginElement);
        }
        ser
    }

    fn end_element(self) -> (r: Self)
        ensures
            r.follows(self, seq![Op::EndElement]),
            r.annotated() == self.annotated(),
    {
        let mut ser = self;
        ser.fmt.end_element(&mut ser.sink);
        proof {
            lemma_rendering_one(self.fmt, Op::EndElement);
            self.fmt.lemma_annotated(Op::EndElement);
        }
        ser
    }

    fn begin_field(self, name: &'static str) -> (r: Self)
        ensures
            r.follows(self, seq![Op::BeginField(name)]),
            r.annotated() == self.annotated(),
    {
        let mut ser = self;
        ser.fmt.begin_field(&mut ser.sink, name);
        proof {
            lemma_rendering_one(self.fmt, Op::BeginField(name));
            self.fmt.lemma_annotated(Op::BeginField(name));
        }
        ser
    }

    fn end_field(self) -> (r: Self)
        ensures
            r.follows(self, seq![Op::EndField]),
            r.annotated() == self.annotated(),
    {
        let mut ser = self;
        ser.fmt.end_field(&mut ser.sink);
        proof {
            lemma_rendering_one(self.fmt, Op::EndField);
            self.fmt.lemma_annotated(Op::EndField);
        }
        ser
    }

    /// Encodes a boolean.
    pub fn serialize_bool(self, v: bool) -> (r: Self)
        ensures
            r.follows(self, seq![Op::Bool(v)]),
            !r.annotated(),
    {
        let mut ser = self;
        ser.fmt.write_bool(&mut ser.sink, v);
        proof {
            lemma_rendering_one(self.fmt, Op::Bool(v));
            self.fmt.lemma_annotated(Op::Bool(v));
        }
        ser
    }

    /// Encodes an integer.
    pub fn serialize_u8(self, v: u8) -> (r: Self)
        ensures
            r.follows(self, seq![Op::Int(v as int)]),
            !r.annotated(),
    {
        let mut ser = self;
        ser.fmt.write_u8(&mut ser.sink, v);
        proof {
            lemma_rendering_one(self.fmt, Op::Int(v as int));
            self.fmt.lemma_annotated(Op::Int(v as int));
        }
        ser
    }

    /// Encodes an integer.
    pub fn serialize_u16(self, v: u16) -> (r: Self)
        ensures
            r.follows(self, seq![Op::Int(v as int)]),
            !r.annotated(),
    {
        let mut ser = self;
        ser.fmt.write_u16(&mut ser.sink, v);
        proof {
            lemma_rendering_one(self.fmt, Op::Int(v as int));
            self.fmt.lemma_annotated(Op::Int(v as int));
        }
        ser
    }

    /// Encodes an integer.
    pub fn serialize_u32(self, v: u32) -> (r: Self)
        ensures
            r.follows(self, seq![Op::Int(v as int)]),
            !r.annotated(),
    {
        let mut ser = self;
        ser.fmt.write_u32(&mut ser.sink, v);
        proof {
            lemma_rendering_one(self.fmt, Op::Int(v as int));
            self.fmt.lemma_annotated(Op::Int(v as int));
        }
        ser
    }

    /// Encodes an integer.
    pub fn serialize_u64(self, v: u64) -> (r: Self)
        ensures
            r.follows(self, seq![Op::Int(v as int)]),
            !r.annotated(),
    {
        let mut ser = self;
        ser.fmt.write_u64(&mut ser.sink, v);
        proof {
            lemma_rendering_one(self.fmt, Op::Int(v as int));
            self.fmt.lemma_annotated(Op::Int(v as int));
        }
        ser
    }

    /// Encodes an integer.
    pub fn serialize_u128(self, v: u128) -> (r: Self)
        ensures
            r.follows(self, seq![Op::Int(v as int)]),
            !r.annotated(),
    {
        let mut ser = self;
        ser.fmt.write_u128(&mut ser.sink, v);
        proof {
            lemma_rendering_one(self.fmt, Op::Int(v as int));
            self.fmt.lemma_annotated(Op::Int(v as int));
        }
        ser
    }

    /// Encodes an integer.
    pub fn serialize_i8(self, v: i8) -> (r: Self)
        ensures
            r.follows(self, seq![Op::Int(v as int)]),
            !r.annotated(),
    {
        let mut ser = self;
        ser.fmt.write_i8(&mut ser.sink, v);
        proof {
            lemma_rendering_one(self.fmt, Op::Int(v as int));
            self.fmt.lemma_annotated(Op::Int(v as int));
        }
        ser
    }

    /// Encodes an integer.
    pub fn serialize_i16(self, v: i16) -> (r: Self)
        ensures
            r.follows(self, seq![Op::Int(v as int)]),
            !r.annotated(),
    {
        let mut ser = self;
        ser.fmt.write_i16(&mut ser.sink, v);
        proof {
            lemma_rendering_one(self.fmt, Op::Int(v as int));
            self.fmt.lemma_annotated(Op::Int(v as int));
        }
        ser
    }

    /// Encodes an integer.
    pub fn serialize_i32(self, v: i32) -> (r: Self)
        ensures
            r.follows(self, seq![Op::Int(v as int)]),
            !r.annotated(),
    {
        let mut ser = self;
        ser.fmt.write_i32(&mut ser.sink, v);
        proof {
            lemma_rendering_one(self.fmt, Op::Int(v as int));
            self.fmt.lemma_annotated(Op::Int(v as int));
        }
        ser
    }

    /// Encodes an integer.
    pub fn serialize_i64(self, v: i64) -> (r: Self)
        ensures
            r.follows(self, seq![Op::Int(v as int)]),
            !r.annotated(),
    {
        let mut ser = self;
        ser.fmt.write_i64(&mut ser.sink, v);
        proof {
            lemma_rendering_one(self.fmt, Op::Int(v as int));
            self.fmt.lemma_annotated(Op::Int(v as int));
        }
        ser
    }

    /// Encodes an integer.
    pub fn serialize_i128(self, v: i128) -> (r: Self)
        ensures
            r.follows(self, seq![Op::Int(v as int)]),
            !r.annotated(),
    {
        let mut ser = self;
        ser.fmt.write_i128(&mut ser.sink, v);
        proof {
            lemma_rendering_one(self.fmt, Op::Int(v as int));
            self.fmt.lemma_annotated(Op::Int(v as int));
        }
        ser
    }

    /// Encodes a floating-point number, given by its decimal text.
    pub fn serialize_float(self, v: &str) -> (r: Self)
        ensures
            r.follows(self, seq![Op::Float(v@)]),
            !r.annotated(),
    {
        let mut ser = self;
        ser.fmt.write_float(&mut ser.sink, v);
        proof {
            lemma_rendering_one(self.fmt, Op::Float(v@));
            self.fmt.lemma_annotated(Op::Float(v@));
        }
        ser
    }

    /// Encodes a character as the string that holds it alone.
    pub fn serialize_char(self, v: char) -> (r: Self)
        ensures
            r.follows(self, seq![Op::Str(seq![v])]),
            !r.annotated(),
    {
        let mut text = String::new();
        text.push(v);
        assert(text@ =~= seq![v]);
        self.serialize_str(text.as_str())
    }

    /// Encodes a string.
    pub fn serialize_str(self, v: &str) -> (r: Self)
        ensures
            r.follows(self, seq![Op::Str(v@)]),
            !r.annotated(),
    {
        let mut ser = self;
        ser.fmt.write_string(&mut ser.sink, v);
        proof {
            lemma_rendering_one(self.fmt, Op::Str(v@));
            self.fmt.lemma_annotated(Op::Str(v@));
        }
        ser
    }

    /// Encodes a byte sequence.
    pub fn serialize_bytes(self, v: &[u8]) -> (r: Self)
        ensures
            r.follows(self, seq![Op::Bytes(v@)]),
            !r.annotated(),
    {
        let mut ser = self;
        ser.fmt.write_bytes(&mut ser.sink, v);
        proof {
            lemma_rendering_one(self.fmt, Op::Bytes(v@));
            self.fmt.lemma_annotated(Op::Bytes(v@));
        }
        ser
    }

    fn write_null(self) -> (r: Self)
        ensures
            r.follows(self, seq![Op::Null]),
            !r.annotated(),
    {
        let mut ser = self;
        ser.fmt.write_null(&mut ser.sink);
        proof {
            lemma_rendering_one(self.fmt, Op::Null);
            self.fmt.lemma_annotated(Op::Null);
        }
        ser
    }

    /// Encodes an optional value that is absent: as null, or as the unit
    /// variant `None`.
    pub fn serialize_none(self) -> (r: Self)
        requires
            self.options().option_as_enum ==> !self.annotated(),
        ensures
            r.follows(self, none_ops(self.options())),
            !r.annotated(),
    {
        if self.opt.option_as_enum {
            self.serialize_unit_variant("Option", 0, "None")
        } else {
            self.write_null()
        }
    }

    /// Encodes the unit: as null, or as an empty tuple.
    pub fn serialize_unit(self) -> (r: Self)
        ensures
            r.follows(self, unit_ops(self.options())),
            !r.annotated(),
    {
        if self.opt.unit_as_tuple {
            let tuple = self.serialize_tuple(0);
            let r = tuple.end();
            proof {
                r.lemma_follows_then(tuple.ser, self, seq![Op::BeginTuple], seq![Op::EndTuple]);
                assert(seq![Op::BeginTuple] + seq![Op::EndTuple] =~= unit_ops(self.opt));
            }
            r
        } else {
            self.write_null()
        }
    }

    /// Encodes a unit struct: the unit, with the type's name offered.
    pub fn serialize_unit_struct(self, name: &'static str) -> (r: Self)
        ensures
            r.follows(self, unit_struct_ops(name, self.options())),
            !r.annotated(),
    {
        let ser = self.provide_type(name);
        let r = ser.serialize_unit();
        proof {
            r.lemma_follows_then(ser, self, seq![Op::ProvideType(name)], unit_ops(self.opt));
        }
        r
    }

    /// Encodes a unit variant: the unit, annotated with the variant's name.
    pub fn serialize_unit_variant(
        self,
        name: &'static str,
        variant_index: u32,
        variant: &'static str,
    ) -> (r: Self)
        requires
            !self.annotated(),
        ensures
            r.follows(self, unit_variant_ops(variant, self.options())),
            !r.annotated(),
    {
        let ser = self.require_type(variant);
        let r = ser.serialize_unit();
        proof {
            r.lemma_follows_then(ser, self, seq![Op::RequireType(variant)], unit_ops(self.opt));
        }
        r
    }

    /// Opens a sequence.
    pub fn serialize_seq(self, len: Option<usize>) -> (r: TupleSerializer<F>)
        ensures
            r.session().follows(self, seq![Op::BeginTuple]),
            !r.session().annotated(),
    {
        let ser = self.begin_tuple();
        TupleSerializer { ser }
    }

    /// Opens a tuple.
    pub fn serialize_tuple(self, len: usize) -> (r: TupleSerializer<F>)
        ensures
            r.session().follows(self, seq![Op::BeginTuple]),
            !r.session().annotated(),
    {
        self.serialize_seq(Some(len))
    }

    /// Opens a tuple struct: a tuple, with the type's name offered.
    pub fn serialize_tuple_struct(self, name: &'static str, len: usize) -> (r: TupleSerializer<F>)
        ensures
            r.session().follows(self, seq![Op::ProvideType(name), Op::BeginTuple]),
            !r.session().annotated(),
    {
        let ser = self.provide_type(name);
        let r = ser.serialize_tuple(len);
        proof {
            r.ser.lemma_follows_then(
                ser,
                self,
                seq![Op::ProvideType(name)],
                seq![Op::BeginTuple],
            );
            assert(seq![Op::ProvideType(name)] + seq![Op::BeginTuple] =~= seq![
                Op::ProvideType(name),
                Op::BeginTuple,
            ]);
        }
        r
    }

    /// Opens a tuple variant: a tuple, annotated with the variant's name.
    pub fn serialize_tuple_variant(
        self,
        name: &'static str,
        variant_index: u32,
        variant: &'static str,
        len: usize,
    ) -> (r: TupleSerializer<F>)
        requires
            !self.annotated(),
        ensures
            r.session().follows(self, seq![Op::RequireType(variant), Op::BeginTuple]),
            !r.session().annotated(),
    {
        let ser = self.require_type(variant);
        let r = ser.serialize_tuple(len);
        proof {
            r.ser.lemma_follows_then(
                ser,
                self,
                seq![Op::RequireType(variant)],
                seq![Op::BeginTuple],
            );
            assert(seq![Op::RequireType(variant)] + seq![Op::BeginTuple] =~= seq![
                Op::RequireType(variant),
                Op::BeginTuple,
            ]);
        }
        r
    }

    /// Opens a struct: a group of named fields, with the type's name
    /// offered.
    pub fn serialize_struct(self, name: &'static str, len: usize) -> (r: StructSerializer<F>)
        ensures
            r.session().follows(self, seq![Op::ProvideType(name), Op::BeginStruct]),
            !r.session().annotated(),
    {
        let ser = self.provide_type(name);
        let r = ser.begin_struct();
        proof {
            r.lemma_follows_then(ser, self, seq![Op::ProvideType(name)], seq![Op::BeginStruct]);
            assert(seq![Op::ProvideType(name)] + seq![Op::BeginStruct] =~= seq![
                Op::ProvideType(name),
                Op::BeginStruct,
            ]);
        }
        StructSerializer { ser: r }
    }

    /// Opens a struct variant: a struct, annotated with the variant's name.
    pub fn serialize_struct_variant(
        self,
        name: &'static str,
        variant_index: u32,
        variant: &'static str,
        len: usize,
    ) -> (r: StructSerializer<F>)
        requires
            !self.annotated(),
        ensures
            r.session().follows(
                self,
                seq![Op::RequireType(variant), Op::ProvideType(name), Op::BeginStruct],
            ),
            !r.session().annotated(),
    {
        let ser = self.require_type(variant);
        let r = ser.serialize_struct(name, len);
        proof {
            r.ser.lemma_follows_then(
                ser,
                self,
                seq![Op::RequireType(variant)],
                seq![Op::ProvideType(name), Op::BeginStruct],
            );
            assert(seq![Op::RequireType(variant)] + seq![Op::ProvideType(name), Op::BeginStruct]
                =~= seq![Op::RequireType(variant), Op::ProvideType(name), Op::BeginStruct]);
        }
        r
    }

    /// Encodes an optional value that is present: as the value itself, or
    /// as the newtype variant `Some` around it.
    pub fn serialize_some(self, value: &Value) -> (r: Self)
        requires
            value.encodable(self.options()),
            some_ok(value.starts_annotated(self.options()), self.annotated(), self.options()),
        ensures
            r.follows(self, some_ops(value.ops(self.options()), self.options())),
            !r.annotated(),
        decreases value, 5nat,
    {
        if self.opt.option_as_enum {
            self.serialize_newtype_variant("Option", 1, "Some", value)
        } else {
            value.serialize(self)
        }
    }

    /// Encodes a newtype struct: as the value that it wraps, or as a tuple
    /// of that one element; either way with the type's name offered.
    pub fn serialize_newtype_struct(self, name: &'static str, value: &Value) -> (r: Self)
        requires
            value.encodable(self.options()),
            newtype_struct_ok(
                value.starts_annotated(self.options()),
                self.annotated(),
                self.options(),
            ),
        ensures
            r.follows(self, newtype_struct_ops(name, value.ops(self.options()), self.options())),
            !r.annotated(),
        decreases value, 3nat,
    {
        let ghost opt = self.opt;
        if self.opt.newtype_as_tuple {
            let tuple = self.serialize_tuple_struct(name, 1);
            let filled = tuple.serialize_field(value);
            let r = filled.end();
            proof {
                let begin = seq![Op::ProvideType(name), Op::BeginTuple];
                let inner = element_ops(value.ops(opt));
                filled.session().lemma_follows_then(tuple.session(), self, begin, inner);
                r.lemma_follows_then(filled.session(), self, begin + inner, seq![Op::EndTuple]);
            }
            r
        } else {
            let ser = self.provide_type(name);
            let r = value.serialize(ser);
            proof {
                r.lemma_follows_then(ser, self, seq![Op::ProvideType(name)], value.ops(opt));
            }
            r
        }
    }

    /// Encodes a newtype variant: a newtype struct, annotated with the
    /// variant's name.
    pub fn serialize_newtype_variant(
        self,
        name: &'static str,
        variant_index: u32,
        variant: &'static str,
        value: &Value,
    ) -> (r: Self)
        requires
            value.encodable(self.options()),
            newtype_variant_ok(
                value.starts_annotated(self.options()),
                self.annotated(),
                self.options(),
            ),
        ensures
            r.follows(
                self,
                newtype_variant_ops(name, variant, value.ops(self.options()), self.options()),
            ),
            !r.annotated(),
        decreases value, 4nat,
    {
        let ghost opt = self.opt;
        let ser = self.require_type(variant);
        let r = ser.serialize_newtype_struct(name, value);
        proof {
            r.lemma_follows_then(
                ser,
                self,
                seq![Op::RequireType(variant)],
                newtype_struct_ops(name, value.ops(opt), opt),
            );
        }
        r
    }

    /// Opens a map, in the representation that the policies choose.
    pub fn serialize_map(self, len: Option<usize>) -> (r: MapSerializer<F>)
        ensures
            r.session().follows(self, map_begin_ops(self.options())),
            !r.key_written(),
    {
        let mut ser = self;
        match ser.opt.map_format {
            MapFormat::Infer => {
                ser.fmt.begin_map(&mut ser.sink);
                proof {
                    lemma_rendering_one(self.fmt, Op::BeginMap);
                    self.fmt.lemma_annotated(Op::BeginMap);
                }
            },
            MapFormat::Tuple => {
                ser = ser.begin_tuple();
            },
            MapFormat::Struct => {
                ser = ser.begin_struct();
            },
        }
        MapSerializer { ser, key_written: false }
    }

    /// The output is text meant to be read.
    pub fn is_human_readable(&self) -> (r: bool)
        ensures
            r,
    {
        true
    }
}

impl<F: Format> TupleSerializer<F> {
    #[verifier::type_invariant]
    spec fn nothing_waits(self) -> bool {
        !self.ser.fmt.annotated()
    }

    /// The session as it stands.
    pub closed spec fn session(self) -> Serializer<F> {
        self.ser
    }

    /// Encodes one element: the value as a field without a name.
    pub fn serialize_element(self, value: &Value) -> (r: Self)
        requires
            value.encodable(self.session().options()),
        ensures
            r.session().follows(
                self.session(),
                element_ops(value.ops(self.session().options())),
            ),
        decreases value, 1nat,
    {
        proof {
            use_type_invariant(&self);
        }
        let ghost opt = self.ser.opt;
        let begun = self.ser.begin_element();
        let written = value.serialize(begun);
        let r = written.end_element();
        proof {
            written.lemma_follows_then(begun, self.ser, seq![Op::BeginElement], value.ops(opt));
            r.lemma_follows_then(
                written,
                self.ser,
                seq![Op::BeginElement] + value.ops(opt),
                seq![Op::EndElement],
            );
        }
        TupleSerializer { ser: r }
    }

    /// Encodes one element of a tuple struct or of a tuple variant.
    pub fn serialize_field(self, value: &Value) -> (r: Self)
        requires
            value.encodable(self.session().options()),
        ensures
            r.session().follows(
                self.session(),
                element_ops(value.ops(self.session().options())),
            ),
        decreases value, 2nat,
    {
        self.serialize_element(value)
    }

    /// Closes the tuple.
    pub fn end(self) -> (r: Serializer<F>)
        ensures
            r.follows(self.session(), seq![Op::EndTuple]),
            !r.annotated(),
    {
        proof {
            use_type_invariant(&self);
        }
        self.ser.end_tuple()
    }
}

impl<F: Format> StructSerializer<F> {
    #[verifier::type_invariant]
    spec fn nothing_waits(self) -> bool {
        !self.ser.fmt.annotated()
    }

    /// The session as it stands.
    pub closed spec fn session(self) -> Serializer<F> {
        self.ser
    }

    /// Encodes one field: the value under the name `key`.
    pub fn serialize_field(self, key: &'static str, value: &Value) -> (r: Self)
        requires
            value.encodable(self.session().options()),
        ensures
            r.session().follows(
                self.session(),
                field_ops(key, value.ops(self.session().options())),
            ),
        decreases value, 1nat,
    {
        proof {
            use_type_invariant(&self);
        }
        let ghost opt = self.ser.opt;
        let begun = self.ser.begin_field(key);
        let written = value.serialize(begun);
        let r = written.end_field();
        proof {
            written.lemma_follows_then(
                begun,
                self.ser,
                seq![Op::BeginField(key)],
                value.ops(opt),
            );
            r.lemma_follows_then(
                written,
                self.ser,
                seq![Op::BeginField(key)] + value.ops(opt),
                seq![Op::EndField],
            );
        }
        StructSerializer { ser: r }
    }

    /// Closes the group.
    pub fn end(self) -> (r: Serializer<F>)
        ensures
            r.follows(self.session(), seq![Op::EndStruct]),
            !r.annotated(),
    {
        proof {
            use_type_invariant(&self);
        }
        self.ser.end_struct()
    }
}

impl<F: Format> MapSerializer<F> {
    #[verifier::type_invariant]
    spec fn nothing_waits(self) -> bool {
        !self.ser.fmt.annotated()
    }

    /// The session as it stands.
    pub closed spec fn session(self) -> Serializer<F> {
        self.ser
    }

    /// The key of an entry was written, and its value is still to come.
    pub closed spec fn key_written(self) -> bool {
        self.key_written
    }

    /// Encodes the key of the next entry. The value of the entry before it
    /// must have been written.
    pub fn serialize_key(self, key: &Value) -> (r: Self)
        requires
            !self.key_written(),
            key.encodable(self.session().options()),
        ensures
            r.key_written(),
            r.session().follows(
                self.session(),
                key_ops(key.ops(self.session().options()), self.session().options()),
            ),
        decreases key, 2nat,
    {
        proof {
            use_type_invariant(&self);
        }
        let ghost opt = self.ser.opt;
        let ghost inner = key.ops(opt);
        let MapSerializer { ser, key_written: _ } = self;
        let ghost start = ser;
        let r = match ser.opt.map_format {
            MapFormat::Infer => {
                let mut begun = ser;
                begun.fmt.begin_key(&mut begun.sink);
                proof {
                    lemma_rendering_one(start.fmt, Op::BeginKey);
                    start.fmt.lemma_annotated(Op::BeginKey);
                }
                let mut written = key.serialize(begun);
                let ghost middle = written;
                written.fmt.end_key(&mut written.sink);
                proof {
                    lemma_rendering_one(middle.fmt, Op::EndKey);
                    middle.fmt.lemma_annotated(Op::EndKey);
                    middle.lemma_follows_then(begun, start, seq![Op::BeginKey], inner);
                    written.lemma_follows_then(
                        middle,
                        start,
                        seq![Op::BeginKey] + inner,
                        seq![Op::EndKey],
                    );
                }
                written
            },
            MapFormat::Tuple => {
                let element = ser.begin_element();
                let tuple = element.begin_tuple();
                let filled = (TupleSerializer { ser: tuple }).serialize_element(key);
                proof {
                    tuple.lemma_follows_then(
                        element,
                        start,
                        seq![Op::BeginElement],
                        seq![Op::BeginTuple],
                    );
                    assert(seq![Op::BeginElement] + seq![Op::BeginTuple] =~= seq![
                        Op::BeginElement,
                        Op::BeginTuple,
                    ]);
                    filled.ser.lemma_follows_then(
                        tuple,
                        start,
                        seq![Op::BeginElement, Op::BeginTuple],
                        element_ops(inner),
                    );
                    use_type_invariant(&filled);
                }
                filled.ser
            },
            MapFormat::Struct => {
                let filled = (StructSerializer { ser }).serialize_field("key", key);
                proof {
                    use_type_invariant(&filled);
                }
                filled.ser
            },
        };
        MapSerializer { ser: r, key_written: true }
    }

    /// Encodes the value of the entry whose key was written last.
    pub fn serialize_value(self, value: &Value) -> (r: Self)
        requires
            self.key_written(),
            value.encodable(self.session().options()),
        ensures
            !r.key_written(),
            r.session().follows(
                self.session(),
                value_ops(value.ops(self.session().options()), self.session().options()),
            ),
        decreases value, 2nat,
    {
        proof {
            use_type_invariant(&self);
        }
        let ghost opt = self.ser.opt;
        let ghost inner = value.ops(opt);
        let MapSerializer { ser, key_written: _ } = self;
        let ghost start = ser;
        let r = match ser.opt.map_format {
            MapFormat::Infer => {
                let mut begun = ser;
                begun.fmt.begin_value(&mut begun.sink);
                proof {
                    lemma_rendering_one(start.fmt, Op::BeginValue);
                    start.fmt.lemma_annotated(Op::BeginValue);
                }
                let mut written = value.serialize(begun);
                let ghost middle = written;
                written.fmt.end_value(&mut written.sink);
                proof {
                    lemma_rendering_one(middle.fmt, Op::EndValue);
                    middle.fmt.lemma_annotated(Op::EndValue);
                    middle.lemma_follows_then(begun, start, seq![Op::BeginValue], inner);
                    written.lemma_follows_then(
                        middle,
                        start,
                        seq![Op::BeginValue] + inner,
                        seq![Op::EndValue],
                    );
                }
                written
            },
            MapFormat::Tuple => {
                let filled = (TupleSerializer { ser }).serialize_element(value);
                let tuple = filled.end();
                let element = tuple.end_element();
                proof {
                    tuple.lemma_follows_then(
                        filled.ser,
                        start,
                        element_ops(inner),
                        seq![Op::EndTuple],
                    );
                    element.lemma_follows_then(
                        tuple,
                        start,
                        element_ops(inner) + seq![Op::EndTuple],
                        seq![Op::EndElement],
                    );
                    assert(element_ops(inner) + seq![Op::EndTuple] + seq![Op::EndElement]
                        =~= element_ops(inner) + seq![Op::EndTuple, Op::EndElement]);
                }
                element
            },
            MapFormat::Struct => {
                let filled = (StructSerializer { ser }).serialize_field("value", value);
                proof {
                    use_type_invariant(&filled);
                }
                filled.ser
            },
        };
        MapSerializer { ser: r, key_written: false }
    }

    /// Closes the map. The value of the last entry must have been written.
    pub fn end(self) -> (r: Serializer<F>)
        requires
            !self.key_written(),
        ensures
            r.follows(self.session(), map_end_ops(self.session().options())),
            !r.annotated(),
    {
        proof {
            use_type_invariant(&self);
        }
        let mut ser = self.ser;
        match ser.opt.map_format {
            MapFormat::Infer => {
                ser.fmt.end_map(&mut ser.sink);
                proof {
                    lemma_rendering_one(self.ser.fmt, Op::EndMap);
                    self.ser.fmt.lemma_annotated(Op::EndMap);
                }
            },
            MapFormat::Tuple => {
                ser = ser.end_tuple();
            },
            MapFormat::Struct => {
                ser = ser.end_struct();
            },
        }
        ser
    }
}

impl Value {
    /// Whether encoding the value begins by setting a mandatory type
    /// annotation.
    pub fn sets_annotation(&self, opt: &Options) -> (r: bool)
        ensures
            r == self.starts_annotated(*opt),
        decreases self,
    {
        match self {
            Value::UnitVariant(..) => true,
            Value::NewtypeVariant(..) => true,
            Value::TupleVariant(..) => true,
            Value::StructVariant(..) => true,
            Value::Absent => opt.option_as_enum,
            Value::Present(v) => opt.option_as_enum || v.sets_annotation(opt),
            Value::NewtypeStruct(_, v) => !opt.newtype_as_tuple && v.sets_annotation(opt),
            _ => false,
        }
    }

    /// Whether the value can be encoded under the policies `opt`: whether
    /// encoding it never sets a second mandatory type annotation before the
    /// first is written.
    pub fn is_encodable(&self, opt: &Options) -> (r: bool)
        ensures
            r == self.encodable(*opt),
        decreases self,
    {
        match self {
            Value::Present(v) => v.is_encodable(opt) && !(opt.option_as_enum
                && !opt.newtype_as_tuple && v.sets_annotation(opt)),
            Value::NewtypeStruct(_, v) => v.is_encodable(opt),
            Value::NewtypeVariant(_, _, _, v) => v.is_encodable(opt) && !(!opt.newtype_as_tuple
                && v.sets_annotation(opt)),
            Value::Sequence(items) => are_elements_encodable(items, opt),
            Value::Tuple(items) => are_elements_encodable(items, opt),
            Value::TupleStruct(_, items) => are_elements_encodable(items, opt),
            Value::TupleVariant(_, _, _, items) => are_elements_encodable(items, opt),
            Value::Mapping(entries) => are_entries_encodable(entries, opt),
            Value::Struct(_, fields) => are_fields_encodable(fields, opt),
            Value::StructVariant(_, _, _, fields) => are_fields_encodable(fields, opt),
            _ => true,
        }
    }

    /// Whether encoding the value nests at most `limit` groups.
    pub fn nests_within(&self, opt: &Options, limit: u8) -> (r: bool)
        ensures
            r == (self.depth(*opt) <= limit),
        decreases self,
    {
        let unit: u8 = if opt.unit_as_tuple {
            1
        } else {
            0
        };
        match self {
            Value::Absent => !opt.option_as_enum || unit <= limit,
            Value::Unit => unit <= limit,
            Value::UnitStruct(_) => unit <= limit,
            Value::UnitVariant(..) => unit <= limit,
            Value::Present(v) => if opt.option_as_enum && opt.newtype_as_tuple {
                limit >= 1 && v.nests_within(opt, limit - 1)
            } else {
                v.nests_within(opt, limit)
            },
            Value::NewtypeStruct(_, v) => if opt.newtype_as_tuple {
                limit >= 1 && v.nests_within(opt, limit - 1)
            } else {
                v.nests_within(opt, limit)
            },
            Value::NewtypeVariant(_, _, _, v) => if opt.newtype_as_tuple {
                limit >= 1 && v.nests_within(opt, limit - 1)
            } else {
                v.nests_within(opt, limit)
            },
            Value::Sequence(items) => limit >= 1 && elements_nest_within(items, opt, limit - 1),
            Value::Tuple(items) => limit >= 1 && elements_nest_within(items, opt, limit - 1),
            Value::TupleStruct(_, items) => limit >= 1 && elements_nest_within(
                items,
                opt,
                limit - 1,
            ),
            Value::TupleVariant(_, _, _, items) => limit >= 1 && elements_nest_within(
                items,
                opt,
                limit - 1,
            ),
            Value::Mapping(entries) => match opt.map_format {
                MapFormat::Struct => limit >= 1 && entries_nest_within(entries, opt, limit - 1),
                _ => limit >= 2 && entries_nest_within(entries, opt, limit - 2),
            },
            Value::Struct(_, fields) => limit >= 1 && fields_nest_within(fields, opt, limit - 1),
            Value::StructVariant(_, _, _, fields) => limit >= 1 && fields_nest_within(
                fields,
                opt,
                limit - 1,
            ),
            _ => true,
        }
    }

    /// Encodes the value: asks the session for each of its pieces, in
    /// order.
    pub fn serialize<F: Format>(&self, ser: Serializer<F>) -> (r: Serializer<F>)
        requires
            ser.accepts(*self),
        ensures
            r.follows(ser, self.ops(ser.options())),
            !r.annotated(),
        decreases self, 0nat,
    {
        match self {
            Value::Bool(v) => ser.serialize_bool(*v),
            Value::U8(v) => ser.serialize_u8(*v),
            Value::U16(v) => ser.serialize_u16(*v),
            Value::U32(v) => ser.serialize_u32(*v),
            Value::U64(v) => ser.serialize_u64(*v),
            Value::U128(v) => ser.serialize_u128(*v),
            Value::I8(v) => ser.serialize_i8(*v),
            Value::I16(v) => ser.serialize_i16(*v),
            Value::I32(v) => ser.serialize_i32(*v),
            Value::I64(v) => ser.serialize_i64(*v),
            Value::I128(v) => ser.serialize_i128(*v),
            Value::Float(v) => ser.serialize_float(v.as_str()),
            Value::Char(v) => ser.serialize_char(*v),
            Value::Str(v) => ser.serialize_str(v.as_str()),
            Value::Bytes(v) => ser.serialize_bytes(v.as_slice()),
            Value::Absent => ser.serialize_none(),
            Value::Unit => ser.serialize_unit(),
            Value::UnitStruct(name) => ser.serialize_unit_struct(name),
            Value::UnitVariant(name, index, variant) => ser.serialize_unit_variant(
                name,
                *index,
                variant,
            ),
            Value::Sequence(items) => {
                let ghost begin = seq![Op::BeginTuple];
                let tuple = ser.serialize_seq(Some(items.len()));
                finish_elements(tuple, items, Ghost(ser), Ghost(begin))
            },
            Value::Tuple(items) => {
                let ghost begin = seq![Op::BeginTuple];
                let tuple = ser.serialize_tuple(items.len());
                finish_elements(tuple, items, Ghost(ser), Ghost(begin))
            },
            Value::TupleStruct(name, items) => {
                let ghost begin = seq![Op::ProvideType(*name), Op::BeginTuple];
                let tuple = ser.serialize_tuple_struct(name, items.len());
                finish_elements(tuple, items, Ghost(ser), Ghost(begin))
            },
            Value::TupleVariant(name, index, variant, items) => {
                let ghost begin = seq![Op::RequireType(*variant), Op::BeginTuple];
                let tuple = ser.serialize_tuple_variant(name, *index, variant, items.len());
                finish_elements(tuple, items, Ghost(ser), Ghost(begin))
            },
            Value::Struct(name, fields) => {
                let ghost begin = seq![Op::ProvideType(*name), Op::BeginStruct];
                let group = ser.serialize_struct(name, fields.len());
                finish_fields(group, fields, Ghost(ser), Ghost(begin))
            },
            Value::StructVariant(name, index, variant, fields) => {
                let ghost begin = seq![
                    Op::RequireType(*variant),
                    Op::ProvideType(*name),
                    Op::BeginStruct,
                ];
                let group = ser.serialize_struct_variant(name, *index, variant, fields.len());
                finish_fields(group, fields, Ghost(ser), Ghost(begin))
            },
            Value::Mapping(entries) => {
                let map = ser.serialize_map(Some(entries.len()));
                finish_entries(map, entries, Ghost(ser))
            },
            Value::Present(value) => ser.serialize_some(&**value),
            Value::NewtypeStruct(name, value) => ser.serialize_newtype_struct(name, &**value),
            Value::NewtypeVariant(name, index, variant, value) => ser.serialize_newtype_variant(
                name,
                *index,
                variant,
                &**value,
            ),
        }
    }
}

/// Whether every element nests at most `limit` groups.
fn elements_nest_within(items: &Vec<Value>, opt: &Options, limit: u8) -> (r: bool)
    ensures
        r == (elements_depth(items@, items@.len() as int, *opt) <= limit),
    decreases items,
{
    let mut i: usize = 0;
    while i < items.len()
        invariant
            i <= items@.len(),
            elements_depth(items@, i as int, *opt) <= limit,
        decreases items@.len() - i,
    {
        if !items[i].nests_within(opt, limit) {
            proof {
                lemma_elements_depth_grows(items@, i as int + 1, items@.len() as int, *opt);
            }
            return false;
        }
        i += 1;
    }
    true
}

/// Whether the value of every field nests at most `limit` groups.
fn fields_nest_within(fields: &Vec<(&'static str, Value)>, opt: &Options, limit: u8) -> (r: bool)
    ensures
        r == (fields_depth(fields@, fields@.len() as int, *opt) <= limit),
    decreases fields,
{
    let mut i: usize = 0;
    while i < fields.len()
        invariant
            i <= fields@.len(),
            fields_depth(fields@, i as int, *opt) <= limit,
        decreases fields@.len() - i,
    {
        if !fields[i].1.nests_within(opt, limit) {
            proof {
                lemma_fields_depth_grows(fields@, i as int + 1, fields@.len() as int, *opt);
            }
            return false;
        }
        i += 1;
    }
    true
}

/// Whether the key and the value of every entry nest at most `limit`
/// groups.
fn entries_nest_within(entries: &Vec<(Value, Value)>, opt: &Options, limit: u8) -> (r: bool)
    ensures
        r == (entries_depth(entries@, entries@.len() as int, *opt) <= limit),
    decreases entries,
{
    let mut i: usize = 0;
    while i < entries.len()
        invariant
            i <= entries@.len(),
            entries_depth(entries@, i as int, *opt) <= limit,
        decreases entries@.len() - i,
    {
        let entry = &entries[i];
        if !entry.0.nests_within(opt, limit) || !entry.1.nests_within(opt, limit) {
            proof {
                lemma_entries_depth_grows(entries@, i as int + 1, entries@.len() as int, *opt);
            }
            return false;
        }
        i += 1;
    }
    true
}

/// Whether every element can be encoded.
fn are_elements_encodable(items: &Vec<Value>, opt: &Options) -> (r: bool)
    ensures
        r == elements_encodable(items@, *opt),
    decreases items,
{
    let mut i: usize = 0;
    while i < items.len()
        invariant
            i <= items@.len(),
            forall|k: int| 0 <= k < i ==> (#[trigger] items@[k]).encodable(*opt),
        decreases items@.len() - i,
    {
        if !items[i].is_encodable(opt) {
            return false;
        }
        i += 1;
    }
    true
}

/// Whether the key and the value of every entry can be encoded.
fn are_entries_encodable(entries: &Vec<(Value, Value)>, opt: &Options) -> (r: bool)
    ensures
        r == entries_encodable(entries@, *opt),
    decreases entries,
{
    let mut i: usize = 0;
    while i < entries.len()
        invariant
            i <= entries@.len(),
            forall|k: int|
                0 <= k < i ==> (#[trigger] entries@[k]).0.encodable(*opt)
                    && entries@[k].1.encodable(*opt),
        decreases entries@.len() - i,
    {
        let entry = &entries[i];
        if !entry.0.is_encodable(opt) || !entry.1.is_encodable(opt) {
            return false;
        }
        i += 1;
    }
    true
}

/// Whether the value of every field can be encoded.
fn are_fields_encodable(fields: &Vec<(&'static str, Value)>, opt: &Options) -> (r: bool)
    ensures
        r == fields_encodable(fields@, *opt),
    decreases fields,
{
    let mut i: usize = 0;
    while i < fields.len()
        invariant
            i <= fields@.len(),
            forall|k: int| 0 <= k < i ==> (#[trigger] fields@[k]).1.encodable(*opt),
        decreases fields@.len() - i,
    {
        if !fields[i].1.is_encodable(opt) {
            return false;
        }
        i += 1;
    }
    true
}

/// Encodes the elements of a tuple that was opened, and closes it.
fn finish_elements<F: Format>(
    tuple: TupleSerializer<F>,
    items: &Vec<Value>,
    Ghost(before): Ghost<Serializer<F>>,
    Ghost(begin): Ghost<Seq<Op>>,
) -> (r: Serializer<F>)
    requires
        tuple.session().follows(before, begin),
        elements_encodable(items@, before.options()),
    ensures
        r.follows(
            before,
            begin + elements_ops(items@, items@.len() as int, before.options()) + seq![
                Op::EndTuple,
            ],
        ),
        !r.annotated(),
    decreases items, 1nat,
{
    let filled = serialize_elements(tuple, items);
    let r = filled.end();
    proof {
        let inner = elements_ops(items@, items@.len() as int, before.options());
        filled.session().lemma_follows_then(tuple.session(), before, begin, inner);
        r.lemma_follows_then(filled.session(), before, begin + inner, seq![Op::EndTuple]);
    }
    r
}

/// Encodes the fields of a struct that was opened, and closes it.
fn finish_fields<F: Format>(
    group: StructSerializer<F>,
    fields: &Vec<(&'static str, Value)>,
    Ghost(before): Ghost<Serializer<F>>,
    Ghost(begin): Ghost<Seq<Op>>,
) -> (r: Serializer<F>)
    requires
        group.session().follows(before, begin),
        fields_encodable(fields@, before.options()),
    ensures
        r.follows(
            before,
            begin + fields_ops(fields@, fields@.len() as int, before.options()) + seq![
                Op::EndStruct,
            ],
        ),
        !r.annotated(),
    decreases fields, 1nat,
{
    let filled = serialize_fields(group, fields);
    let r = filled.end();
    proof {
        let inner = fields_ops(fields@, fields@.len() as int, before.options());
        filled.session().lemma_follows_then(group.session(), before, begin, inner);
        r.lemma_follows_then(filled.session(), before, begin + inner, seq![Op::EndStruct]);
    }
    r
}

/// Encodes the entries of a map that was opened, and closes it.
fn finish_entries<F: Format>(
    map: MapSerializer<F>,
    entries: &Vec<(Value, Value)>,
    Ghost(before): Ghost<Serializer<F>>,
) -> (r: Serializer<F>)
    requires
        !map.key_written(),
        map.session().follows(before, map_begin_ops(before.options())),
        entries_encodable(entries@, before.options()),
    ensures
        r.follows(
            before,
            map_begin_ops(before.options()) + entries_ops(
                entries@,
                entries@.len() as int,
                before.options(),
            ) + map_end_ops(before.options()),
        ),
        !r.annotated(),
    decreases entries, 1nat,
{
    let filled = serialize_entries(map, entries);
    let r = filled.end();
    proof {
        let opt = before.options();
        let inner = entries_ops(entries@, entries@.len() as int, opt);
        filled.session().lemma_follows_then(map.session(), before, map_begin_ops(opt), inner);
        r.lemma_follows_then(
            filled.session(),
            before,
            map_begin_ops(opt) + inner,
            map_end_ops(opt),
        );
    }
    r
}

/// Encodes the fields of a struct, in order.
fn serialize_fields<F: Format>(
    group: StructSerializer<F>,
    fields: &Vec<(&'static str, Value)>,
) -> (r: StructSerializer<F>)
    requires
        fields_encodable(fields@, group.session().options()),
    ensures
        r.session().follows(
            group.session(),
            fields_ops(fields@, fields@.len() as int, group.session().options()),
        ),
    decreases fields, 0nat,
{
    let ghost opt = group.session().options();
    let mut group = group;
    let ghost start = group.session();
    proof {
        start.lemma_follows_nothing();
    }
    let mut i: usize = 0;
    while i < fields.len()
        invariant
            i <= fields@.len(),
            group.session().options() == opt,
            group.session().follows(start, fields_ops(fields@, i as int, opt)),
            fields_encodable(fields@, opt),
        decreases fields@.len() - i,
    {
        let ghost before = group.session();
        let field = &fields[i];
        group = group.serialize_field(field.0, &field.1);
        proof {
            group.session().lemma_follows_then(
                before,
                start,
                fields_ops(fields@, i as int, opt),
                field_ops(fields@[i as int].0, fields@[i as int].1.ops(opt)),
            );
        }
        i += 1;
    }
    group
}

/// Encodes the entries of a map, in order: of each the key, then the value.
fn serialize_entries<F: Format>(map: MapSerializer<F>, entries: &Vec<(Value, Value)>) -> (r:
    MapSerializer<F>)
    requires
        !map.key_written(),
        entries_encodable(entries@, map.session().options()),
    ensures
        !r.key_written(),
        r.session().follows(
            map.session(),
            entries_ops(entries@, entries@.len() as int, map.session().options()),
        ),
    decreases entries, 0nat,
{
    let ghost opt = map.session().options();
    let mut map = map;
    let ghost start = map.session();
    proof {
        start.lemma_follows_nothing();
    }
    let mut i: usize = 0;
    while i < entries.len()
        invariant
            i <= entries@.len(),
            !map.key_written(),
            map.session().options() == opt,
            map.session().follows(start, entries_ops(entries@, i as int, opt)),
            entries_encodable(entries@, opt),
        decreases entries@.len() - i,
    {
        let ghost before = map.session();
        let entry = &entries[i];
        map = map.serialize_key(&entry.0);
        let ghost middle = map.session();
        map = map.serialize_value(&entry.1);
        proof {
            let done = entries_ops(entries@, i as int, opt);
            let key = key_ops(entries@[i as int].0.ops(opt), opt);
            let value = value_ops(entries@[i as int].1.ops(opt), opt);
            middle.lemma_follows_then(before, start, done, key);
            map.session().lemma_follows_then(middle, start, done + key, value);
        }
        i += 1;
    }
    map
}

/// Encodes the elements of a tuple, in order.
fn serialize_elements<F: Format>(tuple: TupleSerializer<F>, items: &Vec<Value>) -> (r:
    TupleSerializer<F>)
    requires
        elements_encodable(items@, tuple.session().options()),
    ensures
        r.session().follows(
            tuple.session(),
            elements_ops(items@, items@.len() as int, tuple.session().options()),
        ),
    decreases items, 0nat,
{
    let ghost opt = tuple.session().options();
    let mut tuple = tuple;
    let ghost start = tuple.session();
    proof {
        start.lemma_follows_nothing();
    }
    let mut i: usize = 0;
    while i < items.len()
        invariant
            i <= items@.len(),
            tuple.session().options() == opt,
            tuple.session().follows(start, elements_ops(items@, i as int, opt)),
            elements_encodable(items@, opt),
        decreases items@.len() - i,
    {
        let ghost before = tuple.session();
        tuple = tuple.serialize_element(&items[i]);
        proof {
            tuple.session().lemma_follows_then(
                before,
                start,
                elements_ops(items@, i as int, opt),
                element_ops(items@[i as int].ops(opt)),
            );
        }
        i += 1;
    }
    tuple
}

/// The compact text of `value` under the policies `opt`: what the compact
/// formatter writes, from the start of a document, for the operations of
/// the value.
pub open spec fn compact_text(value: Value, opt: Options) -> Seq<char> {
    rendering(SimpleFormatter::start(), value.ops(opt))
}

/// The state in which the human formatter starts a document under the
/// policies `opt`.
pub open spec fn human_start(opt: Options) -> HumanFormatter {
    if opt.force_root_node {
        HumanFormatter::start_with_root_node()
    } else {
        HumanFormatter::start()
    }
}

/// The laid-out text of `value` under the policies `opt`: what the human
/// formatter writes, from the start of a document, for the operations of
/// the value.
pub open spec fn human_text(value: Value, opt: Options) -> Seq<char> {
    rendering(human_start(opt), value.ops(opt))
}

/// Encodes `value` compactly under the policies `opt`. This never fails:
/// the result is the compact form of the value under the placeholder `-`,
/// which is what the compact formatter writes for the operations of the
/// value.
pub fn to_string_ugly_with_options(value: &Value, opt: Options) -> (r: Result<String>)
    requires
        value.encodable(opt),
    ensures
        r matches Ok(text) && text@ == value.compact(None, Some("-"), opt) && text@
            == compact_text(*value, opt),
{
    let ser = Serializer::new_with_options(String::new(), SimpleFormatter::new(), opt);
    let done = value.serialize(ser);
    assert(done.text() =~= compact_text(*value, opt));
    proof {
        lemma_compact_text_is_compact_form(*value, opt);
    }
    Ok(done.into_sink())
}

/// Encodes `value` compactly under the standard policies. This never
/// fails.
pub fn to_string_ugly(value: &Value) -> (r: Result<String>)
    requires
        value.encodable(Options::standard()),
    ensures
        r matches Ok(text) && text@ == value.compact(None, Some("-"), Options::standard())
            && text@ == compact_text(*value, Options::standard()),
{
    to_string_ugly_with_options(value, Options::default())
}

/// Encodes `value` compactly under the standard policies, as the bytes of
/// the text in UTF-8. This never fails.
pub fn to_vec_ugly(value: &Value) -> (r: Result<Vec<u8>>)
    requires
        value.encodable(Options::standard()),
    ensures
        r matches Ok(bytes) && bytes@ == vstd::utf8::encode_utf8(
            value.compact(None, Some("-"), Options::standard()),
        ) && bytes@ == vstd::utf8::encode_utf8(compact_text(*value, Options::standard())),
{
    match to_string_ugly(value) {
        Ok(text) => Ok(text.as_str().as_bytes_vec()),
        Err(e) => Err(e),
    }
}

/// Encodes `value` laid out to be read, under the policies `opt`. This
/// never fails: the result is what the human formatter writes for the
/// operations of the value. Where the value nests at most 63 groups, that
/// is the layout of the value from the first column under the placeholder
/// `-`; deeper, the indentation has stopped growing and the text is no
/// longer that layout.
pub fn to_string_with_options(value: &Value, opt: Options) -> (r: Result<String>)
    requires
        value.encodable(opt),
    ensures
        r matches Ok(text) && text@ == human_text(*value, opt) && (value.depth(opt) <= 63
            ==> text@ == value.human(!opt.force_root_node, 0, None, Some("-"), opt)),
{
    proof {
        if value.depth(opt) <= 63 {
            lemma_human_text_is_human_form(*value, opt);
        }
    }
    let fmt = if opt.force_root_node {
        HumanFormatter::with_root_node()
    } else {
        HumanFormatter::new()
    };
    let ser = Serializer::new_with_options(String::new(), fmt, opt);
    let done = value.serialize(ser);
    assert(done.text() =~= human_text(*value, opt));
    Ok(done.into_sink())
}

/// Encodes `value` laid out to be read, under the standard policies. This
/// never fails.
pub fn to_string(value: &Value) -> (r: Result<String>)
    requires
        value.encodable(Options::standard()),
    ensures
        r matches Ok(text) && text@ == human_text(*value, Options::standard()) && (value.depth(
            Options::standard(),
        ) <= 63 ==> text@ == value.human(true, 0, None, Some("-"), Options::standard())),
{
    to_string_with_options(value, Options::default())
}

} // verus!
