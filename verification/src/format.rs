//! The operations that an encoding session asks of a formatter, and the
//! contract that every formatter meets.

use vstd::prelude::*;

verus! {

/// One operation of a formatter, as a value: what was asked, without the
/// sink.
pub enum Op {
    /// A type name that the formatter may show.
    ProvideType(&'static str),
    /// A type name that the formatter must show with the next value.
    RequireType(&'static str),
    /// A boolean.
    Bool(bool),
    /// An integer of any width.
    Int(int),
    /// A floating-point number, by its decimal text.
    Float(Seq<char>),
    /// The null literal.
    Null,
    /// A string.
    Str(Seq<char>),
    /// A byte sequence.
    Bytes(Seq<u8>),
    /// The start of a tuple.
    BeginTuple,
    /// The start of an element of a tuple.
    BeginElement,
    /// The end of an element.
    EndElement,
    /// The end of a tuple.
    EndTuple,
    /// The start of a group of named fields.
    BeginStruct,
    /// The start of a field, with its name.
    BeginField(&'static str),
    /// The end of a field.
    EndField,
    /// The end of a group of named fields.
    EndStruct,
    /// The start of a map.
    BeginMap,
    /// The start of an entry of a map, and of its key.
    BeginKey,
    /// The end of a key.
    EndKey,
    /// The start of the value of an entry.
    BeginValue,
    /// The end of a value, and of its entry.
    EndValue,
    /// The end of a map.
    EndMap,
}

impl Op {
    /// The operation writes a value or opens a group, and so takes up the
    /// type annotation that is waiting.
    pub open spec fn is_value(self) -> bool {
        match self {
            Op::Bool(_) | Op::Int(_) | Op::Float(_) | Op::Null | Op::Str(_) | Op::Bytes(_) => true,
            Op::BeginTuple | Op::BeginStruct | Op::BeginMap | Op::BeginKey => true,
            _ => false,
        }
    }

    /// The operation opens a tuple, a group of named fields or a map.
    pub open spec fn opens_group(self) -> bool {
        self is BeginTuple || self is BeginStruct || self is BeginMap
    }

    /// The name under which the value of a field is written: its own, or
    /// the placeholder `-` for an element.
    pub open spec fn field_name(self) -> &'static str {
        match self {
            Op::BeginField(name) => name,
            _ => "-",
        }
    }

    /// Whether a mandatory type annotation is waiting after the operation,
    /// given whether one was waiting before it.
    pub open spec fn annotates(self, waiting: bool) -> bool {
        if self is RequireType {
            true
        } else if self.is_value() {
            false
        } else {
            waiting
        }
    }
}

/// An output strategy: for each operation, the text that it appends to the
/// sink and the state in which it leaves the formatter.
pub trait Format: Sized {
    /// Whether a mandatory type annotation waits for the next value.
    spec fn annotated(&self) -> bool;

    /// The text that `op` appends to the sink in this state.
    spec fn text(&self, op: Op) -> Seq<char>;

    /// The state in which `op` leaves the formatter.
    spec fn next(&self, op: Op) -> Self;

    /// A mandatory type annotation waits from the operation that sets it
    /// until the next operation that writes a value or opens a group.
    proof fn lemma_annotated(&self, op: Op)
        ensures
            self.next(op).annotated() == op.annotates(self.annotated()),
    ;

    /// Offers a type name. The formatter may ignore it.
    fn provide_type_annotation(&mut self, s: &mut String, ty: &'static str)
        ensures
            *final(self) == old(self).next(Op::ProvideType(ty)),
            final(s)@ == old(s)@ + old(self).text(Op::ProvideType(ty)),
    ;

    /// Sets the type name that is written with the next value.
    fn require_type_annotation(&mut self, s: &mut String, ty: &'static str)
        requires
            !old(self).annotated(),
        ensures
            *final(self) == old(self).next(Op::RequireType(ty)),
            final(s)@ == old(s)@ + old(self).text(Op::RequireType(ty)),
    ;

    /// Writes a boolean.
    fn write_bool(&mut self, s: &mut String, v: bool)
        ensures
            *final(self) == old(self).next(Op::Bool(v)),
            final(s)@ == old(s)@ + old(self).text(Op::Bool(v)),
    ;

    /// Writes an integer.
    fn write_u8(&mut self, s: &mut String, v: u8)
        ensures
            *final(self) == old(self).next(Op::Int(v as int)),
            final(s)@ == old(s)@ + old(self).text(Op::Int(v as int)),
    ;

    /// Writes an integer.
    fn write_u16(&mut self, s: &mut String, v: u16)
        ensures
            *final(self) == old(self).next(Op::Int(v as int)),
            final(s)@ == old(s)@ + old(self).text(Op::Int(v as int)),
    ;

    /// Writes an integer.
    fn write_u32(&mut self, s: &mut String, v: u32)
        ensures
            *final(self) == old(self).next(Op::Int(v as int)),
            final(s)@ == old(s)@ + old(self).text(Op::Int(v as int)),
    ;

    /// Writes an integer.
    fn write_u64(&mut self, s: &mut String, v: u64)
        ensures
            *final(self) == old(self).next(Op::Int(v as int)),
            final(s)@ == old(s)@ + old(self).text(Op::Int(v as int)),
    ;

    /// Writes an integer.
    fn write_u128(&mut self, s: &mut String, v: u128)
        ensures
            *final(self) == old(self).next(Op::Int(v as int)),
            final(s)@ == old(s)@ + old(self).text(Op::Int(v as int)),
    ;

    /// Writes an integer.
    fn write_i8(&mut self, s: &mut String, v: i8)
        ensures
            *final(self) == old(self).next(Op::Int(v as int)),
            final(s)@ == old(s)@ + old(self).text(Op::Int(v as int)),
    ;

    /// Writes an integer.
    fn write_i16(&mut self, s: &mut String, v: i16)
        ensures
            *final(self) == old(self).next(Op::Int(v as int)),
            final(s)@ == old(s)@ + old(self).text(Op::Int(v as int)),
    ;

    /// Writes an integer.
    fn write_i32(&mut self, s: &mut String, v: i32)
        ensures
            *final(self) == old(self).next(Op::Int(v as int)),
            final(s)@ == old(s)@ + old(self).text(Op::Int(v as int)),
    ;

    /// Writes an integer.
    fn write_i64(&mut self, s: &mut String, v: i64)
        ensures
            *final(self) == old(self).next(Op::Int(v as int)),
            final(s)@ == old(s)@ + old(self).text(Op::Int(v as int)),
    ;

    /// Writes an integer.
    fn write_i128(&mut self, s: &mut String, v: i128)
        ensures
            *final(self) == old(self).next(Op::Int(v as int)),
            final(s)@ == old(s)@ + old(self).text(Op::Int(v as int)),
    ;

    /// Writes a floating-point number, given by its decimal text.
    fn write_float(&mut self, s: &mut String, v: &str)
        ensures
            *final(self) == old(self).next(Op::Float(v@)),
            final(s)@ == old(s)@ + old(self).text(Op::Float(v@)),
    ;

    /// Writes the null literal.
    fn write_null(&mut self, s: &mut String)
        ensures
            *final(self) == old(self).next(Op::Null),
            final(s)@ == old(s)@ + old(self).text(Op::Null),
    ;

    /// Writes a string.
    fn write_string(&mut self, s: &mut String, v: &str)
        ensures
            *final(self) == old(self).next(Op::Str(v@)),
            final(s)@ == old(s)@ + old(self).text(Op::Str(v@)),
    ;

    /// Writes a byte sequence.
    fn write_bytes(&mut self, s: &mut String, v: &[u8])
        ensures
            *final(self) == old(self).next(Op::Bytes(v@)),
            final(s)@ == old(s)@ + old(self).text(Op::Bytes(v@)),
    ;

    /// Opens a tuple.
    fn begin_tuple(&mut self, s: &mut String)
        ensures
            *final(self) == old(self).next(Op::BeginTuple),
            final(s)@ == old(s)@ + old(self).text(Op::BeginTuple),
    ;

    /// Starts an element of a tuple.
    fn begin_element(&mut self, s: &mut String)
        ensures
            *final(self) == old(self).next(Op::BeginElement),
            final(s)@ == old(s)@ + old(self).text(Op::BeginElement),
    ;

    /// Ends an element.
    fn end_element(&mut self, s: &mut String)
        ensures
            *final(self) == old(self).next(Op::EndElement),
            final(s)@ == old(s)@ + old(self).text(Op::EndElement),
    ;

    /// Closes a tuple.
    fn end_tuple(&mut self, s: &mut String)
        ensures
            *final(self) == old(self).next(Op::EndTuple),
            final(s)@ == old(s)@ + old(self).text(Op::EndTuple),
    ;

    /// Opens a group of named fields.
    fn begin_struct(&mut self, s: &mut String)
        ensures
            *final(self) == old(self).next(Op::BeginStruct),
            final(s)@ == old(s)@ + old(self).text(Op::BeginStruct),
    ;

    /// Starts a field: sets the name under which the next value is written.
    fn begin_field(&mut self, s: &mut String, name: &'static str)
        ensures
            *final(self) == old(self).next(Op::BeginField(name)),
            final(s)@ == old(s)@ + old(self).text(Op::BeginField(name)),
    ;

    /// Ends a field.
    fn end_field(&mut self, s: &mut String)
        ensures
            *final(self) == old(self).next(Op::EndField),
            final(s)@ == old(s)@ + old(self).text(Op::EndField),
    ;

    /// Closes a group of named fields.
    fn end_struct(&mut self, s: &mut String)
        ensures
            *final(self) == old(self).next(Op::EndStruct),
            final(s)@ == old(s)@ + old(self).text(Op::EndStruct),
    ;

    /// Opens a map.
    fn begin_map(&mut self, s: &mut String)
        ensures
            *final(self) == old(self).next(Op::BeginMap),
            final(s)@ == old(s)@ + old(self).text(Op::BeginMap),
    ;

    /// Starts an entry of a map, and its key.
    fn begin_key(&mut self, s: &mut String)
        ensures
            *final(self) == old(self).next(Op::BeginKey),
            final(s)@ == old(s)@ + old(self).text(Op::BeginKey),
    ;

    /// Ends the key of an entry.
    fn end_key(&mut self, s: &mut String)
        ensures
            *final(self) == old(self).next(Op::EndKey),
            final(s)@ == old(s)@ + old(self).text(Op::EndKey),
    ;

    /// Starts the value of an entry.
    fn begin_value(&mut self, s: &mut String)
        ensures
            *final(self) == old(self).next(Op::BeginValue),
            final(s)@ == old(s)@ + old(self).text(Op::BeginValue),
    ;

    /// Ends the value of an entry, and the entry.
    fn end_value(&mut self, s: &mut String)
        ensures
            *final(self) == old(self).next(Op::EndValue),
            final(s)@ == old(s)@ + old(self).text(Op::EndValue),
    ;

    /// Closes a map.
    fn end_map(&mut self, s: &mut String)
        ensures
            *final(self) == old(self).next(Op::EndMap),
            final(s)@ == old(s)@ + old(self).text(Op::EndMap),
    ;
}

/// The state in which a formatter is after `ops`, asked in order from the
/// state `fmt`.
pub open spec fn end_state<F: Format>(fmt: F, ops: Seq<Op>) -> F
    decreases ops.len(),
{
    if ops.len() == 0 {
        fmt
    } else {
        end_state(fmt, ops.drop_last()).next(ops.last())
    }
}

/// The text that a formatter writes for `ops`, asked in order from the
/// state `fmt`.
pub open spec fn rendering<F: Format>(fmt: F, ops: Seq<Op>) -> Seq<char>
    decreases ops.len(),
{
    if ops.len() == 0 {
        Seq::empty()
    } else {
        rendering(fmt, ops.drop_last()) + end_state(fmt, ops.drop_last()).text(ops.last())
    }
}

/// Asking `a` and then `b` is asking `a + b`.
pub proof fn lemma_rendering_concat<F: Format>(fmt: F, a: Seq<Op>, b: Seq<Op>)
    ensures
        end_state(fmt, a + b) == end_state(end_state(fmt, a), b),
        rendering(fmt, a + b) == rendering(fmt, a) + rendering(end_state(fmt, a), b),
    decreases b.len(),
{
    if b.len() == 0 {
        assert(a + b =~= a);
        assert(rendering(fmt, a) + Seq::<char>::empty() =~= rendering(fmt, a));
    } else {
        lemma_rendering_concat(fmt, a, b.drop_last());
        assert((a + b).drop_last() =~= a + b.drop_last());
        assert((a + b).last() == b.last());
        assert(rendering(fmt, a + b) =~= rendering(fmt, a) + rendering(end_state(fmt, a), b));
    }
}

/// One operation alone: its text, and the state after it.
pub proof fn lemma_rendering_one<F: Format>(fmt: F, op: Op)
    ensures
        end_state(fmt, seq![op]) == fmt.next(op),
        rendering(fmt, seq![op]) == fmt.text(op),
{
    let ops = seq![op];
    assert(ops.drop_last() =~= Seq::<Op>::empty());
    assert(ops.last() == op);
    assert(end_state(fmt, ops.drop_last()) == fmt);
    assert(rendering(fmt, ops.drop_last()) =~= Seq::<char>::empty());
    assert(Seq::<char>::empty() + fmt.text(op) =~= fmt.text(op));
}

/// The first operation and the rest: the text of the first, then the text
/// of the rest from the state after the first.
pub proof fn lemma_rendering_first<F: Format>(fmt: F, op: Op, rest: Seq<Op>)
    ensures
        rendering(fmt, seq![op] + rest) == fmt.text(op) + rendering(fmt.next(op), rest),
        end_state(fmt, seq![op] + rest) == end_state(fmt.next(op), rest),
{
    lemma_rendering_one(fmt, op);
    lemma_rendering_concat(fmt, seq![op], rest);
}

/// All but the last operation and the last: the text of the former, then
/// the text of the last from the state after them.
pub proof fn lemma_rendering_last<F: Format>(fmt: F, body: Seq<Op>, op: Op)
    ensures
        rendering(fmt, body + seq![op]) == rendering(fmt, body) + end_state(fmt, body).text(op),
        end_state(fmt, body + seq![op]) == end_state(fmt, body).next(op),
{
    lemma_rendering_one(end_state(fmt, body), op);
    lemma_rendering_concat(fmt, body, seq![op]);
}

} // verus!
