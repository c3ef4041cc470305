//! The discipline that a session keeps toward a formatter, stated over
//! operations alone: mandatory type annotations are set one at a time,
//! every value is written under a name, and what is opened is closed,
//! innermost first.

use crate::format::{end_state, Format, Op};
use vstd::prelude::*;

verus! {

/// What is open while a value is encoded.
pub enum Frame {
    /// A tuple.
    Tuple,
    /// An element of a tuple.
    Element,
    /// A group of named fields.
    Struct,
    /// A field.
    Field,
    /// A map.
    Dict,
    /// An entry of a map.
    Entry,
    /// The key of an entry.
    Key,
    /// The value of an entry.
    EntryValue,
}

/// `stack` without its last frame, where that frame is `top`.
pub open spec fn close(stack: Seq<Frame>, top: Frame) -> Option<Seq<Frame>> {
    if stack.len() > 0 && stack.last() == top {
        Some(stack.drop_last())
    } else {
        None
    }
}

/// `open` starts a tuple, a group of named fields or a map, and `close`
/// ends the same.
pub open spec fn group_pair(open: Op, close: Op) -> bool {
    ||| open is BeginTuple && close is EndTuple
    ||| open is BeginStruct && close is EndStruct
    ||| open is BeginMap && close is EndMap
}

/// `open` starts an element or a field, and `close` ends the same.
pub open spec fn field_pair(open: Op, close: Op) -> bool {
    ||| open is BeginElement && close is EndElement
    ||| open is BeginField && close is EndField
}

impl Op {
    /// The operation writes a value or opens a group under the field name
    /// that waits. (The start of an entry brings its own name.)
    pub open spec fn takes_name(self) -> bool {
        self.is_value() && !(self is BeginKey)
    }

    /// Whether a field name waits after the operation, given whether one
    /// waited before it.
    pub open spec fn names(self, named: bool) -> bool {
        match self {
            Op::BeginElement | Op::BeginField(_) | Op::BeginKey | Op::BeginValue => true,
            _ => if self.is_value() {
                false
            } else {
                named
            },
        }
    }

    /// Whether the operation may be asked, given whether a mandatory type
    /// annotation is waiting: a second one may not be set before the first
    /// is written.
    pub open spec fn allowed(self, waiting: bool) -> bool {
        self is RequireType ==> !waiting
    }

    /// The frame that the operation opens, where it opens one alone.
    pub open spec fn frame(self) -> Frame {
        match self {
            Op::BeginTuple | Op::EndTuple => Frame::Tuple,
            Op::BeginElement | Op::EndElement => Frame::Element,
            Op::BeginStruct | Op::EndStruct => Frame::Struct,
            Op::BeginField(_) | Op::EndField => Frame::Field,
            Op::BeginKey | Op::EndKey => Frame::Key,
            Op::BeginValue | Op::EndValue => Frame::EntryValue,
            _ => Frame::Dict,
        }
    }

    /// What is open after the operation, given what was open before it,
    /// innermost last; nothing where the operation closes what is not the
    /// innermost open frame, or starts the value of an entry outside one.
    pub open spec fn frames(self, stack: Seq<Frame>) -> Option<Seq<Frame>> {
        match self {
            Op::BeginTuple | Op::BeginElement | Op::BeginStruct | Op::BeginField(_)
            | Op::BeginMap => Some(stack.push(self.frame())),
            Op::EndTuple | Op::EndElement | Op::EndStruct | Op::EndField | Op::EndMap
            | Op::EndKey => close(stack, self.frame()),
            Op::BeginKey => Some(stack.push(Frame::Entry).push(Frame::Key)),
            Op::BeginValue => if stack.len() > 0 && stack.last() == Frame::Entry {
                Some(stack.push(Frame::EntryValue))
            } else {
                None
            },
            Op::EndValue => match close(stack, Frame::EntryValue) {
                Some(entry) => close(entry, Frame::Entry),
                None => None,
            },
            _ => Some(stack),
        }
    }
}

/// What is open after `ops`, given what was open before them; nothing
/// where one of them breaks the nesting.
pub open spec fn frames_after(ops: Seq<Op>, stack: Seq<Frame>) -> Option<Seq<Frame>>
    decreases ops.len(),
{
    if ops.len() == 0 {
        Some(stack)
    } else {
        match frames_after(ops.drop_last(), stack) {
            Some(open) => ops.last().frames(open),
            None => None,
        }
    }
}

/// Whether a mandatory type annotation waits after `ops`, given whether
/// one waited before them.
pub open spec fn waiting_after(ops: Seq<Op>, waiting: bool) -> bool
    decreases ops.len(),
{
    if ops.len() == 0 {
        waiting
    } else {
        ops.last().annotates(waiting_after(ops.drop_last(), waiting))
    }
}

/// Every operation of `ops` may be asked in its turn, given whether a
/// mandatory type annotation waited before them: none sets a second one
/// before the first is written.
pub open spec fn all_allowed(ops: Seq<Op>, waiting: bool) -> bool
    decreases ops.len(),
{
    ops.len() == 0 || (all_allowed(ops.drop_last(), waiting) && ops.last().allowed(
        waiting_after(ops.drop_last(), waiting),
    ))
}

/// Whether a field name waits after `ops`, given whether one waited
/// before them.
pub open spec fn named_after(ops: Seq<Op>, named: bool) -> bool
    decreases ops.len(),
{
    if ops.len() == 0 {
        named
    } else {
        ops.last().names(named_after(ops.drop_last(), named))
    }
}

/// Every value and every group of `ops` is written under a field name,
/// given whether a name waited before them.
pub open spec fn all_named(ops: Seq<Op>, named: bool) -> bool
    decreases ops.len(),
{
    ops.len() == 0 || (all_named(ops.drop_last(), named) && (ops.last().takes_name()
        ==> named_after(ops.drop_last(), named)))
}

/// Whether an annotation waits after `a + b`, and whether all of `a + b`
/// may be asked, from the same of `a` and of `b`.
pub proof fn lemma_allowed_concat(a: Seq<Op>, b: Seq<Op>, waiting: bool)
    ensures
        waiting_after(a + b, waiting) == waiting_after(b, waiting_after(a, waiting)),
        all_allowed(a + b, waiting) == (all_allowed(a, waiting) && all_allowed(
            b,
            waiting_after(a, waiting),
        )),
    decreases b.len(),
{
    if b.len() == 0 {
        assert(a + b =~= a);
    } else {
        lemma_allowed_concat(a, b.drop_last(), waiting);
        assert((a + b).drop_last() =~= a + b.drop_last());
        assert((a + b).last() == b.last());
    }
}

/// One operation alone: whether it may be asked, and whether an annotation
/// waits after it.
pub proof fn lemma_allowed_one(op: Op, waiting: bool)
    ensures
        waiting_after(seq![op], waiting) == op.annotates(waiting),
        all_allowed(seq![op], waiting) == op.allowed(waiting),
{
    let ops = seq![op];
    assert(ops.drop_last() =~= Seq::<Op>::empty());
    assert(ops.last() == op);
    assert(waiting_after(ops.drop_last(), waiting) == waiting);
    assert(all_allowed(ops.drop_last(), waiting));
}

/// A formatter has an annotation waiting after `ops` exactly where the
/// operations leave one waiting.
pub proof fn lemma_annotated_after<F: Format>(fmt: F, ops: Seq<Op>)
    ensures
        end_state(fmt, ops).annotated() == waiting_after(ops, fmt.annotated()),
    decreases ops.len(),
{
    if ops.len() > 0 {
        lemma_annotated_after(fmt, ops.drop_last());
        end_state(fmt, ops.drop_last()).lemma_annotated(ops.last());
    }
}

/// What is open after `a + b`, from what is open after `a`.
pub proof fn lemma_frames_concat(a: Seq<Op>, b: Seq<Op>, stack: Seq<Frame>)
    ensures
        frames_after(a + b, stack) == match frames_after(a, stack) {
            Some(open) => frames_after(b, open),
            None => None,
        },
    decreases b.len(),
{
    if b.len() == 0 {
        assert(a + b =~= a);
    } else {
        lemma_frames_concat(a, b.drop_last(), stack);
        assert((a + b).drop_last() =~= a + b.drop_last());
        assert((a + b).last() == b.last());
    }
}

/// What is open after one operation alone.
pub proof fn lemma_frames_one(op: Op, stack: Seq<Frame>)
    ensures
        frames_after(seq![op], stack) == op.frames(stack),
{
    let ops = seq![op];
    assert(ops.drop_last() =~= Seq::<Op>::empty());
    assert(ops.last() == op);
    assert(frames_after(ops.drop_last(), stack) == Some(stack));
}

/// Whether a name waits after `a + b`, and whether all of `a + b` is
/// named, from the same of `a` and of `b`.
pub proof fn lemma_named_concat(a: Seq<Op>, b: Seq<Op>, named: bool)
    ensures
        named_after(a + b, named) == named_after(b, named_after(a, named)),
        all_named(a + b, named) == (all_named(a, named) && all_named(b, named_after(a, named))),
    decreases b.len(),
{
    if b.len() == 0 {
        assert(a + b =~= a);
    } else {
        lemma_named_concat(a, b.drop_last(), named);
        assert((a + b).drop_last() =~= a + b.drop_last());
        assert((a + b).last() == b.last());
    }
}

/// One operation alone: whether it is named, and whether a name waits
/// after it.
pub proof fn lemma_named_one(op: Op, named: bool)
    ensures
        named_after(seq![op], named) == op.names(named),
        all_named(seq![op], named) == (op.takes_name() ==> named),
{
    let ops = seq![op];
    assert(ops.drop_last() =~= Seq::<Op>::empty());
    assert(ops.last() == op);
    assert(named_after(ops.drop_last(), named) == named);
    assert(all_named(ops.drop_last(), named));
}

} // verus!
