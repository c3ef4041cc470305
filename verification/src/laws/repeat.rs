//! Encoding is a function of the value, the policies and the formatter.

use crate::format::{rendering, Format};
use crate::ser::Serializer;
use crate::value::Value;
use vstd::prelude::*;

verus! {

/// Encoding is repeatable. Two sessions with the same policies, whose
/// formatters are in the same state, write the same text for the same value
/// and leave their formatters in the same state, whatever their sinks held
/// before.
pub proof fn lemma_encoding_repeatable<F: Format>(
    first: Serializer<F>,
    first_done: Serializer<F>,
    second: Serializer<F>,
    second_done: Serializer<F>,
    value: Value,
)
    requires
        first.options() == second.options(),
        first.formatter() == second.formatter(),
        first_done.follows(first, value.ops(first.options())),
        second_done.follows(second, value.ops(second.options())),
    ensures
        first_done.formatter() == second_done.formatter(),
        first_done.text().skip(first.text().len() as int) == second_done.text().skip(
            second.text().len() as int,
        ),
        first.text() == second.text() ==> first_done.text() == second_done.text(),
{
    let written = rendering(first.formatter(), value.ops(first.options()));
    assert(first_done.text().skip(first.text().len() as int) =~= written);
    assert(second_done.text().skip(second.text().len() as int) =~= written);
}

} // verus!
