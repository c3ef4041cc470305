//! The pieces of text that both formatters write: numbers, raw strings,
//! names and base64.

use crate::lex::{
    closes_at, count_needed_hashes, fence, is_bare_identifier, is_least_fence,
    is_valid_kdl_identifier, lemma_least_fence_unique,
};
use vstd::prelude::*;

verus! {

/// The character of the decimal digit `d`.
pub open spec fn digit(d: nat) -> char {
    seq!['0', '1', '2', '3', '4', '5', '6', '7', '8', '9'][d as int]
}

/// `n` in decimal, without leading zeros.
pub open spec fn decimal(n: nat) -> Seq<char>
    decreases n,
{
    if n < 10 {
        seq![digit(n)]
    } else {
        decimal(n / 10).push(digit(n % 10))
    }
}

/// `i` in decimal, with a minus sign where it is negative.
pub open spec fn integer_text(i: int) -> Seq<char> {
    if i < 0 {
        seq!['-'] + decimal((-i) as nat)
    } else {
        decimal(i as nat)
    }
}

/// `true` or `false`.
pub open spec fn bool_text(b: bool) -> Seq<char> {
    if b {
        "true"@
    } else {
        "false"@
    }
}

/// `n` hashes.
pub open spec fn hashes(n: nat) -> Seq<char> {
    Seq::new(n, |i: int| '#')
}

/// `s` as a raw string: `r`, the hashes, and `s` between quotes, followed
/// by the hashes again.
pub open spec fn raw_string(s: Seq<char>) -> Seq<char> {
    seq!['r'] + hashes(fence(s)) + seq!['"'] + s + seq!['"'] + hashes(fence(s))
}

/// A name as it is written: bare where it may be, else as a raw string.
pub open spec fn name_text(s: Seq<char>) -> Seq<char> {
    if is_bare_identifier(s) {
        s
    } else {
        raw_string(s)
    }
}

/// The text of a type annotation that waits: the name between round
/// brackets.
pub open spec fn annotation_text(ty: Option<&'static str>) -> Seq<char> {
    match ty {
        Some(name) => "("@ + name_text(name@) + ")"@,
        None => Seq::empty(),
    }
}

/// The text of a field name that waits: the name and a space.
pub open spec fn field_text(field: Option<&'static str>) -> Seq<char> {
    match field {
        Some(name) => name_text(name@) + " "@,
        None => Seq::empty(),
    }
}

/// `inner` between two quotes.
pub open spec fn quoted(inner: Seq<char>) -> Seq<char> {
    seq!['"'] + inner + seq!['"']
}

/// The base64 text of `bytes`, in the standard alphabet and padded.
pub uninterp spec fn base64_text(bytes: Seq<u8>) -> Seq<char>;

/// `String::push` appends the character to the end of the string.
pub assume_specification[ String::push ](s: &mut String, c: char)
    ensures
        final(s)@ == old(s)@.push(c),
;

/// What follows the opening quote of the raw string of `s`: `s`, a quote
/// and the hashes.
pub open spec fn raw_string_tail(s: Seq<char>) -> Seq<char> {
    s + seq!['"'] + hashes(fence(s))
}

/// A raw string ends where it should: behind its opening quote, the
/// closing delimiter stands at the end of the content and nowhere before.
pub proof fn lemma_raw_string_closes_at_end(s: Seq<char>)
    ensures
        raw_string(s) == seq!['r'] + hashes(fence(s)) + seq!['"'] + raw_string_tail(s),
        closes_at(raw_string_tail(s), s.len() as int, fence(s)),
        forall|q: int| 0 <= q < s.len() ==> !closes_at(raw_string_tail(s), q, fence(s)),
{
    let n = fence(s);
    let tail = raw_string_tail(s);
    assert(raw_string(s) =~= seq!['r'] + hashes(n) + seq!['"'] + tail);
    crate::lex::lemma_fence_is_least(s);
    assert forall|q: int| 0 <= q < s.len() implies !closes_at(tail, q, n) by {
        if closes_at(tail, q, n) {
            if q + n < s.len() {
                assert forall|k: int| q < k <= q + n implies s[k] == '#' by {
                    assert(tail[k] == '#');
                }
                assert(closes_at(s, q, n));
            } else {
                assert(tail[s.len() as int] == '#');
            }
        }
    }
}

fn digit_str(d: u8) -> (r: &'static str)
    requires
        d < 10,
    ensures
        r@ == seq![digit(d as nat)],
{
    proof {
        reveal_strlit("0");
        reveal_strlit("1");
        reveal_strlit("2");
        reveal_strlit("3");
        reveal_strlit("4");
        reveal_strlit("5");
        reveal_strlit("6");
        reveal_strlit("7");
        reveal_strlit("8");
        reveal_strlit("9");
    }
    let r = match d {
        0 => "0",
        1 => "1",
        2 => "2",
        3 => "3",
        4 => "4",
        5 => "5",
        6 => "6",
        7 => "7",
        8 => "8",
        _ => "9",
    };
    assert(r@ =~= seq![digit(d as nat)]);
    r
}

/// Appends `v` in decimal.
pub fn push_unsigned(s: &mut String, v: u128)
    ensures
        final(s)@ == old(s)@ + decimal(v as nat),
    decreases v,
{
    if v >= 10 {
        push_unsigned(s, v / 10);
    }
    let d: u8 = (v % 10) as u8;
    s.append(digit_str(d));
    assert(s@ =~= old(s)@ + decimal(v as nat));
}

/// Appends `v` in decimal, with a minus sign where it is negative.
pub fn push_signed(s: &mut String, v: i128)
    ensures
        final(s)@ == old(s)@ + integer_text(v as int),
{
    if v < 0 {
        proof {
            reveal_strlit("-");
        }
        s.append("-");
        let magnitude: u128 = ((-(v + 1)) as u128) + 1;
        push_unsigned(s, magnitude);
        assert(s@ =~= old(s)@ + integer_text(v as int));
    } else {
        push_unsigned(s, v as u128);
    }
}

/// Appends `n` hashes.
pub fn push_hashes(s: &mut String, n: usize)
    ensures
        final(s)@ == old(s)@ + hashes(n as nat),
{
    let mut i: usize = 0;
    assert(s@ =~= old(s)@ + hashes(0));
    while i < n
        invariant
            i <= n,
            s@ == old(s)@ + hashes(i as nat),
        decreases n - i,
    {
        s.push('#');
        i += 1;
        assert(s@ =~= old(s)@ + hashes(i as nat));
    }
}

/// Appends `v` as a raw string.
pub fn push_raw_string(s: &mut String, v: &str)
    ensures
        final(s)@ == old(s)@ + raw_string(v@),
{
    proof {
        reveal_strlit("r");
        reveal_strlit("\"");
    }
    let hash_count: usize = match count_needed_hashes(v) {
        Some(n) => n,
        None => 0,
    };
    proof {
        if !v@.contains('"') {
            assert forall|q: int| !closes_at(v@, q, 0) by {
                if closes_at(v@, q, 0) {
                    assert(v@.contains(v@[q]));
                }
            }
        }
        assert(is_least_fence(v@, hash_count as nat));
        let n = fence(v@);
        lemma_least_fence_unique(v@, hash_count as nat, n);
    }
    s.append("r");
    push_hashes(s, hash_count);
    s.append("\"");
    s.append(v);
    s.append("\"");
    push_hashes(s, hash_count);
    assert(s@ =~= old(s)@ + raw_string(v@));
}

/// Appends a name: bare where it may be, else as a raw string.
pub fn push_name(s: &mut String, name: &str)
    ensures
        final(s)@ == old(s)@ + name_text(name@),
{
    if is_valid_kdl_identifier(name) {
        s.append(name);
    } else {
        push_raw_string(s, name);
    }
}

/// Appends `inner` between two quotes.
pub fn push_quoted(s: &mut String, inner: &str)
    ensures
        final(s)@ == old(s)@ + quoted(inner@),
{
    proof {
        reveal_strlit("\"");
    }
    s.append("\"");
    s.append(inner);
    s.append("\"");
    assert(s@ =~= old(s)@ + quoted(inner@));
}

/// The base64 text of `v`, from `base64::encode_config_buf` with the
/// standard alphabet and padding. The text is a function of the bytes; the
/// contract names it and says no more of it.
#[verifier::external_body]
fn base64_encode(v: &[u8]) -> (r: String)
    ensures
        r@ == base64_text(v@),
{
    let mut r = String::new();
    base64::encode_config_buf(v, base64::Config::new(base64::CharacterSet::Standard, true), &mut r);
    r
}

/// Appends the base64 text of `v` between two quotes.
pub fn push_bytes(s: &mut String, v: &[u8])
    ensures
        final(s)@ == old(s)@ + quoted(base64_text(v@)),
{
    let encoded = base64_encode(v);
    push_quoted(s, encoded.as_str());
}

} // verus!
