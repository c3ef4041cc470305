//! The lexical rules of KDL that decide how a name or a string is written:
//! which names may stand bare, and how many `#` a raw string needs around
//! its quotes.

use vstd::prelude::*;

verus! {

/// Line and space whitespace: the characters with the Unicode property
/// `White_Space`.
pub open spec fn is_linespace(c: char) -> bool {
    let n = c as u32;
    ||| 0x09 <= n <= 0x0D
    ||| n == 0x20
    ||| n == 0x85
    ||| n == 0xA0
    ||| n == 0x1680
    ||| 0x2000 <= n <= 0x200A
    ||| n == 0x2028
    ||| n == 0x2029
    ||| n == 0x202F
    ||| n == 0x205F
    ||| n == 0x3000
}

/// The symbols that KDL keeps for its own syntax, and the byte-order mark.
pub open spec fn is_reserved(c: char) -> bool {
    ||| c == '\\'
    ||| c == '/'
    ||| c == '('
    ||| c == ')'
    ||| c == '{'
    ||| c == '}'
    ||| c == '<'
    ||| c == '>'
    ||| c == ';'
    ||| c == '['
    ||| c == ']'
    ||| c == '='
    ||| c == ','
    ||| c == '"'
    ||| c == '\u{FEFF}'
}

/// A decimal digit.
pub open spec fn is_digit(c: char) -> bool {
    0x30 <= c as u32 <= 0x39
}

/// Some character of `s` is whitespace or a reserved symbol.
pub open spec fn has_forbidden_char(s: Seq<char>) -> bool {
    exists|i: int| 0 <= i < s.len() && (is_linespace(#[trigger] s[i]) || is_reserved(s[i]))
}

/// `s` begins like a number: with a digit, or with a sign and a digit.
pub open spec fn looks_like_number(s: Seq<char>) -> bool {
    ||| s.len() >= 1 && is_digit(s[0])
    ||| s.len() >= 2 && (s[0] == '+' || s[0] == '-') && is_digit(s[1])
}

/// `s` begins like a raw string: with `r#`.
pub open spec fn looks_like_raw_string(s: Seq<char>) -> bool {
    s.len() >= 2 && s[0] == 'r' && s[1] == '#'
}

/// `s` is one of the keywords `null`, `true` and `false`.
pub open spec fn is_keyword(s: Seq<char>) -> bool {
    ||| s == seq!['n', 'u', 'l', 'l']
    ||| s == seq!['t', 'r', 'u', 'e']
    ||| s == seq!['f', 'a', 'l', 's', 'e']
}

/// `s` may be written as a bare identifier: it holds no whitespace and no
/// reserved symbol, cannot be taken for a number or a raw string, and is
/// no keyword.
pub open spec fn is_bare_identifier(s: Seq<char>) -> bool {
    &&& !has_forbidden_char(s)
    &&& !looks_like_number(s)
    &&& !looks_like_raw_string(s)
    &&& !is_keyword(s)
}

/// A raw string around `s` with `n` hashes would end too early at index
/// `q`: there `s` holds a quote followed by at least `n` hashes.
pub open spec fn closes_at(s: Seq<char>, q: int, n: nat) -> bool {
    &&& 0 <= q
    &&& q + 1 + n <= s.len()
    &&& s[q] == '"'
    &&& forall|k: int| q < k <= q + n ==> s[k] == '#'
}

/// `s` can be written as a raw string with `n` hashes: the closing
/// delimiter occurs nowhere in it.
pub open spec fn is_fence(s: Seq<char>, n: nat) -> bool {
    forall|q: int| !closes_at(s, q, n)
}

/// `n` is the least number of hashes with which `s` can be written as a
/// raw string.
pub open spec fn is_least_fence(s: Seq<char>, n: nat) -> bool {
    &&& is_fence(s, n)
    &&& n > 0 ==> !is_fence(s, (n - 1) as nat)
}

/// The number of hashes around the raw string of `s`: its least fence.
pub open spec fn fence(s: Seq<char>) -> nat {
    choose|n: nat| is_least_fence(s, n)
}

/// The number of hashes that `s` holds from index `i` on without a break.
pub open spec fn hash_run(s: Seq<char>, i: int) -> nat
    decreases s.len() - i,
{
    if 0 <= i < s.len() && s[i] == '#' {
        1 + hash_run(s, i + 1)
    } else {
        0
    }
}

/// Only one number of hashes is the least fence of a string.
pub proof fn lemma_least_fence_unique(s: Seq<char>, a: nat, b: nat)
    requires
        is_least_fence(s, a),
        is_least_fence(s, b),
    ensures
        a == b,
{
    if a < b {
        let m = (b - 1) as nat;
        let q = choose|q: int| #[trigger] closes_at(s, q, m);
        assert(closes_at(s, q, a));
    }
    if b < a {
        let m = (a - 1) as nat;
        let q = choose|q: int| #[trigger] closes_at(s, q, m);
        assert(closes_at(s, q, b));
    }
}

/// Below every fence of a string stands its least fence.
proof fn lemma_least_fence_below(s: Seq<char>, n: nat)
    requires
        is_fence(s, n),
    ensures
        exists|m: nat| is_least_fence(s, m),
    decreases n,
{
    if n > 0 && is_fence(s, (n - 1) as nat) {
        lemma_least_fence_below(s, (n - 1) as nat);
    } else {
        assert(is_least_fence(s, n));
    }
}

/// Every string has a least fence, and `fence` is it.
pub proof fn lemma_fence_is_least(s: Seq<char>)
    ensures
        is_least_fence(s, fence(s)),
{
    let n = s.len() + 1;
    assert(is_fence(s, n));
    lemma_least_fence_below(s, n);
}

/// A run of hashes has at least `n` of them exactly where the string holds
/// a hash at each of the `n` indices from `i` on.
pub proof fn lemma_hash_run_at_least(s: Seq<char>, i: int, n: nat)
    requires
        0 <= i <= s.len(),
    ensures
        hash_run(s, i) >= n <==> i + n <= s.len() && forall|k: int| i <= k < i + n ==> s[k] == '#',
    decreases n,
{
    if n > 0 && i < s.len() && s[i] == '#' {
        lemma_hash_run_at_least(s, i + 1, (n - 1) as nat);
        if hash_run(s, i) >= n {
            assert forall|k: int| i <= k < i + n implies s[k] == '#' by {
                if k > i {
                    assert(i + 1 <= k < i + 1 + (n - 1));
                }
            }
        }
    }
}

/// Where a quote of `s` is followed by `n` hashes, and no quote of `s` by
/// more, the least fence of `s` is `n + 1`.
pub proof fn lemma_fence_after_longest_run(s: Seq<char>, q: int, n: nat)
    requires
        0 <= q < s.len(),
        s[q] == '"',
        hash_run(s, q + 1) == n,
        forall|p: int| 0 <= p < s.len() && s[p] == '"' ==> hash_run(s, p + 1) <= n,
    ensures
        is_least_fence(s, n + 1),
        fence(s) == n + 1,
{
    let m = n + 1;
    assert forall|p: int| !#[trigger] closes_at(s, p, m) by {
        if closes_at(s, p, m) {
            lemma_hash_run_at_least(s, p + 1, m);
            assert(forall|k: int| p + 1 <= k < p + 1 + m ==> s[k] == '#');
            assert(hash_run(s, p + 1) >= m);
        }
    }
    lemma_hash_run_at_least(s, q + 1, n);
    assert(closes_at(s, q, n));
    lemma_fence_is_least(s);
    lemma_least_fence_unique(s, m, fence(s));
}

/// The characters of a string, in order.
fn chars_of(s: &str) -> (v: Vec<char>)
    ensures
        v@ == s@,
{
    let mut v: Vec<char> = Vec::new();
    for c in it: s.chars()
        invariant
            v@ == it.seq().take(it.index()),
    {
        v.push(c);
    }
    v
}

/// The number of hashes that a raw string around `s` needs, or `None`
/// where `s` holds no quote and so needs none.
///
/// The result is the least fence of `s`: with that many hashes the closing
/// delimiter occurs nowhere in `s`, and with one fewer it would.
pub fn count_needed_hashes(s: &str) -> (r: Option<usize>)
    ensures
        r is None <==> !s@.contains('"'),
        r matches Some(n) ==> n >= 1 && is_least_fence(s@, n as nat),
{
    let v = chars_of(s);
    let len = v.len();
    let mut seen = false;
    let mut outside_hash_count: usize = 0;
    let mut cursor: usize = 0;
    let ghost mut witness: int = 0;
    while cursor < len
        invariant
            len == v@.len(),
            v@ == s@,
            cursor <= len,
            outside_hash_count <= cursor,
            !seen ==> outside_hash_count == 0,
            !seen ==> forall|q: int| 0 <= q < cursor ==> v@[q] != '"',
            seen ==> outside_hash_count >= 1,
            seen ==> 0 <= witness < cursor && closes_at(
                v@,
                witness,
                (outside_hash_count - 1) as nat,
            ),
            forall|q: int|
                0 <= q < cursor ==> !closes_at(v@, q, outside_hash_count as nat),
        decreases len - cursor,
    {
        if v[cursor] == '"' {
            let mut not_hash_index: usize = cursor + 1;
            while not_hash_index < len && v[not_hash_index] == '#'
                invariant
                    len == v@.len(),
                    cursor < not_hash_index <= len,
                    forall|k: int| cursor < k < not_hash_index ==> v@[k] == '#',
                decreases len - not_hash_index,
            {
                not_hash_index += 1;
            }
            let inside_hash_count = not_hash_index - cursor - 1;
            let ghost before = outside_hash_count as nat;
            assert(closes_at(v@, cursor as int, inside_hash_count as nat));
            if inside_hash_count + 1 > outside_hash_count {
                outside_hash_count = inside_hash_count + 1;
                proof {
                    witness = cursor as int;
                }
            }
            assert forall|q: int| 0 <= q < not_hash_index implies !closes_at(
                v@,
                q,
                outside_hash_count as nat,
            ) by {
                if q < cursor && closes_at(v@, q, outside_hash_count as nat) {
                    assert(closes_at(v@, q, before));
                }
            }
            seen = true;
            cursor = not_hash_index;
        } else {
            assert(!closes_at(v@, cursor as int, outside_hash_count as nat));
            cursor += 1;
        }
    }
    if seen {
        assert(v@[witness] == '"');
        assert(is_fence(v@, outside_hash_count as nat));
        Some(outside_hash_count)
    } else {
        assert(!v@.contains('"'));
        None
    }
}

fn is_linespace_char(c: char) -> (r: bool)
    ensures
        r == is_linespace(c),
{
    let n: u32 = c as u32;
    (0x09 <= n && n <= 0x0D) || n == 0x20 || n == 0x85 || n == 0xA0 || n == 0x1680 || (0x2000 <= n
        && n <= 0x200A) || n == 0x2028 || n == 0x2029 || n == 0x202F || n == 0x205F || n == 0x3000
}

fn is_reserved_char(c: char) -> (r: bool)
    ensures
        r == is_reserved(c),
{
    c == '\\' || c == '/' || c == '(' || c == ')' || c == '{' || c == '}' || c == '<' || c == '>'
        || c == ';' || c == '[' || c == ']' || c == '=' || c == ',' || c == '"' || c == '\u{FEFF}'
}

fn is_digit_char(c: char) -> (r: bool)
    ensures
        r == is_digit(c),
{
    let n: u32 = c as u32;
    0x30 <= n && n <= 0x39
}

/// Whether `s` may be written as a bare identifier.
pub fn is_valid_kdl_identifier(s: &str) -> (r: bool)
    ensures
        r == is_bare_identifier(s@),
{
    let v = chars_of(s);
    let len = v.len();
    let mut i: usize = 0;
    while i < len
        invariant
            len == v@.len(),
            v@ == s@,
            i <= len,
            forall|k: int| 0 <= k < i ==> !(is_linespace(#[trigger] v@[k]) || is_reserved(v@[k])),
        decreases len - i,
    {
        if is_linespace_char(v[i]) || is_reserved_char(v[i]) {
            return false;
        }
        i += 1;
    }
    let confusable_number = (len >= 1 && is_digit_char(v[0])) || (len >= 2 && (v[0] == '+' || v[0]
        == '-') && is_digit_char(v[1]));
    let confusable_string = len >= 2 && v[0] == 'r' && v[1] == '#';
    let is_null = len == 4 && v[0] == 'n' && v[1] == 'u' && v[2] == 'l' && v[3] == 'l';
    let is_true = len == 4 && v[0] == 't' && v[1] == 'r' && v[2] == 'u' && v[3] == 'e';
    let is_false = len == 5 && v[0] == 'f' && v[1] == 'a' && v[2] == 'l' && v[3] == 's' && v[4]
        == 'e';
    proof {
        assert(is_null == (v@ =~= seq!['n', 'u', 'l', 'l']));
        assert(is_true == (v@ =~= seq!['t', 'r', 'u', 'e']));
        assert(is_false == (v@ =~= seq!['f', 'a', 'l', 's', 'e']));
    }
    !(confusable_number || confusable_string || is_null || is_true || is_false)
}

} // verus!
