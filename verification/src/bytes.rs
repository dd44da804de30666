//! Positions in bytes: how many bytes the UTF-8 form of a text takes up to
//! each of its characters.

use vstd::prelude::*;
use vstd::utf8::{encode_utf8, encode_scalar, char_is_scalar, has_width_1_encoding, has_width_2_encoding, has_width_3_encoding, has_width_4_encoding};

verus! {

/// The number of bytes that the character takes in UTF-8.
pub open spec fn utf8_width(c: char) -> int {
    let n = c as int;
    if n < 0x80 {
        1
    } else if n < 0x800 {
        2
    } else if n < 0x10000 {
        3
    } else {
        4
    }
}

/// The number of bytes that the first `n` characters of `s` take.
pub open spec fn bytes_upto(s: Seq<char>, n: int) -> int
    decreases n,
{
    if n <= 0 || n > s.len() {
        0
    } else {
        bytes_upto(s, n - 1) + utf8_width(s[n - 1])
    }
}

/// The number of bytes that `s` takes.
pub open spec fn bytes_len(s: Seq<char>) -> int {
    bytes_upto(s, s.len() as int)
}

/// Later characters start at later bytes, and each takes at least one.
pub proof fn lemma_bytes_monotone(s: Seq<char>, a: int, b: int)
    requires
        0 <= a <= b <= s.len(),
    ensures
        0 <= bytes_upto(s, a),
        bytes_upto(s, a) + (b - a) <= bytes_upto(s, b),
    decreases b,
{
    if a < b {
        lemma_bytes_monotone(s, a, b - 1);
    } else if a > 0 {
        lemma_bytes_monotone(s, a - 1, a - 1);
    }
}

/// Texts that agree on their first `n` characters agree on the bytes of these.
pub proof fn lemma_bytes_prefix(s: Seq<char>, t: Seq<char>, n: int)
    requires
        0 <= n <= s.len(),
        n <= t.len(),
        forall|i: int| 0 <= i < n ==> s[i] == t[i],
    ensures
        bytes_upto(s, n) == bytes_upto(t, n),
    decreases n,
{
    if n > 0 {
        lemma_bytes_prefix(s, t, n - 1);
    }
}

/// A part of a text takes the bytes between its two ends.
pub proof fn lemma_bytes_subrange(s: Seq<char>, a: int, b: int)
    requires
        0 <= a <= b <= s.len(),
    ensures
        bytes_len(s.subrange(a, b)) == bytes_upto(s, b) - bytes_upto(s, a),
    decreases b,
{
    let part = s.subrange(a, b);
    if a < b {
        let shorter = s.subrange(a, b - 1);
        lemma_bytes_subrange(s, a, b - 1);
        lemma_bytes_prefix(part, shorter, b - 1 - a);
        assert(part[b - a - 1] == s[b - 1]);
    }
}

/// What follows the first character takes the bytes that the first does not.
pub proof fn lemma_bytes_shift(s: Seq<char>, n: int)
    requires
        1 <= n <= s.len(),
    ensures
        bytes_upto(s, n) == utf8_width(s[0]) + bytes_upto(s.drop_first(), n - 1),
    decreases n,
{
    let rest = s.drop_first();
    if n > 1 {
        lemma_bytes_shift(s, n - 1);
        assert(rest[n - 2] == s[n - 1]);
        assert(bytes_upto(s, n) == bytes_upto(s, n - 1) + utf8_width(s[n - 1]));
        assert(bytes_upto(rest, n - 1) == bytes_upto(rest, n - 2) + utf8_width(rest[n - 2]));
    } else {
        assert(bytes_upto(s, 1) == bytes_upto(s, 0) + utf8_width(s[0]));
        assert(bytes_upto(s, 0) == 0);
        assert(bytes_upto(rest, 0) == 0);
    }
}

/// The UTF-8 form of a character has the width counted here.
pub proof fn lemma_scalar_width(c: char)
    ensures
        encode_scalar(c as u32).len() == utf8_width(c),
{
    char_is_scalar(c);
    let v = c as u32;
    assert(v as int == c as int);
    if has_width_1_encoding(v) {
        assert(encode_scalar(v).len() == 1);
    } else if has_width_2_encoding(v) {
        assert(encode_scalar(v).len() == 2);
    } else if has_width_3_encoding(v) {
        assert(encode_scalar(v).len() == 3);
    } else {
        assert(has_width_4_encoding(v));
        assert(encode_scalar(v).len() == 4);
    }
}

/// The bytes counted here are those of the UTF-8 form of the text.
pub proof fn lemma_bytes_encode(s: Seq<char>)
    ensures
        encode_utf8(s).len() == bytes_len(s),
    decreases s.len(),
{
    if s.len() > 0 {
        lemma_scalar_width(s[0]);
        lemma_bytes_encode(s.drop_first());
        lemma_bytes_shift(s, s.len() as int);
        assert(encode_utf8(s) == encode_scalar(s[0] as u32) + encode_utf8(s.drop_first()));
    }
}

/// The byte at which the `k`-th character of `s` starts is the length of
/// the UTF-8 form of the characters before it.
pub proof fn lemma_bytes_are_utf8(s: Seq<char>, k: int)
    requires
        0 <= k <= s.len(),
    ensures
        encode_utf8(s.subrange(0, k)).len() == bytes_upto(s, k),
{
    lemma_bytes_encode(s.subrange(0, k));
    lemma_bytes_subrange(s, 0, k);
}

/// The number of bytes that `c` takes in UTF-8.
pub fn char_width(c: char) -> (r: usize)
    ensures
        r == utf8_width(c),
        1 <= r <= 4,
{
    let n: u32 = c as u32;
    if n < 0x80 {
        1
    } else if n < 0x800 {
        2
    } else if n < 0x10000 {
        3
    } else {
        4
    }
}

/// The number of bytes that `s` takes.
pub fn byte_length(s: &str) -> (r: usize)
    ensures
        r == bytes_len(s@),
{
    proof {
        lemma_bytes_encode(s@);
    }
    s.as_bytes().len()
}

/// Index of the first character at or after `k` that starts at byte `b` or
/// behind it, or the length.
pub open spec fn char_reach(s: Seq<char>, b: int, k: int) -> int
    decreases s.len() - k,
{
    if 0 <= k < s.len() && bytes_upto(s, k) < b {
        char_reach(s, b, k + 1)
    } else {
        k
    }
}

/// The character that starts at byte `b` of `s`, by its index; the length
/// for the end of the text. `None` where `b` lies inside a character or
/// beyond the text.
pub open spec fn char_at_byte(s: Seq<char>, b: int) -> Option<int> {
    let k = char_reach(s, b, 0);
    if 0 <= k <= s.len() && bytes_upto(s, k) == b {
        Some(k)
    } else {
        None
    }
}

/// The index of the character that starts at byte `b` of `s`.
pub fn char_position(s: &str, b: usize) -> (r: Option<usize>)
    ensures
        match char_at_byte(s@, b as int) {
            Some(k) => (r matches Some(a) && a == k) && k <= s@.len() && bytes_upto(s@, k) == b,
            None => r is None,
        },
{
    let n = s.unicode_len();
    let total = byte_length(s);
    let mut k: usize = 0;
    let mut at: usize = 0;
    while k < n && at < b
        invariant
            n == s@.len(),
            total == bytes_len(s@),
            k <= n,
            at == bytes_upto(s@, k as int),
            char_reach(s@, b as int, k as int) == char_reach(s@, b as int, 0),
        decreases n - k,
    {
        proof {
            lemma_bytes_monotone(s@, k + 1, n as int);
        }
        at += char_width(s.get_char(k));
        k += 1;
    }
    if at == b {
        Some(k)
    } else {
        None
    }
}

} // verus!
