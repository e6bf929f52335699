//! Strings as UTF-8: how long they are, and where they can be cut.

use crate::text::{
    chars_of, lemma_strip_back_is_take, lemma_strip_front_is_skip, push_chars, space, trim,
    trim_start, trimmed,
};
use vstd::prelude::*;
use vstd::slice::slice_subrange;
use vstd::utf8::{
    char_is_scalar, encode_scalar, encode_utf8, encode_utf8_decode_utf8, encode_utf8_first_scalar,
    encode_utf8_valid_utf8, is_char_boundary, pop_first_scalar,
};

verus! {

/// How many bytes `s` takes in UTF-8.
pub open spec fn byte_len(s: Seq<char>) -> nat {
    encode_utf8(s).len()
}

/// How many bytes `s` takes.
pub fn count_bytes(s: &str) -> (r: usize)
    ensures
        r == byte_len(s@),
{
    s.as_bytes().len()
}

/// How many bytes `c` takes in UTF-8.
fn char_width(c: char) -> (r: usize)
    ensures
        r == encode_scalar(c as u32).len(),
        1 <= r <= 4,
{
    proof {
        char_is_scalar(c);
    }
    let u: u32 = c as u32;
    if u <= 0x7f {
        1
    } else if u <= 0x7ff {
        2
    } else if u <= 0xffff {
        3
    } else {
        4
    }
}

/// The encoding of a concatenation is the concatenation of the encodings.
pub proof fn lemma_encode_concat(a: Seq<char>, b: Seq<char>)
    ensures
        encode_utf8(a + b) == encode_utf8(a) + encode_utf8(b),
    decreases a.len(),
{
    if a.len() == 0 {
        assert(a + b =~= b);
        assert(encode_utf8(a) + encode_utf8(b) =~= encode_utf8(b));
    } else {
        assert((a + b).drop_first() =~= a.drop_first() + b);
        lemma_encode_concat(a.drop_first(), b);
        assert(encode_utf8(a + b) =~= encode_utf8(a) + encode_utf8(b));
    }
}

/// One more character takes the bytes of that character more.
proof fn lemma_encode_take(s: Seq<char>, i: int)
    requires
        0 <= i < s.len(),
    ensures
        byte_len(s.take(i + 1)) == byte_len(s.take(i)) + encode_scalar(s[i] as u32).len(),
{
    assert(s.take(i + 1) =~= s.take(i) + seq![s[i]]);
    lemma_encode_concat(s.take(i), seq![s[i]]);
    assert(seq![s[i]].drop_first() =~= Seq::<char>::empty());
    reveal_with_fuel(encode_utf8, 2);
}

/// A prefix takes no more bytes than the whole.
proof fn lemma_prefix_bytes(s: Seq<char>, i: int)
    requires
        0 <= i <= s.len(),
    ensures
        byte_len(s.take(i)) <= byte_len(s),
{
    assert(s =~= s.take(i) + s.skip(i));
    lemma_encode_concat(s.take(i), s.skip(i));
}

/// Where the encoding of `a` ends, a character of `a + b` ends.
proof fn lemma_boundary(a: Seq<char>, b: Seq<char>)
    ensures
        is_char_boundary(encode_utf8(a + b), encode_utf8(a).len() as int),
    decreases a.len(),
{
    encode_utf8_valid_utf8(a + b);
    if a.len() > 0 {
        let rest = a.drop_first();
        assert((a + b).drop_first() =~= rest + b);
        encode_utf8_first_scalar(a + b);
        lemma_encode_concat(a, b);
        assert(pop_first_scalar(encode_utf8(a + b)) =~= encode_utf8(rest + b));
        lemma_boundary(rest, b);
    }
}

/// Cuts `s` behind its first `k` characters; `chars` are its characters.
fn split_chars<'a>(s: &'a str, chars: &[char], k: usize) -> (r: (&'a str, &'a str))
    requires
        chars@ == s@,
        k <= s@.len(),
    ensures
        r.0@ == s@.take(k as int),
        r.1@ == s@.skip(k as int),
{
    let total: usize = count_bytes(s);
    let mut offset: usize = 0;
    let mut i: usize = 0;
    while i < k
        invariant
            i <= k <= s@.len(),
            chars@ == s@,
            total == byte_len(s@),
            offset == byte_len(s@.take(i as int)),
        decreases k - i,
    {
        proof {
            lemma_encode_take(s@, i as int);
            lemma_prefix_bytes(s@, i + 1);
        }
        offset += char_width(chars[i]);
        i += 1;
    }
    let ghost head = s@.take(k as int);
    let ghost tail = s@.skip(k as int);
    proof {
        assert(head + tail =~= s@);
        lemma_boundary(head, tail);
        lemma_encode_concat(head, tail);
    }
    let r = s.split_at(offset);
    proof {
        assert(encode_utf8(r.0@) =~= encode_utf8(head));
        assert(encode_utf8(r.1@) =~= encode_utf8(tail));
        encode_utf8_decode_utf8(r.0@);
        encode_utf8_decode_utf8(head);
        encode_utf8_decode_utf8(r.1@);
        encode_utf8_decode_utf8(tail);
    }
    r
}

/// `s` without the white space at either end.
pub fn trim_str(s: &str) -> (r: &str)
    ensures
        r@ == trimmed(s@),
{
    let chars = chars_of(s);
    let n: usize = chars.len();
    let from_start = trim_start(&chars);
    let both = trim(&chars);
    proof {
        lemma_strip_front_is_skip(s@, space());
        lemma_strip_back_is_take(from_start@, space());
    }
    let start: usize = n - from_start.len();
    let (_, rest) = split_chars(s, &chars, start);
    let (middle, _) = split_chars(rest, from_start, both.len());
    middle
}

// ---------------------------------------------------------------------------
// Truncation
// ---------------------------------------------------------------------------

/// The longest prefix of `s` that takes at most `max` bytes.
pub open spec fn fitting(s: Seq<char>, max: nat) -> Seq<char>
    decreases s.len(),
{
    if s.len() == 0 || byte_len(s) <= max {
        s
    } else {
        fitting(s.drop_last(), max)
    }
}

/// `s` itself where it takes at most `max` bytes, else the longest prefix that
/// does, and an ellipsis.
pub open spec fn truncated(s: Seq<char>, max: nat) -> Seq<char> {
    if byte_len(s) <= max {
        s
    } else {
        fitting(s, max).push('\u{2026}')
    }
}

proof fn lemma_fitting(s: Seq<char>, k: int, max: nat)
    requires
        0 <= k <= s.len(),
        byte_len(s.take(k)) <= max,
        k < s.len() ==> byte_len(s.take(k + 1)) > max,
    ensures
        fitting(s, max) == s.take(k),
    decreases s.len(),
{
    if k == s.len() {
        assert(s.take(k) =~= s);
    } else {
        lemma_prefix_bytes(s, k + 1);
        let shorter = s.drop_last();
        assert(shorter.take(k) =~= s.take(k));
        if k < shorter.len() {
            assert(shorter.take(k + 1) =~= s.take(k + 1));
        }
        lemma_fitting(shorter, k, max);
    }
}

/// Cuts `s` to at most `max` bytes, between two characters, and marks the cut
/// with an ellipsis.
pub fn truncate(s: &str, max: usize) -> (r: String)
    ensures
        r@ == truncated(s@, max as nat),
{
    let total: usize = count_bytes(s);
    if total <= max {
        return s.to_string();
    }
    let chars = chars_of(s);
    let mut used: usize = 0;
    let mut k: usize = 0;
    while k < chars.len() && char_width(chars[k]) <= max - used
        invariant
            chars@ == s@,
            total == byte_len(s@),
            k <= s@.len(),
            used == byte_len(s@.take(k as int)),
            used <= max,
        decreases s@.len() - k,
    {
        proof {
            lemma_encode_take(s@, k as int);
        }
        used += char_width(chars[k]);
        k += 1;
    }
    proof {
        if k < s@.len() {
            lemma_encode_take(s@, k as int);
        }
        lemma_fitting(s@, k as int, max as nat);
        assert(s@.subrange(0, k as int) =~= s@.take(k as int));
    }
    let mut out = String::new();
    push_chars(&mut out, slice_subrange(chars.as_slice(), 0, k));
    out.push('\u{2026}');
    assert(out@ =~= truncated(s@, max as nat));
    out
}

/// A text cut to `max` bytes starts as the text does, and what it keeps of it
/// fits into `max` bytes.
pub proof fn lemma_truncated_is_a_prefix(s: Seq<char>, max: nat)
    ensures
        fitting(s, max).is_prefix_of(s),
        byte_len(fitting(s, max)) <= max,
    decreases s.len(),
{
    if s.len() > 0 && byte_len(s) > max {
        lemma_truncated_is_a_prefix(s.drop_last(), max);
    }
}

/// A text that fits into `max` bytes is kept whole. Of a longer one as many
/// characters are kept as fit, and an ellipsis follows.
pub proof fn lemma_as_much_is_kept_as_fits(s: Seq<char>, max: nat)
    ensures
        byte_len(s) <= max ==> truncated(s, max) == s,
        byte_len(s) > max ==> ({
            let n = truncated(s, max).len() - 1;
            &&& 0 <= n < s.len()
            &&& truncated(s, max) == s.take(n).push('\u{2026}')
            &&& byte_len(s.take(n)) <= max
            &&& byte_len(s.take(n + 1)) > max
        }),
{
    if byte_len(s) > max {
        lemma_fitting_is_longest(s, max);
    }
}

proof fn lemma_fitting_is_longest(s: Seq<char>, max: nat)
    requires
        byte_len(s) > max,
    ensures
        fitting(s, max).len() < s.len(),
        fitting(s, max) == s.take(fitting(s, max).len() as int),
        byte_len(fitting(s, max)) <= max,
        byte_len(s.take(fitting(s, max).len() as int + 1)) > max,
    decreases s.len(),
{
    assert(s.len() > 0) by {
        if s.len() == 0 {
            assert(encode_utf8(s).len() == 0);
        }
    }
    let shorter = s.drop_last();
    let n = fitting(s, max).len() as int;
    assert(fitting(s, max) == fitting(shorter, max));
    if byte_len(shorter) > max {
        lemma_fitting_is_longest(shorter, max);
        assert(shorter.take(n) =~= s.take(n));
        assert(shorter.take(n + 1) =~= s.take(n + 1));
    } else {
        assert(s.take(n + 1) =~= s);
        assert(s.take(n) =~= shorter);
    }
}

} // verus!
