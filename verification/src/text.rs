//! Text as sequences of characters.
//!
//! Every rule of this crate that looks inside a piece of text is stated over
//! `Seq<char>`, and every routine that carries one out works on `&[char]`.
//! This module holds the operations the rules share: trimming, changing ASCII
//! case, keeping some characters of a text, and comparing texts.

use vstd::prelude::*;
use vstd::slice::slice_subrange;

verus! {

/// `String::push` appends its character to the end of the string and changes
/// nothing else.
pub assume_specification [ String::push ](s: &mut String, ch: char)
    ensures
        final(s)@ == old(s)@.push(ch),
;

// ---------------------------------------------------------------------------
// Between strings and characters
// ---------------------------------------------------------------------------

/// The characters of a string, in order.
pub fn chars_of(s: &str) -> (chars: Vec<char>)
    ensures
        chars@ == s@,
{
    let mut chars: Vec<char> = Vec::new();
    for c in it: s.chars()
        invariant
            it.seq() == s@,
            chars@ == s@.take(it.index()),
    {
        chars.push(c);
    }
    assert(s@.take(s@.len() as int) =~= s@);
    chars
}

/// Appends `chars` to `out`.
pub fn push_chars(out: &mut String, chars: &[char])
    ensures
        final(out)@ == old(out)@ + chars@,
{
    let ghost before = out@;
    let mut i: usize = 0;
    while i < chars.len()
        invariant
            i <= chars@.len(),
            out@ == before + chars@.take(i as int),
        decreases chars@.len() - i,
    {
        out.push(chars[i]);
        i += 1;
        assert(before + chars@.take(i as int) =~= (before + chars@.take(i - 1)).push(chars@[i - 1]));
    }
    assert(chars@.take(chars@.len() as int) =~= chars@);
}

/// The string made of `chars`.
pub fn string_of(chars: &[char]) -> (s: String)
    ensures
        s@ == chars@,
{
    let mut s = String::new();
    push_chars(&mut s, chars);
    assert(s@ =~= chars@);
    s
}

/// The view of an optional string.
pub open spec fn opt_text(s: Option<String>) -> Option<Seq<char>> {
    match s {
        Some(t) => Some(t@),
        None => None,
    }
}

/// The views of a list of strings.
pub open spec fn texts(list: Seq<String>) -> Seq<Seq<char>> {
    Seq::new(list.len(), |i: int| list[i]@)
}

/// The views of a list of borrowed strings.
pub open spec fn str_texts(list: Seq<&str>) -> Seq<Seq<char>> {
    Seq::new(list.len(), |i: int| list[i]@)
}

/// The views of a list of character slices.
pub open spec fn slice_texts(list: Seq<&[char]>) -> Seq<Seq<char>> {
    Seq::new(list.len(), |i: int| list[i]@)
}

/// A copy of an optional string.
pub fn copy_opt(s: &Option<String>) -> (r: Option<String>)
    ensures
        r == *s,
{
    match s {
        Some(t) => Some(t.clone()),
        None => None,
    }
}

// ---------------------------------------------------------------------------
// Kinds of characters
// ---------------------------------------------------------------------------

/// The characters with the Unicode `White_Space` property.
pub open spec fn white_space(c: char) -> bool {
    let u = c as u32;
    ||| 0x09 <= u <= 0x0d
    ||| u == 0x20
    ||| u == 0x85
    ||| u == 0xa0
    ||| u == 0x1680
    ||| 0x2000 <= u <= 0x200a
    ||| u == 0x2028
    ||| u == 0x2029
    ||| u == 0x202f
    ||| u == 0x205f
    ||| u == 0x3000
}

/// Whether `c` is white space.
pub fn is_white_space(c: char) -> (r: bool)
    ensures
        r == white_space(c),
{
    let u: u32 = c as u32;
    (0x09 <= u && u <= 0x0d) || u == 0x20 || u == 0x85 || u == 0xa0 || u == 0x1680 || (0x2000 <= u
        && u <= 0x200a) || u == 0x2028 || u == 0x2029 || u == 0x202f || u == 0x205f || u == 0x3000
}

/// `0` to `9`.
pub open spec fn ascii_digit(c: char) -> bool {
    '0' <= c <= '9'
}

/// Whether `c` is an ASCII digit.
pub fn is_ascii_digit(c: char) -> (r: bool)
    ensures
        r == ascii_digit(c),
{
    '0' <= c && c <= '9'
}

/// ASCII letters and digits.
pub open spec fn ascii_alphanumeric(c: char) -> bool {
    ascii_digit(c) || 'a' <= c <= 'z' || 'A' <= c <= 'Z'
}

/// Whether `c` is an ASCII letter or digit.
pub fn is_ascii_alphanumeric(c: char) -> (r: bool)
    ensures
        r == ascii_alphanumeric(c),
{
    ('0' <= c && c <= '9') || ('a' <= c && c <= 'z') || ('A' <= c && c <= 'Z')
}

/// `c`, with an ASCII capital made small.
pub open spec fn lower_char(c: char) -> char {
    if 'A' <= c <= 'Z' {
        ((c as u32) + 32) as char
    } else {
        c
    }
}

/// `c`, with a small ASCII letter made a capital.
pub open spec fn upper_char(c: char) -> char {
    if 'a' <= c <= 'z' {
        ((c as u32) - 32) as char
    } else {
        c
    }
}

/// `s` with its ASCII capitals made small.
pub open spec fn lowered(s: Seq<char>) -> Seq<char> {
    Seq::new(s.len(), |i: int| lower_char(s[i]))
}

/// `s` with its small ASCII letters made capitals.
pub open spec fn raised(s: Seq<char>) -> Seq<char> {
    Seq::new(s.len(), |i: int| upper_char(s[i]))
}

/// Makes the ASCII capitals of `s` small.
pub fn lower(s: &[char]) -> (r: Vec<char>)
    ensures
        r@ == lowered(s@),
{
    let mut r: Vec<char> = Vec::new();
    let mut i: usize = 0;
    while i < s.len()
        invariant
            i <= s@.len(),
            r@ == lowered(s@).take(i as int),
        decreases s@.len() - i,
    {
        let c = s[i];
        if 'A' <= c && c <= 'Z' {
            let b: u8 = c as u8;
            r.push((b + 32) as char);
        } else {
            r.push(c);
        }
        i += 1;
        assert(r@ =~= lowered(s@).take(i as int));
    }
    assert(lowered(s@).take(s@.len() as int) =~= lowered(s@));
    r
}

/// Makes the small ASCII letters of `s` capitals.
pub fn raise(s: &[char]) -> (r: Vec<char>)
    ensures
        r@ == raised(s@),
{
    let mut r: Vec<char> = Vec::new();
    let mut i: usize = 0;
    while i < s.len()
        invariant
            i <= s@.len(),
            r@ == raised(s@).take(i as int),
        decreases s@.len() - i,
    {
        let c = s[i];
        if 'a' <= c && c <= 'z' {
            let b: u8 = c as u8;
            r.push((b - 32) as char);
        } else {
            r.push(c);
        }
        i += 1;
        assert(r@ =~= raised(s@).take(i as int));
    }
    assert(raised(s@).take(s@.len() as int) =~= raised(s@));
    r
}

// ---------------------------------------------------------------------------
// Sets of characters, and trimming
// ---------------------------------------------------------------------------

/// The predicate that holds of white space.
pub open spec fn space() -> spec_fn(char) -> bool {
    |c: char| white_space(c)
}

/// The predicate that holds of the characters in `set`.
pub open spec fn among(set: Seq<char>) -> spec_fn(char) -> bool {
    |c: char| set.contains(c)
}

/// `s` without the characters satisfying `p` that it starts with.
pub open spec fn strip_front(s: Seq<char>, p: spec_fn(char) -> bool) -> Seq<char>
    decreases s.len(),
{
    if s.len() > 0 && p(s[0]) {
        strip_front(s.drop_first(), p)
    } else {
        s
    }
}

/// `s` without the characters satisfying `p` that it ends with.
pub open spec fn strip_back(s: Seq<char>, p: spec_fn(char) -> bool) -> Seq<char>
    decreases s.len(),
{
    if s.len() > 0 && p(s.last()) {
        strip_back(s.drop_last(), p)
    } else {
        s
    }
}

/// `s` without the characters satisfying `p` at either end.
pub open spec fn strip(s: Seq<char>, p: spec_fn(char) -> bool) -> Seq<char> {
    strip_back(strip_front(s, p), p)
}

/// `s` without the white space at either end.
pub open spec fn trimmed(s: Seq<char>) -> Seq<char> {
    strip(s, space())
}

/// Nothing but white space.
pub open spec fn blank(s: Seq<char>) -> bool {
    forall|i: int| 0 <= i < s.len() ==> white_space(#[trigger] s[i])
}

/// Whether `set` holds `c`.
pub fn holds(set: &[char], c: char) -> (r: bool)
    ensures
        r == set@.contains(c),
{
    let mut i: usize = 0;
    while i < set.len()
        invariant
            i <= set@.len(),
            forall|j: int| 0 <= j < i ==> set@[j] != c,
        decreases set@.len() - i,
    {
        if set[i] == c {
            assert(set@[i as int] == c);
            return true;
        }
        i += 1;
    }
    false
}

/// Stripping from the front one more character that satisfies `p`.
proof fn lemma_strip_front_step(s: Seq<char>, i: int, p: spec_fn(char) -> bool)
    requires
        0 <= i < s.len(),
        p(s[i]),
    ensures
        strip_front(s.skip(i), p) == strip_front(s.skip(i + 1), p),
{
    assert(s.skip(i).drop_first() =~= s.skip(i + 1));
}

/// Stripping from the back one more character that satisfies `p`.
proof fn lemma_strip_back_step(s: Seq<char>, j: int, p: spec_fn(char) -> bool)
    requires
        0 < j <= s.len(),
        p(s[j - 1]),
    ensures
        strip_back(s.take(j), p) == strip_back(s.take(j - 1), p),
{
    assert(s.take(j).drop_last() =~= s.take(j - 1));
}

/// `s` without the white space it starts with.
pub fn trim_start(s: &[char]) -> (r: &[char])
    ensures
        r@ == strip_front(s@, space()),
{
    let mut i: usize = 0;
    assert(s@.skip(0) =~= s@);
    while i < s.len() && is_white_space(s[i])
        invariant
            i <= s@.len(),
            strip_front(s@, space()) == strip_front(s@.skip(i as int), space()),
        decreases s@.len() - i,
    {
        proof {
            lemma_strip_front_step(s@, i as int, space());
        }
        i += 1;
    }
    assert(s@.subrange(i as int, s@.len() as int) =~= s@.skip(i as int));
    slice_subrange(s, i, s.len())
}

/// `s` without the white space at either end.
pub fn trim(s: &[char]) -> (r: &[char])
    ensures
        r@ == trimmed(s@),
{
    let t = trim_start(s);
    let mut j: usize = t.len();
    assert(t@.take(t@.len() as int) =~= t@);
    while j > 0 && is_white_space(t[j - 1])
        invariant
            j <= t@.len(),
            strip_back(t@, space()) == strip_back(t@.take(j as int), space()),
        decreases j,
    {
        proof {
            lemma_strip_back_step(t@, j as int, space());
        }
        j -= 1;
    }
    assert(t@.subrange(0, j as int) =~= t@.take(j as int));
    slice_subrange(t, 0, j)
}

/// `s` without the characters of `set` that it ends with.
pub fn trim_end_any<'a>(s: &'a [char], set: &[char]) -> (r: &'a [char])
    ensures
        r@ == strip_back(s@, among(set@)),
{
    let mut j: usize = s.len();
    assert(s@.take(s@.len() as int) =~= s@);
    while j > 0 && holds(set, s[j - 1])
        invariant
            j <= s@.len(),
            strip_back(s@, among(set@)) == strip_back(s@.take(j as int), among(set@)),
        decreases j,
    {
        proof {
            lemma_strip_back_step(s@, j as int, among(set@));
        }
        j -= 1;
    }
    assert(s@.subrange(0, j as int) =~= s@.take(j as int));
    slice_subrange(s, 0, j)
}

/// `s` without the characters of `set` at either end.
pub fn trim_any<'a>(s: &'a [char], set: &[char]) -> (r: &'a [char])
    ensures
        r@ == strip(s@, among(set@)),
{
    let mut i: usize = 0;
    assert(s@.skip(0) =~= s@);
    while i < s.len() && holds(set, s[i])
        invariant
            i <= s@.len(),
            strip_front(s@, among(set@)) == strip_front(s@.skip(i as int), among(set@)),
        decreases s@.len() - i,
    {
        proof {
            lemma_strip_front_step(s@, i as int, among(set@));
        }
        i += 1;
    }
    assert(s@.subrange(i as int, s@.len() as int) =~= s@.skip(i as int));
    trim_end_any(slice_subrange(s, i, s.len()), set)
}

/// Whether `s` holds nothing but white space.
pub fn is_blank(s: &[char]) -> (r: bool)
    ensures
        r == blank(s@),
{
    let mut i: usize = 0;
    while i < s.len()
        invariant
            i <= s@.len(),
            forall|j: int| 0 <= j < i ==> white_space(#[trigger] s@[j]),
        decreases s@.len() - i,
    {
        if !is_white_space(s[i]) {
            assert(!white_space(s@[i as int]));
            return false;
        }
        i += 1;
    }
    true
}

/// Stripping the front leaves an end of the text.
pub proof fn lemma_strip_front_is_skip(s: Seq<char>, p: spec_fn(char) -> bool)
    ensures
        strip_front(s, p).len() <= s.len(),
        strip_front(s, p) == s.skip(s.len() - strip_front(s, p).len()),
    decreases s.len(),
{
    if s.len() > 0 && p(s[0]) {
        lemma_strip_front_is_skip(s.drop_first(), p);
        let n = strip_front(s, p).len() as int;
        assert(s.drop_first().skip(s.drop_first().len() - n) =~= s.skip(s.len() - n));
    } else {
        assert(s.skip(0) =~= s);
    }
}

/// Stripping the back leaves a start of the text.
pub proof fn lemma_strip_back_is_take(s: Seq<char>, p: spec_fn(char) -> bool)
    ensures
        strip_back(s, p).len() <= s.len(),
        strip_back(s, p) == s.take(strip_back(s, p).len() as int),
    decreases s.len(),
{
    if s.len() > 0 && p(s.last()) {
        lemma_strip_back_is_take(s.drop_last(), p);
        let n = strip_back(s, p).len() as int;
        assert(s.drop_last().take(n) =~= s.take(n));
    } else {
        assert(s.take(s.len() as int) =~= s);
    }
}

/// Text is blank exactly when trimming leaves nothing of it.
pub proof fn lemma_blank_iff_trimmed_empty(s: Seq<char>)
    ensures
        blank(s) <==> trimmed(s).len() == 0,
{
    lemma_strip_front_blank(s);
    let t = strip_front(s, space());
    lemma_strip_front_head(s);
    if t.len() > 0 {
        lemma_strip_back_nonempty(t);
    }
}

proof fn lemma_strip_front_blank(s: Seq<char>)
    ensures
        blank(s) <==> strip_front(s, space()).len() == 0,
    decreases s.len(),
{
    if s.len() > 0 && white_space(s[0]) {
        let t = s.drop_first();
        lemma_strip_front_blank(t);
        if blank(t) {
            assert forall|i: int| 0 <= i < s.len() implies white_space(#[trigger] s[i]) by {
                if i > 0 {
                    assert(s[i] == t[i - 1]);
                }
            }
        } else {
            let i = choose|i: int| 0 <= i < t.len() && !white_space(#[trigger] t[i]);
            assert(!white_space(s[i + 1]));
        }
    } else if s.len() > 0 {
        assert(!white_space(s[0]));
    }
}

proof fn lemma_strip_front_head(s: Seq<char>)
    ensures
        strip_front(s, space()).len() > 0 ==> !white_space(strip_front(s, space())[0]),
    decreases s.len(),
{
    if s.len() > 0 && white_space(s[0]) {
        lemma_strip_front_head(s.drop_first());
    }
}

proof fn lemma_strip_back_nonempty(s: Seq<char>)
    requires
        s.len() > 0,
        !white_space(s[0]),
    ensures
        strip_back(s, space()).len() > 0,
    decreases s.len(),
{
    if white_space(s.last()) {
        assert(s.len() > 1);
        lemma_strip_back_nonempty(s.drop_last());
    }
}

/// White space in front of a text goes with what is in front of it.
pub proof fn lemma_strip_front_of_concat(a: Seq<char>, b: Seq<char>)
    ensures
        blank(a) ==> strip_front(a + b, space()) == strip_front(b, space()),
        !blank(a) ==> strip_front(a + b, space()) == strip_front(a, space()) + b,
    decreases a.len(),
{
    if a.len() == 0 {
        assert(a + b =~= b);
    } else {
        let rest = a.drop_first();
        assert((a + b).drop_first() =~= rest + b);
        if white_space(a[0]) {
            lemma_strip_front_of_concat(rest, b);
            assert(blank(a) <==> blank(rest)) by {
                assert(forall|i: int| 0 <= i < rest.len() ==> rest[i] == a[i + 1]);
                if blank(rest) {
                    assert forall|i: int| 0 <= i < a.len() implies white_space(
                        #[trigger] a[i],
                    ) by {
                        if i > 0 {
                            assert(a[i] == rest[i - 1]);
                        }
                    }
                }
            }
        } else {
            assert(!blank(a));
        }
    }
}

/// White space behind a text goes when the text is trimmed.
pub proof fn lemma_trimmed_push(s: Seq<char>, c: char)
    requires
        white_space(c),
    ensures
        trimmed(s.push(c)) == trimmed(s),
{
    assert(s.push(c) =~= s + seq![c]);
    lemma_strip_front_of_concat(s, seq![c]);
    if blank(s) {
        assert(blank(s.push(c)));
        lemma_blank_iff_trimmed_empty(s);
        lemma_blank_iff_trimmed_empty(s.push(c));
        assert(trimmed(s) =~= trimmed(s.push(c)));
    } else {
        let front = strip_front(s, space());
        assert((front + seq![c]).drop_last() =~= front);
        assert((front + seq![c]).last() == c);
    }
}

/// White space around a text changes nothing of what trimming leaves.
pub proof fn lemma_trimmed_of_padded(before: Seq<char>, s: Seq<char>, after: Seq<char>)
    requires
        blank(before),
        blank(after),
    ensures
        trimmed(before + s + after) == trimmed(s),
    decreases after.len(),
{
    if after.len() > 0 {
        let c = after.last();
        let shorter = after.drop_last();
        assert(white_space(c));
        lemma_trimmed_of_padded(before, s, shorter);
        assert(before + s + after =~= (before + s + shorter).push(c));
        lemma_trimmed_push(before + s + shorter, c);
    } else {
        assert(before + s + after =~= before + s);
        lemma_strip_front_of_concat(before, s);
    }
}

/// Stripping the back keeps everything up to a character that does not satisfy
/// `p`.
pub proof fn lemma_strip_back_keeps(s: Seq<char>, p: spec_fn(char) -> bool, i: int)
    requires
        0 <= i < s.len(),
        !p(s[i]),
    ensures
        strip_back(s, p).len() > i,
    decreases s.len(),
{
    if p(s.last()) {
        assert(i < s.len() - 1);
        lemma_strip_back_keeps(s.drop_last(), p, i);
    }
}

/// Trimming leaves a text as it is whose ends are not white space.
pub proof fn lemma_trimmed_stays(s: Seq<char>)
    requires
        s.len() > 0 ==> !white_space(s[0]) && !white_space(s.last()),
    ensures
        trimmed(s) == s,
{
}

/// Trimming keeps the start of a text that does not start with white space.
pub proof fn lemma_trimmed_is_take(s: Seq<char>)
    requires
        s.len() > 0 ==> !white_space(s[0]),
    ensures
        trimmed(s) == strip_back(s, space()),
        trimmed(s) == s.take(trimmed(s).len() as int),
        trimmed(s).len() <= s.len(),
        s.len() > 0 ==> trimmed(s).len() > 0,
{
    lemma_strip_back_is_take(s, space());
    if s.len() > 0 {
        lemma_strip_back_keeps(s, space(), 0);
    }
}

/// What trimming leaves is a stretch of the text, and neither starts nor ends
/// with white space.
pub proof fn lemma_trimmed_ends(s: Seq<char>)
    ensures
        trimmed(s).len() > 0 ==> !white_space(trimmed(s)[0]) && !white_space(trimmed(s).last()),
{
    let front = strip_front(s, space());
    lemma_strip_front_head(s);
    lemma_strip_back_is_take(front, space());
    lemma_strip_back_last(front);
}

proof fn lemma_strip_back_last(s: Seq<char>)
    ensures
        strip_back(s, space()).len() > 0 ==> !white_space(strip_back(s, space()).last()),
    decreases s.len(),
{
    if s.len() > 0 && white_space(s.last()) {
        lemma_strip_back_last(s.drop_last());
    }
}

/// What satisfies `p` around a text is all that stripping takes off, where the
/// ends of the text do not satisfy it.
pub proof fn lemma_strip_wrapped(
    before: Seq<char>,
    core: Seq<char>,
    after: Seq<char>,
    p: spec_fn(char) -> bool,
)
    requires
        forall|i: int| 0 <= i < before.len() ==> p(#[trigger] before[i]),
        forall|i: int| 0 <= i < after.len() ==> p(#[trigger] after[i]),
        core.len() > 0 ==> !p(core[0]) && !p(core.last()),
    ensures
        strip(before + core + after, p) == core,
    decreases before.len() + after.len(),
{
    let s = before + core + after;
    if before.len() > 0 {
        let rest = before.drop_first();
        assert(forall|i: int| 0 <= i < rest.len() ==> rest[i] == before[i + 1]);
        assert(s[0] == before[0]);
        assert(s.drop_first() =~= rest + core + after);
        lemma_strip_wrapped(rest, core, after, p);
    } else if core.len() > 0 {
        assert(s =~= core + after);
        assert(s[0] == core[0]);
        lemma_strip_back_wrapped(core, after, p);
    } else if after.len() > 0 {
        let rest = after.drop_first();
        assert(forall|i: int| 0 <= i < rest.len() ==> rest[i] == after[i + 1]);
        assert(s[0] == after[0]);
        assert(s.drop_first() =~= before + core + rest);
        lemma_strip_wrapped(before, core, rest, p);
    } else {
        assert(s =~= core);
    }
}

/// The same at the back alone.
pub proof fn lemma_strip_back_wrapped(core: Seq<char>, after: Seq<char>, p: spec_fn(char) -> bool)
    requires
        core.len() > 0,
        !p(core.last()),
        forall|i: int| 0 <= i < after.len() ==> p(#[trigger] after[i]),
    ensures
        strip_back(core + after, p) == core,
    decreases after.len(),
{
    let s = core + after;
    if after.len() > 0 {
        let rest = after.drop_last();
        assert(s.last() == after.last());
        assert(p(after[after.len() - 1]));
        assert(s.drop_last() =~= core + rest);
        assert(forall|i: int| 0 <= i < rest.len() ==> rest[i] == after[i]);
        lemma_strip_back_wrapped(core, rest, p);
    } else {
        assert(s =~= core);
    }
}

// ---------------------------------------------------------------------------
// Keeping some characters, and comparing
// ---------------------------------------------------------------------------

/// The characters of `s` that satisfy `p`, in order.
pub open spec fn kept(s: Seq<char>, p: spec_fn(char) -> bool) -> Seq<char>
    decreases s.len(),
{
    if s.len() == 0 {
        Seq::empty()
    } else if p(s.last()) {
        kept(s.drop_last(), p).push(s.last())
    } else {
        kept(s.drop_last(), p)
    }
}

/// What is kept of two texts joined is what is kept of each.
pub proof fn lemma_kept_of_concat(a: Seq<char>, b: Seq<char>, p: spec_fn(char) -> bool)
    ensures
        kept(a + b, p) == kept(a, p) + kept(b, p),
    decreases b.len(),
{
    if b.len() == 0 {
        assert(a + b =~= a);
        assert(kept(a, p) + kept(b, p) =~= kept(a, p));
    } else {
        assert((a + b).drop_last() =~= a + b.drop_last());
        lemma_kept_of_concat(a, b.drop_last(), p);
        assert(kept(a + b, p) =~= kept(a, p) + kept(b, p));
    }
}

/// Text all of whose characters satisfy `p` is kept whole.
pub proof fn lemma_kept_whole(s: Seq<char>, p: spec_fn(char) -> bool)
    requires
        forall|i: int| 0 <= i < s.len() ==> p(#[trigger] s[i]),
    ensures
        kept(s, p) == s,
    decreases s.len(),
{
    if s.len() > 0 {
        lemma_kept_whole(s.drop_last(), p);
        assert(s =~= s.drop_last().push(s.last()));
    } else {
        assert(kept(s, p) =~= s);
    }
}

/// Keeping is filtering.
pub proof fn lemma_kept_is_filter(s: Seq<char>, p: spec_fn(char) -> bool, q: spec_fn(char) -> bool)
    requires
        forall|c: char| #[trigger] p(c) == q(c),
    ensures
        kept(s, p) == s.filter(q),
    decreases s.len(),
{
    reveal(Seq::filter);
    if s.len() > 0 {
        lemma_kept_is_filter(s.drop_last(), p, q);
        assert(p(s.last()) == q(s.last()));
    } else {
        assert(kept(s, p) =~= s.filter(q));
    }
}

/// White space at the ends of a text is no loss where it is not kept.
pub proof fn lemma_kept_of_trimmed(s: Seq<char>, p: spec_fn(char) -> bool)
    requires
        forall|c: char| white_space(c) ==> !#[trigger] p(c),
    ensures
        kept(trimmed(s), p) == kept(s, p),
{
    lemma_kept_of_strip_front(s, p);
    lemma_kept_of_strip_back(strip_front(s, space()), p);
}

proof fn lemma_kept_of_strip_front(s: Seq<char>, p: spec_fn(char) -> bool)
    requires
        forall|c: char| white_space(c) ==> !#[trigger] p(c),
    ensures
        kept(strip_front(s, space()), p) == kept(s, p),
    decreases s.len(),
{
    if s.len() > 0 && white_space(s[0]) {
        let first = seq![s[0]];
        assert(s =~= first + s.drop_first());
        lemma_kept_of_concat(first, s.drop_first(), p);
        assert(!p(s[0]));
        assert(first.drop_last() =~= Seq::<char>::empty());
        assert(kept(first, p) =~= Seq::<char>::empty()) by {
            reveal_with_fuel(kept, 2);
        }
        assert(kept(first, p) + kept(s.drop_first(), p) =~= kept(s.drop_first(), p));
        lemma_kept_of_strip_front(s.drop_first(), p);
    }
}

proof fn lemma_kept_of_strip_back(s: Seq<char>, p: spec_fn(char) -> bool)
    requires
        forall|c: char| white_space(c) ==> !#[trigger] p(c),
    ensures
        kept(strip_back(s, space()), p) == kept(s, p),
    decreases s.len(),
{
    if s.len() > 0 && white_space(s.last()) {
        assert(!p(s.last()));
        lemma_kept_of_strip_back(s.drop_last(), p);
    }
}

/// The predicate that holds of ASCII letters and digits.
pub open spec fn alphanumerics() -> spec_fn(char) -> bool {
    |c: char| ascii_alphanumeric(c)
}

/// The predicate that holds of ASCII digits.
pub open spec fn digits() -> spec_fn(char) -> bool {
    |c: char| ascii_digit(c)
}

/// The ASCII letters and digits of `s`.
pub fn keep_alphanumerics(s: &[char]) -> (r: Vec<char>)
    ensures
        r@ == kept(s@, alphanumerics()),
{
    let mut r: Vec<char> = Vec::new();
    let mut i: usize = 0;
    while i < s.len()
        invariant
            i <= s@.len(),
            r@ == kept(s@.take(i as int), alphanumerics()),
        decreases s@.len() - i,
    {
        if is_ascii_alphanumeric(s[i]) {
            r.push(s[i]);
        }
        i += 1;
        assert(s@.take(i as int).drop_last() =~= s@.take(i - 1));
    }
    assert(s@.take(s@.len() as int) =~= s@);
    r
}

/// The ASCII digits of `s`.
pub fn keep_digits(s: &[char]) -> (r: Vec<char>)
    ensures
        r@ == kept(s@, digits()),
{
    let mut r: Vec<char> = Vec::new();
    let mut i: usize = 0;
    while i < s.len()
        invariant
            i <= s@.len(),
            r@ == kept(s@.take(i as int), digits()),
        decreases s@.len() - i,
    {
        if is_ascii_digit(s[i]) {
            r.push(s[i]);
        }
        i += 1;
        assert(s@.take(i as int).drop_last() =~= s@.take(i - 1));
    }
    assert(s@.take(s@.len() as int) =~= s@);
    r
}

/// Whether two pieces of text are the same.
pub fn same(a: &[char], b: &[char]) -> (r: bool)
    ensures
        r == (a@ == b@),
{
    if a.len() != b.len() {
        return false;
    }
    let mut i: usize = 0;
    while i < a.len()
        invariant
            i <= a@.len(),
            a@.len() == b@.len(),
            forall|j: int| 0 <= j < i ==> a@[j] == b@[j],
        decreases a@.len() - i,
    {
        if a[i] != b[i] {
            return false;
        }
        i += 1;
    }
    assert(a@ =~= b@);
    true
}

/// Whether `s` is one of `options`.
pub fn is_one_of(s: &[char], options: &Vec<&str>) -> (r: bool)
    ensures
        r == str_texts(options@).contains(s@),
{
    let mut i: usize = 0;
    while i < options.len()
        invariant
            i <= options@.len(),
            forall|j: int| 0 <= j < i ==> #[trigger] str_texts(options@)[j] != s@,
        decreases options@.len() - i,
    {
        let option = chars_of(options[i]);
        if same(s, &option) {
            assert(str_texts(options@)[i as int] == s@);
            return true;
        }
        i += 1;
    }
    false
}

/// White space is tab, line feed, vertical tab, form feed, carriage return and
/// the space, and outside ASCII the other nineteen characters that Unicode calls
/// so. No letter, digit or punctuation mark is.
pub proof fn lemma_the_white_space_characters(c: char)
    ensures
        c == ' ' || c == '\t' || c == '\n' || c == '\r' ==> white_space(c),
        '!' <= c <= '~' ==> !white_space(c),
        white_space(c) <==> (9 <= c as int <= 13 || c as int == 32 || c as int == 133 || c as int
            == 160 || c as int == 5760 || 8192 <= c as int <= 8202 || c as int == 8232 || c as int
            == 8233 || c as int == 8239 || c as int == 8287 || c as int == 12288),
{
}

} // verus!
