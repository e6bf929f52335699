//! Finding and splitting text.

use crate::text::{
    among, holds, lemma_strip_back_is_take, lemma_strip_front_is_skip, slice_texts, strip,
    strip_front,
};
use vstd::prelude::*;
use vstd::slice::slice_subrange;

verus! {

/// `pattern` stands in `s` at position `i`.
pub open spec fn occurs_at(s: Seq<char>, pattern: Seq<char>, i: int) -> bool {
    &&& 0 <= i
    &&& i + pattern.len() <= s.len()
    &&& s.subrange(i, i + pattern.len()) == pattern
}

/// `pattern` stands somewhere in `s`.
pub open spec fn contains(s: Seq<char>, pattern: Seq<char>) -> bool {
    exists|i: int| occurs_at(s, pattern, i)
}

/// `s` starts with `pattern`.
pub open spec fn starts_with(s: Seq<char>, pattern: Seq<char>) -> bool {
    occurs_at(s, pattern, 0)
}

/// The first position from `from` on at which `pattern` stands in `s`.
pub open spec fn find_from(s: Seq<char>, pattern: Seq<char>, from: int) -> Option<int>
    decreases s.len() + 1 - from,
{
    if from < 0 || from + pattern.len() > s.len() {
        None
    } else if occurs_at(s, pattern, from) {
        Some(from)
    } else {
        find_from(s, pattern, from + 1)
    }
}

/// The first position at which `pattern` stands in `s`.
pub open spec fn find(s: Seq<char>, pattern: Seq<char>) -> Option<int> {
    find_from(s, pattern, 0)
}

/// A position found is an occurrence, none precedes it, and none is missed.
pub proof fn lemma_find_from(s: Seq<char>, pattern: Seq<char>, from: int)
    requires
        0 <= from,
    ensures
        find_from(s, pattern, from) matches Some(i) ==> from <= i && occurs_at(s, pattern, i)
            && (forall|j: int| from <= j < i ==> !occurs_at(s, pattern, j)),
        find_from(s, pattern, from) is None ==> (forall|j: int|
            from <= j ==> !occurs_at(s, pattern, j)),
    decreases s.len() + 1 - from,
{
    if from + pattern.len() <= s.len() && !occurs_at(s, pattern, from) {
        lemma_find_from(s, pattern, from + 1);
    }
}

/// Text contains a pattern exactly when a search from the start finds it.
pub proof fn lemma_contains_iff_found(s: Seq<char>, pattern: Seq<char>)
    ensures
        contains(s, pattern) <==> find(s, pattern) is Some,
{
    lemma_find_from(s, pattern, 0);
}

/// Whether `pattern` stands in `s` at `i`.
pub fn is_at(s: &[char], pattern: &[char], i: usize) -> (r: bool)
    ensures
        r == occurs_at(s@, pattern@, i as int),
{
    if i > s.len() || pattern.len() > s.len() - i {
        return false;
    }
    let n = s.len();
    let mut k: usize = 0;
    while k < pattern.len()
        invariant
            k <= pattern@.len(),
            n == s@.len(),
            i + pattern@.len() <= n,
            forall|j: int| 0 <= j < k ==> s@[i + j] == #[trigger] pattern@[j],
        decreases pattern@.len() - k,
    {
        if s[i + k] != pattern[k] {
            assert(s@.subrange(i as int, i + pattern@.len())[k as int] != pattern@[k as int]);
            return false;
        }
        k += 1;
    }
    assert(s@.subrange(i as int, i + pattern@.len()) =~= pattern@);
    true
}

/// The first position from `from` on at which `pattern` stands in `s`.
pub fn search_from(s: &[char], pattern: &[char], from: usize) -> (r: Option<usize>)
    ensures
        match r {
            Some(i) => find_from(s@, pattern@, from as int) == Some(i as int),
            None => find_from(s@, pattern@, from as int) is None,
        },
{
    let mut i: usize = from;
    while i <= s.len() && pattern.len() <= s.len() - i
        invariant
            from <= i,
            i <= s@.len() + 1 || i == from,
            find_from(s@, pattern@, from as int) == find_from(s@, pattern@, i as int),
        decreases s@.len() + 1 - i,
    {
        if is_at(s, pattern, i) {
            return Some(i);
        }
        if i == s.len() {
            assert(find_from(s@, pattern@, i + 1) is None);
            return None;
        }
        i += 1;
    }
    None
}

/// Whether `pattern` stands somewhere in `s`.
pub fn has(s: &[char], pattern: &[char]) -> (r: bool)
    ensures
        r == contains(s@, pattern@),
{
    proof {
        lemma_contains_iff_found(s@, pattern@);
    }
    search_from(s, pattern, 0).is_some()
}

/// The first position in `s` of a character satisfying `p`.
pub open spec fn first_where(s: Seq<char>, p: spec_fn(char) -> bool) -> Option<int>
    decreases s.len(),
{
    if s.len() == 0 {
        None
    } else if p(s[0]) {
        Some(0)
    } else {
        match first_where(s.drop_first(), p) {
            Some(i) => Some(i + 1),
            None => None,
        }
    }
}

/// The position found satisfies `p`, and nothing before it does.
pub proof fn lemma_first_where(s: Seq<char>, p: spec_fn(char) -> bool)
    ensures
        first_where(s, p) matches Some(i) ==> 0 <= i < s.len() && p(s[i]) && (forall|j: int|
            0 <= j < i ==> !p(#[trigger] s[j])),
        first_where(s, p) is None ==> (forall|j: int| 0 <= j < s.len() ==> !p(#[trigger] s[j])),
    decreases s.len(),
{
    if s.len() > 0 && !p(s[0]) {
        let t = s.drop_first();
        lemma_first_where(t, p);
        assert forall|j: int|
            0 < j < s.len() && (first_where(t, p) matches Some(i) ==> j < i
                + 1) implies !p(#[trigger] s[j]) by {
            assert(s[j] == t[j - 1]);
        }
    }
}

/// `s` cut at every character satisfying `p`; those characters are dropped.
/// Two of them in a row leave an empty piece between them.
pub open spec fn pieces(s: Seq<char>, p: spec_fn(char) -> bool) -> Seq<Seq<char>>
    decreases s.len(),
{
    match first_where(s, p) {
        Some(i) => {
            proof {
                lemma_first_where(s, p);
            }
            seq![s.take(i)] + pieces(s.skip(i + 1), p)
        },
        None => seq![s],
    }
}

/// `s` cut in two at the first `c`, which is dropped; `None` without a `c`.
pub open spec fn cut(s: Seq<char>, c: char) -> Option<(Seq<char>, Seq<char>)> {
    match first_where(s, among(seq![c])) {
        Some(i) => Some((s.take(i), s.skip(i + 1))),
        None => None,
    }
}

/// The first position in `s` of a character in `set`.
pub fn search_any(s: &[char], set: &[char]) -> (r: Option<usize>)
    ensures
        match r {
            Some(i) => i < s@.len() && first_where(s@, among(set@)) == Some(i as int),
            None => first_where(s@, among(set@)) is None,
        },
{
    let mut i: usize = 0;
    assert(s@.skip(0) =~= s@);
    while i < s.len()
        invariant
            i <= s@.len(),
            first_where(s@, among(set@)) == (match first_where(s@.skip(i as int), among(set@)) {
                Some(k) => Some(k + i),
                None => None,
            }),
        decreases s@.len() - i,
    {
        if holds(set, s[i]) {
            return Some(i);
        }
        assert(s@.skip(i as int).drop_first() =~= s@.skip(i + 1));
        i += 1;
    }
    None
}

/// Cuts `s` in two at the first `c`.
pub fn split_once(s: &[char], c: char) -> (r: Option<(&[char], &[char])>)
    ensures
        match r {
            Some((head, tail)) => cut(s@, c) == Some((head@, tail@)),
            None => cut(s@, c) is None,
        },
{
    let set: [char; 1] = [c];
    let n = s.len();
    let found = search_any(s, &set);
    assert(set@ =~= seq![c]);
    match found {
        Some(i) => {
            assert(s@.subrange(0, i as int) =~= s@.take(i as int));
            assert(s@.subrange(i + 1, s@.len() as int) =~= s@.skip(i + 1));
            Some((slice_subrange(s, 0, i), slice_subrange(s, i + 1, n)))
        },
        None => None,
    }
}

/// Cuts `s` at every character in `set`.
pub fn split<'a>(s: &'a [char], set: &[char]) -> (r: Vec<&'a [char]>)
    ensures
        slice_texts(r@) == pieces(s@, among(set@)),
{
    let mut r: Vec<&'a [char]> = Vec::new();
    let mut rest: &'a [char] = s;
    assert(slice_texts(r@) + pieces(rest@, among(set@)) =~= pieces(s@, among(set@)));
    loop
        invariant
            slice_texts(r@) + pieces(rest@, among(set@)) == pieces(s@, among(set@)),
        decreases rest@.len(),
    {
        let n = rest.len();
        match search_any(rest, set) {
            Some(i) => {
                let ghost before = slice_texts(r@);
                let head = slice_subrange(rest, 0, i);
                let tail = slice_subrange(rest, i + 1, n);
                assert(head@ =~= rest@.take(i as int));
                assert(tail@ =~= rest@.skip(i + 1));
                r.push(head);
                assert(slice_texts(r@) =~= before + seq![rest@.take(i as int)]);
                assert(slice_texts(r@) + pieces(tail@, among(set@)) =~= before + (seq![
                    rest@.take(i as int),
                ] + pieces(tail@, among(set@))));
                rest = tail;
            },
            None => {
                let ghost before = slice_texts(r@);
                r.push(rest);
                assert(slice_texts(r@) =~= before + seq![rest@]);
                return r;
            },
        }
    }
}

// ---------------------------------------------------------------------------
// Parts of a text
// ---------------------------------------------------------------------------

/// A stretch of `s` stands in `s`.
pub proof fn lemma_subrange_contained(s: Seq<char>, i: int, j: int)
    requires
        0 <= i <= j <= s.len(),
    ensures
        contains(s, s.subrange(i, j)),
{
    assert(s.subrange(i, i + s.subrange(i, j).len()) =~= s.subrange(i, j));
    assert(occurs_at(s, s.subrange(i, j), i));
}

/// What stands in a part of `s` stands in `s`.
pub proof fn lemma_contains_trans(s: Seq<char>, part: Seq<char>, inner: Seq<char>)
    requires
        contains(s, part),
        contains(part, inner),
    ensures
        contains(s, inner),
{
    let i = choose|i: int| occurs_at(s, part, i);
    let j = choose|j: int| occurs_at(part, inner, j);
    assert forall|k: int| 0 <= k < inner.len() implies #[trigger] s.subrange(
        i + j,
        i + j + inner.len(),
    )[k] == inner[k] by {
        assert(s.subrange(i, i + part.len())[j + k] == part[j + k]);
        assert(part.subrange(j, j + inner.len())[k] == inner[k]);
    }
    assert(s.subrange(i + j, i + j + inner.len()) =~= inner);
    assert(occurs_at(s, inner, i + j));
}

/// What stripping leaves of `s` stands in `s`.
pub proof fn lemma_strip_contained(s: Seq<char>, p: spec_fn(char) -> bool)
    ensures
        contains(s, strip(s, p)),
{
    let front = strip_front(s, p);
    let left = strip(s, p);
    let start = s.len() - front.len();
    lemma_strip_front_is_skip(s, p);
    lemma_strip_back_is_take(front, p);
    lemma_subrange_contained(s, start, start + left.len());
    assert(s.subrange(start, start + left.len()) =~= left);
}

/// Each piece of `s` stands in `s`.
pub proof fn lemma_pieces_contained(s: Seq<char>, p: spec_fn(char) -> bool)
    ensures
        forall|k: int| 0 <= k < pieces(s, p).len() ==> contains(s, #[trigger] pieces(s, p)[k]),
    decreases s.len(),
{
    lemma_first_where(s, p);
    match first_where(s, p) {
        Some(i) => {
            let rest = s.skip(i + 1);
            lemma_pieces_contained(rest, p);
            lemma_subrange_contained(s, 0, i);
            lemma_subrange_contained(s, i + 1, s.len() as int);
            assert(s.subrange(0, i) =~= s.take(i));
            assert(s.subrange(i + 1, s.len() as int) =~= rest);
            assert forall|k: int| 0 <= k < pieces(s, p).len() implies contains(
                s,
                #[trigger] pieces(s, p)[k],
            ) by {
                if k > 0 {
                    assert(pieces(s, p)[k] == pieces(rest, p)[k - 1]);
                    lemma_contains_trans(s, rest, pieces(rest, p)[k - 1]);
                }
            }
        },
        None => {
            lemma_subrange_contained(s, 0, s.len() as int);
            assert(s.subrange(0, s.len() as int) =~= s);
        },
    }
}

/// Where the first character satisfying `p` stands in a text joined of two.
pub proof fn lemma_first_where_of_concat(a: Seq<char>, b: Seq<char>, p: spec_fn(char) -> bool)
    ensures
        first_where(a, p) is Some ==> first_where(a + b, p) == first_where(a, p),
        first_where(a, p) is None && b.len() > 0 && p(b[0]) ==> first_where(a + b, p) == Some(
            a.len() as int,
        ),
    decreases a.len(),
{
    if a.len() > 0 && !p(a[0]) {
        assert((a + b).drop_first() =~= a.drop_first() + b);
        lemma_first_where_of_concat(a.drop_first(), b, p);
    }
}

/// Cutting two texts joined by a separator gives the pieces of both.
pub proof fn lemma_pieces_of_join(a: Seq<char>, c: char, b: Seq<char>, p: spec_fn(char) -> bool)
    requires
        p(c),
    ensures
        pieces(a + seq![c] + b, p) == pieces(a, p) + pieces(b, p),
    decreases a.len(),
{
    let joined = a + seq![c] + b;
    assert(joined =~= a + (seq![c] + b));
    lemma_first_where(a, p);
    lemma_first_where_of_concat(a, seq![c] + b, p);
    match first_where(a, p) {
        Some(i) => {
            assert(joined.take(i) =~= a.take(i));
            assert(joined.skip(i + 1) =~= a.skip(i + 1) + seq![c] + b);
            lemma_pieces_of_join(a.skip(i + 1), c, b, p);
            assert(seq![a.take(i)] + (pieces(a.skip(i + 1), p) + pieces(b, p)) =~= (seq![a.take(i)]
                + pieces(a.skip(i + 1), p)) + pieces(b, p));
        },
        None => {
            let n = a.len() as int;
            assert(joined.take(n) =~= a);
            assert(joined.skip(n + 1) =~= b);
        },
    }
}

/// Both halves of a text that is cut stand in it.
pub proof fn lemma_cut_contained(s: Seq<char>, c: char)
    ensures
        cut(s, c) matches Some((head, tail)) ==> contains(s, head) && contains(s, tail),
{
    lemma_first_where(s, among(seq![c]));
    if let Some(i) = first_where(s, among(seq![c])) {
        lemma_subrange_contained(s, 0, i);
        lemma_subrange_contained(s, i + 1, s.len() as int);
        assert(s.subrange(0, i) =~= s.take(i));
        assert(s.subrange(i + 1, s.len() as int) =~= s.skip(i + 1));
    }
}

/// A text is cut at the first `c` in it.
pub proof fn lemma_cut_first(head: Seq<char>, c: char, tail: Seq<char>)
    requires
        forall|i: int| 0 <= i < head.len() ==> #[trigger] head[i] != c,
    ensures
        cut(head + seq![c] + tail, c) == Some((head, tail)),
{
    let s = head + seq![c] + tail;
    let p = among(seq![c]);
    let n = head.len() as int;
    assert(seq![c][0] == c);
    lemma_first_where(head, p);
    if let Some(i) = first_where(head, p) {
        assert(seq![c].contains(head[i]));
    }
    assert(s =~= head + (seq![c] + tail));
    lemma_first_where_of_concat(head, seq![c] + tail, p);
    assert(s.take(n) =~= head);
    assert(s.skip(n + 1) =~= tail);
}

/// A text without `c` is not cut.
pub proof fn lemma_no_cut(s: Seq<char>, c: char)
    requires
        forall|i: int| 0 <= i < s.len() ==> #[trigger] s[i] != c,
    ensures
        cut(s, c) is None,
{
    let p = among(seq![c]);
    lemma_first_where(s, p);
    if let Some(i) = first_where(s, p) {
        assert(seq![c].contains(s[i]));
    }
}

} // verus!
