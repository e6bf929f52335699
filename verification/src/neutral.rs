//! Counters that read zero change nothing.
//!
//! Gateways close a report with lines such as `Total Invalid Numbers : 0`. Such
//! a line names a failure and reports none, so a body with the line behind it
//! says exactly what the body says without it.

use crate::decimal::{all_digits, digits_value, number_of};
use crate::json::DocumentView;
use crate::response::{
    complains, confirms, counter, counter_tokens, counts_failures, failure_tokens, first_bad_count,
    first_complaint, first_confirmation, first_line, first_nonempty, first_such, flattened, id_char,
    id_in, id_labels, id_wrapping, label_of, labeled_id, lemma_line_id_found,
    lemma_standalone_is_a_word, line_id, looks_like_json, segment_id, segments, separators,
    standalone, success_tokens, text_verdict, verdict,
};
use crate::search::{
    contains, cut, first_where, lemma_contains_trans, lemma_first_where,
    lemma_first_where_of_concat, lemma_pieces_of_join, lemma_strip_contained, occurs_at, pieces,
};
use crate::text::{
    alphanumerics, among, ascii_alphanumeric, ascii_digit, blank, kept,
    lemma_blank_iff_trimmed_empty, lemma_kept_of_concat, lemma_kept_whole,
    lemma_strip_back_is_take, lemma_strip_front_is_skip, lemma_strip_front_of_concat,
    lemma_trimmed_push, lowered, space, strip, strip_back, strip_front, trimmed,
    white_space,
};
use vstd::prelude::*;

verus! {

// ---------------------------------------------------------------------------
// White space at the end of a text
// ---------------------------------------------------------------------------

/// The pieces of `s`, each trimmed.
pub open spec fn trimmed_pieces(s: Seq<char>, p: spec_fn(char) -> bool) -> Seq<Seq<char>> {
    Seq::new(pieces(s, p).len(), |i: int| trimmed(pieces(s, p)[i]))
}

/// A text is what is left of it without the white space at its end, and that
/// white space.
proof fn lemma_strip_back_split(s: Seq<char>) -> (w: Seq<char>)
    ensures
        s == strip_back(s, space()) + w,
        blank(w),
    decreases s.len(),
{
    if s.len() > 0 && white_space(s.last()) {
        let rest = lemma_strip_back_split(s.drop_last());
        let w = rest.push(s.last());
        assert(s =~= s.drop_last().push(s.last()));
        assert(strip_back(s, space()) == strip_back(s.drop_last(), space()));
        assert(s =~= strip_back(s, space()) + w);
        w
    } else {
        assert(s =~= s + Seq::<char>::empty());
        Seq::empty()
    }
}

/// One more character that ends no piece is added to the last piece.
proof fn lemma_pieces_of_push(s: Seq<char>, c: char, p: spec_fn(char) -> bool)
    requires
        !p(c),
    ensures
        pieces(s, p).len() > 0,
        pieces(s.push(c), p) == pieces(s, p).drop_last().push(pieces(s, p).last().push(c)),
    decreases s.len(),
{
    lemma_first_where(s, p);
    lemma_first_where(s.push(c), p);
    assert(s.push(c) =~= s + seq![c]);
    lemma_first_where_of_concat(s, seq![c], p);
    match first_where(s, p) {
        Some(i) => {
            let rest = s.skip(i + 1);
            lemma_pieces_of_push(rest, c, p);
            assert(s.push(c).take(i) =~= s.take(i));
            assert(s.push(c).skip(i + 1) =~= rest.push(c));
            assert(pieces(s.push(c), p) =~= pieces(s, p).drop_last().push(
                pieces(s, p).last().push(c),
            ));
        },
        None => {
            if let Some(k) = first_where(s.push(c), p) {
                if k < s.len() {
                    assert(s.push(c)[k] == s[k]);
                }
            }
            assert(pieces(s.push(c), p) =~= pieces(s, p).drop_last().push(
                pieces(s, p).last().push(c),
            ));
        },
    }
}

/// White space behind a text adds only empty pieces.
proof fn lemma_trimmed_pieces_of_blank_end(s: Seq<char>, w: Seq<char>, p: spec_fn(char) -> bool) -> (
    extra: Seq<Seq<char>>)
    requires
        blank(w),
    ensures
        trimmed_pieces(s + w, p) == trimmed_pieces(s, p) + extra,
        forall|i: int| 0 <= i < extra.len() ==> (#[trigger] extra[i]).len() == 0,
    decreases w.len(),
{
    if w.len() == 0 {
        assert(s + w =~= s);
        assert(trimmed_pieces(s, p) + Seq::<Seq<char>>::empty() =~= trimmed_pieces(s, p));
        Seq::empty()
    } else {
        let w0 = w.drop_last();
        let c = w.last();
        let before = s + w0;
        let extra0 = lemma_trimmed_pieces_of_blank_end(s, w0, p);
        assert(white_space(c));
        assert(s + w =~= before.push(c));
        if p(c) {
            let none = Seq::<char>::empty();
            lemma_pieces_of_join(before, c, none, p);
            assert(before.push(c) =~= before + seq![c] + none);
            assert(pieces(none, p) =~= seq![none]);
            assert(trimmed(none).len() == 0);
            assert(trimmed_pieces(s + w, p) =~= trimmed_pieces(before, p).push(trimmed(none)));
            assert(trimmed_pieces(s + w, p) =~= trimmed_pieces(s, p) + extra0.push(trimmed(none)));
            extra0.push(trimmed(none))
        } else {
            lemma_pieces_of_push(before, c, p);
            lemma_trimmed_push(pieces(before, p).last(), c);
            assert(trimmed_pieces(s + w, p) =~= trimmed_pieces(before, p));
            extra0
        }
    }
}

// ---------------------------------------------------------------------------
// Segments that say nothing
// ---------------------------------------------------------------------------

/// A segment that neither counts failures, nor confirms, nor complains, nor
/// carries a labelled id.
pub open spec fn says_nothing(segment: Seq<char>) -> bool {
    &&& !counts_failures(segment)
    &&& !confirms(segment)
    &&& !complains(segment)
    &&& segment_id(segment) is None
}

proof fn lemma_first_such_of_concat(
    a: Seq<Seq<char>>,
    b: Seq<Seq<char>>,
    p: spec_fn(Seq<char>) -> bool,
)
    requires
        forall|i: int| 0 <= i < b.len() ==> !p(#[trigger] b[i]),
    ensures
        first_such(a + b, p) == first_such(a, p),
    decreases a.len() + b.len(),
{
    if a.len() > 0 {
        assert((a + b).drop_first() =~= a.drop_first() + b);
        lemma_first_such_of_concat(a.drop_first(), b, p);
    } else if b.len() > 0 {
        assert((a + b)[0] == b[0]);
        assert((a + b).drop_first() =~= a + b.drop_first());
        lemma_first_such_of_concat(a, b.drop_first(), p);
    }
}

proof fn lemma_labeled_id_of_concat(a: Seq<Seq<char>>, b: Seq<Seq<char>>)
    requires
        forall|i: int| 0 <= i < b.len() ==> segment_id(#[trigger] b[i]) is None,
    ensures
        labeled_id(a + b) == labeled_id(a),
    decreases a.len() + b.len(),
{
    if a.len() > 0 {
        assert((a + b).drop_first() =~= a.drop_first() + b);
        lemma_labeled_id_of_concat(a.drop_first(), b);
    } else if b.len() > 0 {
        assert((a + b)[0] == b[0]);
        assert((a + b).drop_first() =~= a + b.drop_first());
        lemma_labeled_id_of_concat(a, b.drop_first());
    }
}

proof fn lemma_first_nonempty_of_concat(a: Seq<Seq<char>>, b: Seq<Seq<char>>)
    ensures
        first_nonempty(a) is Some ==> first_nonempty(a + b) == first_nonempty(a),
        first_nonempty(a) is None ==> first_nonempty(a + b) == first_nonempty(b),
    decreases a.len(),
{
    if a.len() > 0 {
        assert((a + b).drop_first() =~= a.drop_first() + b);
        lemma_first_nonempty_of_concat(a.drop_first(), b);
    } else {
        assert(a + b =~= b);
    }
}

proof fn lemma_all_empty(parts: Seq<Seq<char>>)
    ensures
        (forall|i: int| 0 <= i < parts.len() ==> (#[trigger] parts[i]).len() == 0)
            <==> first_nonempty(parts) is None,
    decreases parts.len(),
{
    if parts.len() > 0 && parts[0].len() == 0 {
        let rest = parts.drop_first();
        lemma_all_empty(rest);
        assert(forall|i: int| 0 <= i < rest.len() ==> rest[i] == parts[i + 1]);
        if first_nonempty(parts) is None {
            assert forall|i: int| 0 <= i < parts.len() implies (#[trigger] parts[i]).len()
                == 0 by {
                if i > 0 {
                    assert(parts[i] == rest[i - 1]);
                }
            }
        }
    }
}

/// A text whose pieces are all blank is blank, where what ends a piece is.
proof fn lemma_blank_pieces(s: Seq<char>, p: spec_fn(char) -> bool)
    requires
        forall|c: char| #[trigger] p(c) ==> white_space(c),
        forall|i: int| 0 <= i < pieces(s, p).len() ==> blank(#[trigger] pieces(s, p)[i]),
    ensures
        blank(s),
    decreases s.len(),
{
    lemma_first_where(s, p);
    match first_where(s, p) {
        Some(i) => {
            let rest = s.skip(i + 1);
            let parts = pieces(s, p);
            assert(parts[0] == s.take(i));
            assert forall|k: int| 0 <= k < pieces(rest, p).len() implies blank(
                #[trigger] pieces(rest, p)[k],
            ) by {
                assert(parts[k + 1] == pieces(rest, p)[k]);
            }
            lemma_blank_pieces(rest, p);
            assert forall|j: int| 0 <= j < s.len() implies white_space(#[trigger] s[j]) by {
                if j < i {
                    assert(s.take(i)[j] == s[j]);
                } else if j > i {
                    assert(rest[j - i - 1] == s[j]);
                }
            }
        },
        None => {
            assert(pieces(s, p)[0] == s);
        },
    }
}

/// Blank text holds no id.
proof fn lemma_no_id_in_blank(s: Seq<char>)
    requires
        blank(s),
    ensures
        line_id(s) is None,
{
    lemma_line_id_found(s);
    if let Some(id) = line_id(s) {
        let core = strip(id, among(id_wrapping()));
        lemma_strip_contained(id, among(id_wrapping()));
        lemma_contains_trans(s, id, core);
        let at = choose|i: int| occurs_at(s, core, i);
        let k = choose|i: int| 0 <= i < core.len() && ascii_digit(#[trigger] core[i]);
        assert(s.subrange(at, at + core.len())[k] == core[k]);
        assert(white_space(s[at + k]));
    }
}

/// An empty segment says nothing.
proof fn lemma_empty_says_nothing(s: Seq<char>)
    requires
        s.len() == 0,
    ensures
        says_nothing(s),
{
    let low = lowered(s);
    assert(cut(s, ':') is None);
    assert(cut(low, ':') is None);
    reveal_strlit("submitted successfully");
    reveal_strlit("sent successfully");
    reveal_strlit("success");
    reveal_strlit("msg-id");
    reveal_strlit("message id");
    assert forall|i: int| 0 <= i < success_tokens().len() implies !contains(
        low,
        #[trigger] success_tokens()[i],
    ) by {
        assert(success_tokens()[i].len() > 0);
    }
    reveal_strlit("error");
    reveal_strlit("invalid");
    reveal_strlit("failed");
    reveal_strlit("failure");
    reveal_strlit("reject");
    reveal_strlit("insufficient");
    reveal_strlit("unauthor");
    reveal_strlit("not allowed");
    assert forall|i: int| 0 <= i < failure_tokens().len() implies !standalone(
        low,
        #[trigger] failure_tokens()[i],
    ) by {
        let token = failure_tokens()[i];
        assert(token.len() > 0);
        lemma_standalone_is_a_word(low, token);
    }
}

// ---------------------------------------------------------------------------
// Text behind a body
// ---------------------------------------------------------------------------

/// Whether a tag is open behind `s`, where `in_tag` says whether one is open
/// before it.
pub open spec fn tag_after(s: Seq<char>, in_tag: bool) -> bool
    decreases s.len(),
{
    if s.len() == 0 {
        in_tag
    } else {
        tag_after(s.drop_first(), s[0] == '<' || (in_tag && s[0] != '>'))
    }
}

proof fn lemma_flattened_of_concat(a: Seq<char>, b: Seq<char>, in_tag: bool)
    ensures
        flattened(a + b, in_tag) == flattened(a, in_tag) + flattened(b, tag_after(a, in_tag)),
    decreases a.len(),
{
    if a.len() == 0 {
        assert(a + b =~= b);
        assert(flattened(a, in_tag) + flattened(b, in_tag) =~= flattened(b, in_tag));
    } else {
        let now = a[0] == '<' || (in_tag && a[0] != '>');
        assert((a + b).drop_first() =~= a.drop_first() + b);
        lemma_flattened_of_concat(a.drop_first(), b, now);
        assert(flattened(a + b, in_tag) =~= flattened(a, in_tag) + flattened(
            b,
            tag_after(a, in_tag),
        ));
    }
}

/// No markup in it.
pub open spec fn plain(s: Seq<char>) -> bool {
    forall|i: int| 0 <= i < s.len() ==> #[trigger] s[i] != '<' && s[i] != '>'
}

proof fn lemma_flattened_plain(s: Seq<char>)
    requires
        plain(s),
    ensures
        flattened(s, false) == s,
        flattened(s, true).len() == 0,
    decreases s.len(),
{
    if s.len() > 0 {
        let rest = s.drop_first();
        assert(forall|i: int| 0 <= i < rest.len() ==> rest[i] == s[i + 1]);
        lemma_flattened_plain(rest);
        assert(flattened(s, false) =~= s);
    }
}

/// A line that counts failures and reads zero: a single trimmed segment without
/// markup, with nothing in it that could pass for an id.
pub open spec fn zero_counter(line: Seq<char>) -> bool {
    &&& line.len() > 0
    &&& trimmed(line) == line
    &&& plain(line)
    &&& pieces(line, among(separators())) == seq![line]
    &&& counter(lowered(line)) == Some(0u64)
    &&& segment_id(line) is None
    &&& line_id(line) is None
}

/// What a line set behind a flattened body, with white space between them, adds
/// to its trimmed pieces.
proof fn lemma_pieces_behind(
    flat: Seq<char>,
    w: Seq<char>,
    line: Seq<char>,
    p: spec_fn(char) -> bool,
) -> (extra: Seq<Seq<char>>)
    requires
        blank(w),
        p('\n'),
        pieces(line, p) == seq![line],
        trimmed(line) == line,
    ensures
        trimmed_pieces(flat + w + seq!['\n'] + line, p) == trimmed_pieces(flat, p) + extra.push(
            line,
        ),
        forall|i: int| 0 <= i < extra.len() ==> (#[trigger] extra[i]).len() == 0,
{
    let extra = lemma_trimmed_pieces_of_blank_end(flat, w, p);
    lemma_pieces_of_join(flat + w, '\n', line, p);
    assert(trimmed_pieces(flat + w + seq!['\n'] + line, p) =~= trimmed_pieces(flat + w, p).push(
        line,
    ));
    assert(trimmed_pieces(flat, p) + extra.push(line) =~= (trimmed_pieces(flat, p) + extra).push(
        line,
    ));
    extra
}

/// The id in a flattened body is the same with the line behind it.
proof fn lemma_same_id(flat: Seq<char>, w: Seq<char>, line: Seq<char>)
    requires
        blank(w),
        zero_counter(line),
    ensures
        line_id(first_line(flat + w + seq!['\n'] + line)) == line_id(first_line(flat)),
{
    let longer = flat + w + seq!['\n'] + line;
    let p = among(seq!['\n']);
    assert(seq!['\n'][0] == '\n');
    assert(separators()[0] == '\n');
    lemma_first_where(line, among(separators()));
    lemma_first_where(line, p);
    assert(first_where(line, among(separators())) is None) by {
        if let Some(i) = first_where(line, among(separators())) {
            assert(pieces(line, among(separators()))[0] == line.take(i));
            assert(line.take(i).len() == i);
        }
    }
    assert(first_where(line, p) is None) by {
        if let Some(i) = first_where(line, p) {
            assert(line[i] == '\n');
            assert(among(separators())(line[i]));
        }
    }
    assert(pieces(line, p) =~= seq![line]);
    let extra = lemma_pieces_behind(flat, w, line, p);
    let lines = trimmed_pieces(flat, p);
    let more = trimmed_pieces(longer, p);
    lemma_first_nonempty_of_concat(lines, extra.push(line));
    assert(first_nonempty(extra.push(line)) == Some(line)) by {
        assert(extra.push(line) =~= extra + seq![line]);
        lemma_first_nonempty_of_concat(extra, seq![line]);
        lemma_all_empty(extra);
    }
    assert(Seq::new(
        pieces(longer, p).len(),
        |i: int| trimmed(pieces(longer, p)[i]),
    ) =~= more);
    assert(Seq::new(pieces(flat, p).len(), |i: int| trimmed(pieces(flat, p)[i])) =~= lines);
    if first_nonempty(lines) is None {
        lemma_all_empty(lines);
        assert forall|i: int| 0 <= i < pieces(flat, p).len() implies blank(
            #[trigger] pieces(flat, p)[i],
        ) by {
            assert(lines[i] == trimmed(pieces(flat, p)[i]));
            lemma_blank_iff_trimmed_empty(pieces(flat, p)[i]);
        }
        lemma_blank_pieces(flat, p);
        lemma_no_id_in_blank(flat);
    }
}

/// A flattened body says the same with the line behind it.
proof fn lemma_same_text_verdict(flat: Seq<char>, w: Seq<char>, line: Seq<char>)
    requires
        blank(w),
        zero_counter(line),
    ensures
        text_verdict(flat + w + seq!['\n'] + line) == text_verdict(flat),
{
    let longer = flat + w + seq!['\n'] + line;
    let p = among(separators());
    assert(separators()[0] == '\n');
    let extra = lemma_pieces_behind(flat, w, line, p);
    let idle = extra.push(line);
    assert(segments(flat) =~= trimmed_pieces(flat, p));
    assert(segments(longer) =~= segments(flat) + idle);
    assert forall|i: int| 0 <= i < idle.len() implies says_nothing(#[trigger] idle[i]) by {
        if i < extra.len() {
            assert(idle[i] == extra[i]);
            lemma_empty_says_nothing(idle[i]);
        } else {
            assert(idle[i] == line);
        }
    }
    lemma_first_such_of_concat(segments(flat), idle, |s: Seq<char>| counts_failures(s));
    lemma_first_such_of_concat(segments(flat), idle, |s: Seq<char>| confirms(s));
    lemma_first_such_of_concat(segments(flat), idle, |s: Seq<char>| complains(s));
    lemma_labeled_id_of_concat(segments(flat), idle);
    lemma_same_id(flat, w, line);
    assert(first_bad_count(segments(longer)) == first_bad_count(segments(flat)));
    assert(first_confirmation(segments(longer)) == first_confirmation(segments(flat)));
    assert(first_complaint(segments(longer)) == first_complaint(segments(flat)));
    assert(id_in(longer) == id_in(flat));
}

/// A failure counter that reads zero is neutral: a plain text body with such a
/// line behind it is accepted or rejected as the body alone is, with the same
/// message id or the same reason.
pub proof fn lemma_zero_counter_is_neutral(
    body: Seq<char>,
    line: Seq<char>,
    with_line: Option<DocumentView>,
    without: Option<DocumentView>,
)
    requires
        trimmed(body).len() > 0,
        !looks_like_json(trimmed(body)),
        zero_counter(line),
    ensures
        verdict(body + seq!['\n'] + line, with_line) == verdict(body, without),
{
    let front = strip_front(body, space());
    let text = trimmed(body);
    let behind = seq!['\n'] + line;
    let w = lemma_strip_back_split(front);
    lemma_blank_iff_trimmed_empty(body);
    lemma_strip_front_of_concat(body, behind);
    assert(body + seq!['\n'] + line =~= body + behind);
    assert((front + behind).last() == line.last());
    assert(!white_space(line.last())) by {
        lemma_last_of_trimmed(line);
    }
    assert(trimmed(body + behind) == front + behind);
    let end = w + seq!['\n'] + line;
    assert(front + behind =~= text + end);
    assert((text + end)[0] == text[0]);
    assert(plain(end));
    lemma_flattened_of_concat(text, end, false);
    lemma_flattened_plain(end);
    let flat = flattened(text, false);
    if tag_after(text, false) {
        assert(flat + flattened(end, true) =~= flat);
    } else {
        assert(flat + end =~= flat + w + seq!['\n'] + line);
        lemma_same_text_verdict(flat, w, line);
    }
}

/// A trimmed text does not end in white space.
proof fn lemma_last_of_trimmed(s: Seq<char>)
    requires
        s.len() > 0,
        trimmed(s) == s,
    ensures
        !white_space(s.last()),
{
    let front = strip_front(s, space());
    lemma_strip_front_is_skip(s, space());
    lemma_strip_back_is_take(front, space());
    assert(s.skip(0) =~= s);
    if white_space(s.last()) {
        lemma_strip_back_is_take(front.drop_last(), space());
    }
}

// ---------------------------------------------------------------------------
// The line that gateways send
// ---------------------------------------------------------------------------

/// A word and the space behind it keep the word.
proof fn lemma_kept_word(word: Seq<char>)
    requires
        forall|i: int| 0 <= i < word.len() ==> ascii_alphanumeric(#[trigger] word[i]),
    ensures
        kept(word.push(' '), alphanumerics()) == word,
{
    assert(word.push(' ').drop_last() =~= word);
    lemma_kept_whole(word, alphanumerics());
}

/// The label that three words make.
proof fn lemma_label_of_words(a: Seq<char>, b: Seq<char>, c: Seq<char>)
    requires
        forall|i: int| 0 <= i < a.len() ==> ascii_alphanumeric(#[trigger] a[i]),
        forall|i: int| 0 <= i < b.len() ==> ascii_alphanumeric(#[trigger] b[i]),
        forall|i: int| 0 <= i < c.len() ==> ascii_alphanumeric(#[trigger] c[i]),
    ensures
        label_of(a.push(' ') + b.push(' ') + c.push(' ')) == lowered(a + b + c),
{
    let p = alphanumerics();
    lemma_kept_word(a);
    lemma_kept_word(b);
    lemma_kept_word(c);
    lemma_kept_of_concat(a.push(' ') + b.push(' '), c.push(' '), p);
    lemma_kept_of_concat(a.push(' '), b.push(' '), p);
}

/// The characters of the line.
proof fn lemma_total_line()
    ensures
        "Total Invalid Numbers : 0"@ == seq!['T', 'o', 't', 'a', 'l', ' '] + seq![
            'I',
            'n',
            'v',
            'a',
            'l',
            'i',
            'd',
            ' ',
        ] + seq!['N', 'u', 'm', 'b', 'e', 'r', 's', ' '] + seq![':', ' ', '0'],
{
    reveal_strlit("Total Invalid Numbers : 0");
    assert("Total Invalid Numbers : 0"@ =~= seq!['T', 'o', 't', 'a', 'l', ' '] + seq![
        'I',
        'n',
        'v',
        'a',
        'l',
        'i',
        'd',
        ' ',
    ] + seq!['N', 'u', 'm', 'b', 'e', 'r', 's', ' '] + seq![':', ' ', '0']);
}

/// Cutting at the first colon, where nothing before it is one.
proof fn lemma_cut_at_colon(label: Seq<char>, value: Seq<char>)
    requires
        forall|i: int| 0 <= i < label.len() ==> #[trigger] label[i] != ':',
    ensures
        cut(label + seq![':'] + value, ':') == Some((label, value)),
{
    let s = label + seq![':'] + value;
    let p = among(seq![':']);
    let n = label.len() as int;
    assert(seq![':'][0] == ':');
    lemma_first_where(label, p);
    assert(first_where(label, p) is None) by {
        if let Some(i) = first_where(label, p) {
            assert(seq![':'].contains(label[i]));
        }
    }
    assert(s =~= label + (seq![':'] + value));
    lemma_first_where_of_concat(label, seq![':'] + value, p);
    assert(s.take(n) =~= label);
    assert(s.skip(n + 1) =~= value);
}

/// `0` with a space before it reads zero.
proof fn lemma_reads_zero()
    ensures
        trimmed(seq![' ', '0']) == seq!['0'],
        number_of(seq!['0']) == Some(0u64),
{
    let s = seq![' ', '0'];
    assert(s.drop_first() =~= seq!['0']);
    assert(strip_front(seq!['0'], space()) == seq!['0']);
    assert(strip_back(seq!['0'], space()) == seq!['0']);
    reveal_with_fuel(digits_value, 2);
    assert(all_digits(seq!['0']));
    assert(digits_value(seq!['0']) == 0);
}

/// A label of nineteen characters names no id.
proof fn lemma_long_label_is_no_id(label: Seq<char>)
    requires
        label.len() == 19,
    ensures
        !id_labels().contains(label),
{
    reveal_strlit("msgid");
    reveal_strlit("messageid");
    reveal_strlit("id");
    reveal_strlit("smsid");
    reveal_strlit("jobid");
    reveal_strlit("batchid");
    if id_labels().contains(label) {
        let i = choose|i: int| 0 <= i < id_labels().len() && id_labels()[i] == label;
        assert(id_labels()[i].len() < 19);
    }
}

/// The line carries a count of zero and no labelled id.
proof fn lemma_total_line_counts_zero()
    ensures
        counter(lowered("Total Invalid Numbers : 0"@)) == Some(0u64),
        segment_id("Total Invalid Numbers : 0"@) is None,
{
    let line = "Total Invalid Numbers : 0"@;
    let value = seq![' ', '0'];
    let total = seq!['T', 'o', 't', 'a', 'l'];
    let invalid = seq!['I', 'n', 'v', 'a', 'l', 'i', 'd'];
    let numbers = seq!['N', 'u', 'm', 'b', 'e', 'r', 's'];
    let label = total.push(' ') + invalid.push(' ') + numbers.push(' ');
    lemma_total_line();
    assert(line =~= label + seq![':'] + value);
    lemma_cut_at_colon(label, value);
    lemma_label_of_words(total, invalid, numbers);
    lemma_long_label_is_no_id(label_of(label));
    let low_total = seq!['t', 'o', 't', 'a', 'l'];
    let low_invalid = seq!['i', 'n', 'v', 'a', 'l', 'i', 'd'];
    let low_numbers = seq!['n', 'u', 'm', 'b', 'e', 'r', 's'];
    let low_label = low_total.push(' ') + low_invalid.push(' ') + low_numbers.push(' ');
    assert(lowered(line) =~= low_label + seq![':'] + value);
    lemma_cut_at_colon(low_label, value);
    lemma_label_of_words(low_total, low_invalid, low_numbers);
    let word = label_of(low_label);
    lemma_long_label_is_no_id(word);
    assert(word =~= low_total + low_invalid + low_numbers);
    reveal_strlit("invalid");
    assert("invalid"@ =~= low_invalid);
    assert(word.subrange(5, 12) =~= "invalid"@);
    assert(occurs_at(word, "invalid"@, 5));
    assert(counter_tokens()[0] == "invalid"@);
    assert(contains(word, counter_tokens()[0]));
    lemma_reads_zero();
}

/// Text whose only digit stands at its end, behind a space, holds no id.
proof fn lemma_lone_digit_is_no_id(s: Seq<char>)
    requires
        s.len() > 1,
        s[s.len() - 2] == ' ',
        forall|i: int| 0 <= i < s.len() && ascii_digit(#[trigger] s[i]) ==> i == s.len() - 1,
    ensures
        line_id(s) is None,
{
    lemma_line_id_found(s);
    if let Some(id) = line_id(s) {
        let core = strip(id, among(id_wrapping()));
        lemma_strip_contained(id, among(id_wrapping()));
        lemma_contains_trans(s, id, core);
        let at = choose|i: int| occurs_at(s, core, i);
        let k = choose|i: int| 0 <= i < core.len() && ascii_digit(#[trigger] core[i]);
        let part = s.subrange(at, at + core.len());
        assert(part[k] == s[at + k]);
        assert(at + k == s.len() - 1);
        assert(part[k - 1] == s[at + k - 1]);
        assert(id_char(core[k - 1]));
    }
}

/// `Total Invalid Numbers : 0` behind a plain text body changes nothing: the
/// body is accepted or rejected as without the line, with the same message id
/// or the same reason.
pub proof fn lemma_total_of_zero_is_neutral(
    body: Seq<char>,
    with_line: Option<DocumentView>,
    without: Option<DocumentView>,
)
    requires
        trimmed(body).len() > 0,
        !looks_like_json(trimmed(body)),
    ensures
        verdict(body + "\nTotal Invalid Numbers : 0"@, with_line) == verdict(body, without),
{
    let line = "Total Invalid Numbers : 0"@;
    lemma_total_line();
    reveal_strlit("\nTotal Invalid Numbers : 0");
    assert(body + "\nTotal Invalid Numbers : 0"@ =~= body + seq!['\n'] + line);
    assert(strip_front(line, space()) == line);
    assert(strip_back(line, space()) == line);
    let p = among(separators());
    lemma_first_where(line, p);
    assert(first_where(line, p) is None) by {
        if let Some(i) = first_where(line, p) {
            assert(line[i] == '\n' || line[i] == ';');
        }
    }
    assert(pieces(line, p) =~= seq![line]);
    lemma_total_line_counts_zero();
    lemma_lone_digit_is_no_id(line);
    lemma_zero_counter_is_neutral(body, line, with_line, without);
}

} // verus!
