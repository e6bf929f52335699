//! Gateway response parsing.
//!
//! MDS deployments are not consistent: the same account can answer with a bare
//! message id, an `id|number` pair, an `ERROR: ...` line, HTML-ish markup, or
//! JSON. Parsing is therefore layered, and [`Response::raw`] always keeps what
//! the gateway actually said.

use crate::decimal::{number_of, parse_number};
use crate::json::{
    find_member, find_scalar, json_document, member_of, read_json, record_view, scalar_of,
    DocumentView, JsonDocument, JsonMember, JsonRecord, MemberView, RecordView,
};
use crate::search::{
    contains, cut, find_from, first_where, has, lemma_contains_trans, lemma_cut_contained,
    lemma_find_from, lemma_pieces_contained, lemma_strip_contained, lemma_subrange_contained,
    occurs_at, pieces, search_from, split, split_once,
};
use crate::text::{
    alphanumerics, among, ascii_alphanumeric, ascii_digit, chars_of, is_ascii_alphanumeric,
    is_ascii_digit, is_one_of, is_white_space, keep_alphanumerics, kept, lower, lowered, opt_text,
    slice_texts, space, str_texts, string_of, strip, trim, trim_any, trimmed, white_space,
};
use std::time::Duration;
use vstd::prelude::*;
use vstd::slice::slice_subrange;

verus! {

/// A successful submission to the gateway.
///
/// "Accepted" means the gateway took the message, not that the handset
/// received it. MDS exposes final delivery only through DLR callbacks.
#[derive(Debug, Clone, PartialEq, Eq)]
pub struct Response {
    /// Name of the provider that accepted the message. With a
    /// [`crate::FailoverClient`] this tells which endpoint served the send.
    pub provider: String,
    /// Gateway-assigned message id, when one could be extracted.
    pub message_id: Option<String>,
    /// The normalized recipient the message was submitted for.
    pub to: String,
    /// HTTP status returned by the gateway.
    pub status: u16,
    /// Verbatim response body.
    pub raw: String,
    /// Wall-clock time of the submission, including retries.
    pub elapsed: Duration,
    /// Number of attempts made (1 = succeeded first try).
    pub attempts: u32,
    /// The tag set via [`crate::Message::reference`], echoed back.
    pub reference: Option<String>,
}

impl Response {
    /// True when the gateway returned an id that could be parsed.
    pub fn has_message_id(&self) -> (r: bool)
        ensures
            r == (self.message_id is Some),
    {
        self.message_id.is_some()
    }
}

/// Outcome of parsing a 2xx body: either accepted, or an explicit rejection.
#[derive(Debug, Clone, PartialEq, Eq)]
pub enum Parsed {
    Accepted { message_id: Option<String> },
    Rejected { reason: String },
}

/// The model of [`Parsed`].
pub enum ParsedView {
    Accepted { message_id: Option<Seq<char>> },
    Rejected { reason: Seq<char> },
}

impl View for Parsed {
    type V = ParsedView;

    open spec fn view(&self) -> ParsedView {
        match self {
            Parsed::Accepted { message_id } => ParsedView::Accepted {
                message_id: opt_text(*message_id),
            },
            Parsed::Rejected { reason } => ParsedView::Rejected { reason: reason@ },
        }
    }
}

// ---------------------------------------------------------------------------
// The words that matter
// ---------------------------------------------------------------------------

/// Words that mark a 2xx body as a rejection. MDS returns HTTP 200 even for
/// credential and template failures, so the body is the only signal.
pub open spec fn failure_tokens() -> Seq<Seq<char>> {
    seq![
        "error"@,
        "invalid"@,
        "failed"@,
        "failure"@,
        "reject"@,
        "insufficient"@,
        "unauthor"@,
        "not allowed"@,
    ]
}

/// Words that positively confirm the gateway accepted the message.
pub open spec fn success_tokens() -> Seq<Seq<char>> {
    seq![
        "submitted successfully"@,
        "sent successfully"@,
        "success"@,
        "msg-id"@,
        "message id"@,
    ]
}

/// Normalized `label : value` labels that carry a message id.
pub open spec fn id_labels() -> Seq<Seq<char>> {
    seq!["msgid"@, "messageid"@, "id"@, "smsid"@, "jobid"@, "batchid"@]
}

/// Words that make a labelled number a count of failures.
pub open spec fn counter_tokens() -> Seq<Seq<char>> {
    seq!["invalid"@, "fail"@, "error"@, "reject"@, "duplicate"@]
}

fn failure_token_list() -> (r: Vec<&'static str>)
    ensures
        str_texts(r@) == failure_tokens(),
{
    let r: Vec<&'static str> = vec![
        "error",
        "invalid",
        "failed",
        "failure",
        "reject",
        "insufficient",
        "unauthor",
        "not allowed",
    ];
    assert(str_texts(r@) =~= failure_tokens());
    r
}

fn success_token_list() -> (r: Vec<&'static str>)
    ensures
        str_texts(r@) == success_tokens(),
{
    let r: Vec<&'static str> = vec![
        "submitted successfully",
        "sent successfully",
        "success",
        "msg-id",
        "message id",
    ];
    assert(str_texts(r@) =~= success_tokens());
    r
}

fn id_label_list() -> (r: Vec<&'static str>)
    ensures
        str_texts(r@) == id_labels(),
{
    let r: Vec<&'static str> = vec!["msgid", "messageid", "id", "smsid", "jobid", "batchid"];
    assert(str_texts(r@) =~= id_labels());
    r
}

fn counter_token_list() -> (r: Vec<&'static str>)
    ensures
        str_texts(r@) == counter_tokens(),
{
    let r: Vec<&'static str> = vec!["invalid", "fail", "error", "reject", "duplicate"];
    assert(str_texts(r@) =~= counter_tokens());
    r
}

/// One of `tokens` stands somewhere in `s`.
pub open spec fn contains_any(s: Seq<char>, tokens: Seq<Seq<char>>) -> bool {
    exists|i: int| 0 <= i < tokens.len() && contains(s, #[trigger] tokens[i])
}

/// Whether one of `tokens` stands somewhere in `s`.
fn has_any(s: &[char], tokens: &Vec<&'static str>) -> (r: bool)
    ensures
        r == contains_any(s@, str_texts(tokens@)),
{
    let ghost all = str_texts(tokens@);
    let mut i: usize = 0;
    while i < tokens.len()
        invariant
            i <= tokens@.len(),
            all == str_texts(tokens@),
            forall|j: int| 0 <= j < i ==> !contains(s@, #[trigger] all[j]),
        decreases tokens@.len() - i,
    {
        let token = chars_of(tokens[i]);
        assert(token@ == all[i as int]);
        if has(s, &token) {
            return true;
        }
        i += 1;
    }
    false
}

// ---------------------------------------------------------------------------
// Segments
// ---------------------------------------------------------------------------

/// Markup flattened to line breaks: a `<` and the `>` that closes its tag each
/// become one, and what stands between them goes. `in_tag` says whether a tag
/// is open where `s` starts.
pub open spec fn flattened(s: Seq<char>, in_tag: bool) -> Seq<char>
    decreases s.len(),
{
    if s.len() == 0 {
        Seq::empty()
    } else if s[0] == '<' {
        seq!['\n'] + flattened(s.drop_first(), true)
    } else if in_tag && s[0] == '>' {
        seq!['\n'] + flattened(s.drop_first(), false)
    } else if in_tag {
        flattened(s.drop_first(), true)
    } else {
        seq![s[0]] + flattened(s.drop_first(), false)
    }
}

/// Flattens HTML-ish markup to newlines. Some deployments separate status
/// fields with `<pre>` / `<br>` rather than newlines or pipes.
pub fn flatten(body: &[char]) -> (r: Vec<char>)
    ensures
        r@ == flattened(body@, false),
{
    let mut out: Vec<char> = Vec::new();
    let mut in_tag = false;
    let mut i: usize = 0;
    assert(body@.skip(0) =~= body@);
    assert(out@ + flattened(body@, false) =~= flattened(body@, false));
    while i < body.len()
        invariant
            i <= body@.len(),
            out@ + flattened(body@.skip(i as int), in_tag) == flattened(body@, false),
        decreases body@.len() - i,
    {
        let c = body[i];
        let ghost rest = body@.skip(i as int);
        let ghost before = out@;
        let ghost was_in_tag = in_tag;
        assert(rest[0] == c);
        assert(rest.drop_first() =~= body@.skip(i + 1));
        if c == '<' {
            in_tag = true;
            out.push('\n');
        } else if in_tag && c == '>' {
            in_tag = false;
            out.push('\n');
        } else if in_tag {
        } else {
            out.push(c);
        }
        assert(out@ + flattened(body@.skip(i + 1), in_tag) =~= before + flattened(rest, was_in_tag));
        i += 1;
    }
    assert(out@ + flattened(body@.skip(i as int), in_tag) =~= out@);
    out
}

/// The characters that end a segment of a flattened body.
pub open spec fn separators() -> Seq<char> {
    seq!['\n', ';']
}

/// The segments of a flattened body, each trimmed.
pub open spec fn segments(flat: Seq<char>) -> Seq<Seq<char>> {
    let parts = pieces(flat, among(separators()));
    Seq::new(parts.len(), |i: int| trimmed(parts[i]))
}

/// Cuts a flattened body into its segments.
fn split_segments(flat: &[char]) -> (r: Vec<&[char]>)
    ensures
        slice_texts(r@) == segments(flat@),
{
    let set: [char; 2] = ['\n', ';'];
    assert(set@ =~= separators());
    let parts = split(flat, &set);
    trim_all(&parts)
}

/// Trims each part.
fn trim_all<'a>(parts: &Vec<&'a [char]>) -> (r: Vec<&'a [char]>)
    ensures
        slice_texts(r@) == Seq::new(
            parts@.len(),
            |i: int| trimmed(slice_texts(parts@)[i]),
        ),
{
    let mut r: Vec<&'a [char]> = Vec::new();
    let mut i: usize = 0;
    while i < parts.len()
        invariant
            i <= parts@.len(),
            r@.len() == i,
            forall|j: int| 0 <= j < i ==> (#[trigger] r@[j])@ == trimmed(parts@[j]@),
        decreases parts@.len() - i,
    {
        r.push(trim(parts[i]));
        i += 1;
    }
    assert(slice_texts(r@) =~= Seq::new(
        parts@.len(),
        |i: int| trimmed(slice_texts(parts@)[i]),
    ));
    r
}

/// A label stripped to its ASCII letters and digits, in small letters.
pub open spec fn label_of(s: Seq<char>) -> Seq<char> {
    lowered(kept(s, alphanumerics()))
}

/// A `label : value` segment as normalized label and trimmed value.
pub open spec fn labeled(segment: Seq<char>) -> Option<(Seq<char>, Seq<char>)> {
    match cut(segment, ':') {
        Some((label, value)) => Some((label_of(label), trimmed(value))),
        None => None,
    }
}

/// Splits `label : value`, returning the normalized label and trimmed value.
pub fn split_labeled(segment: &[char]) -> (r: Option<(Vec<char>, &[char])>)
    ensures
        match r {
            Some((label, value)) => labeled(segment@) == Some((label@, value@)),
            None => labeled(segment@) is None,
        },
{
    match split_once(segment, ':') {
        Some((label, value)) => {
            let letters = keep_alphanumerics(label);
            Some((lower(&letters), trim(value)))
        },
        None => None,
    }
}

/// The count in a segment like `Total Invalid Numbers : 0`. `None` when the
/// segment is not a number labelled with a failure mode.
pub open spec fn counter(lower_segment: Seq<char>) -> Option<u64> {
    match labeled(lower_segment) {
        Some((label, value)) => if id_labels().contains(label) {
            None
        } else if !contains_any(label, counter_tokens()) {
            None
        } else {
            number_of(value)
        },
        None => None,
    }
}

/// For a segment like `Total Invalid Numbers : 0`, returns the count.
pub fn failure_counter(lower_segment: &[char]) -> (r: Option<u64>)
    ensures
        r == counter(lower_segment@),
{
    match split_labeled(lower_segment) {
        Some((label, value)) => {
            if is_one_of(&label, &id_label_list()) {
                return None;
            }
            if !has_any(&label, &counter_token_list()) {
                return None;
            }
            parse_number(value)
        },
        None => None,
    }
}

// ---------------------------------------------------------------------------
// Whole words
// ---------------------------------------------------------------------------

/// Nothing alphanumeric touches `s[start..end]` from outside.
pub open spec fn bounded(s: Seq<char>, start: int, end: int) -> bool {
    &&& start == 0 || !ascii_alphanumeric(s[start - 1])
    &&& end == s.len() || !ascii_alphanumeric(s[end])
}

/// One of the occurrences of `token` in `s` that a search from `from` on meets,
/// continuing behind each one, is bounded by non-alphanumeric characters.
pub open spec fn standalone_from(s: Seq<char>, token: Seq<char>, from: int) -> bool
    decreases s.len() - from,
{
    match find_from(s, token, from) {
        Some(i) => {
            proof {
                lemma_find_from(s, token, from);
            }
            token.len() > 0 && from >= 0 && (bounded(s, i, i + token.len()) || standalone_from(
                s,
                token,
                i + token.len(),
            ))
        },
        None => false,
    }
}

/// `token` stands in `s` as a word of its own.
pub open spec fn standalone(s: Seq<char>, token: Seq<char>) -> bool {
    standalone_from(s, token, 0)
}

/// True when `token` in `haystack` is bounded by non-alphanumeric characters,
/// so `ERROR: bad key` matches but an id like `x7error9` does not.
pub fn is_standalone(haystack: &[char], token: &[char]) -> (r: bool)
    requires
        token@.len() > 0,
    ensures
        r == standalone(haystack@, token@),
{
    let n: usize = haystack.len();
    let mut from: usize = 0;
    loop
        invariant
            n == haystack@.len(),
            from <= n,
            token@.len() > 0,
            standalone(haystack@, token@) == standalone_from(haystack@, token@, from as int),
        decreases n - from,
    {
        match search_from(haystack, token, from) {
            Some(start) => {
                proof {
                    lemma_find_from(haystack@, token@, from as int);
                }
                let end: usize = start + token.len();
                let before_ok = start == 0 || !is_ascii_alphanumeric(haystack[start - 1]);
                let after_ok = end == n || !is_ascii_alphanumeric(haystack[end]);
                if before_ok && after_ok {
                    return true;
                }
                from = end;
            },
            None => {
                return false;
            },
        }
    }
}

// ---------------------------------------------------------------------------
// Message ids
// ---------------------------------------------------------------------------

/// Punctuation that may surround an id.
pub open spec fn id_wrapping() -> Seq<char> {
    seq![':', '.', '"']
}

/// A character that an id may hold.
pub open spec fn id_char(c: char) -> bool {
    ascii_alphanumeric(c) || c == '-'
}

/// Six or more letters, digits and hyphens, at least one of them a digit, once
/// punctuation around them is taken off.
pub open spec fn idish(s: Seq<char>) -> bool {
    let t = strip(s, among(id_wrapping()));
    &&& t.len() >= 6
    &&& exists|i: int| 0 <= i < t.len() && ascii_digit(#[trigger] t[i])
    &&& forall|i: int| 0 <= i < t.len() ==> id_char(#[trigger] t[i])
}

/// An id is 6+ characters of alphanumerics/hyphens containing at least one digit.
pub fn is_idish(s: &[char]) -> (r: bool)
    ensures
        r == idish(s@),
{
    let wrapping: [char; 3] = [':', '.', '"'];
    assert(wrapping@ =~= id_wrapping());
    let t = trim_any(s, &wrapping);
    if t.len() < 6 {
        return false;
    }
    let mut digit = false;
    let mut i: usize = 0;
    while i < t.len()
        invariant
            i <= t@.len(),
            t@ == strip(s@, among(id_wrapping())),
            digit == (exists|j: int| 0 <= j < i && ascii_digit(#[trigger] t@[j])),
            forall|j: int| 0 <= j < i ==> id_char(#[trigger] t@[j]),
        decreases t@.len() - i,
    {
        let c = t[i];
        if !(is_ascii_alphanumeric(c) || c == '-') {
            assert(!id_char(t@[i as int]));
            return false;
        }
        if is_ascii_digit(c) {
            assert(ascii_digit(t@[i as int]));
            digit = true;
        }
        i += 1;
    }
    digit
}

/// No white space in it.
pub open spec fn unbroken(s: Seq<char>) -> bool {
    forall|i: int| 0 <= i < s.len() ==> !white_space(#[trigger] s[i])
}

fn is_unbroken(s: &[char]) -> (r: bool)
    ensures
        r == unbroken(s@),
{
    let mut i: usize = 0;
    while i < s.len()
        invariant
            i <= s@.len(),
            forall|j: int| 0 <= j < i ==> !white_space(#[trigger] s@[j]),
        decreases s@.len() - i,
    {
        if is_white_space(s[i]) {
            assert(white_space(s@[i as int]));
            return false;
        }
        i += 1;
    }
    true
}

/// The id that a single `label : value` segment carries.
pub open spec fn segment_id(segment: Seq<char>) -> Option<Seq<char>> {
    match labeled(segment) {
        Some((label, value)) => if id_labels().contains(label) && value.len() > 0 && unbroken(
            value,
        ) {
            Some(value)
        } else {
            None
        },
        None => None,
    }
}

/// The id that the first labelled segment with one carries.
pub open spec fn labeled_id(segments: Seq<Seq<char>>) -> Option<Seq<char>>
    decreases segments.len(),
{
    if segments.len() == 0 {
        None
    } else {
        match segment_id(segments[0]) {
            Some(id) => Some(id),
            None => labeled_id(segments.drop_first()),
        }
    }
}

/// The first of `parts` that is not empty.
pub open spec fn first_nonempty(parts: Seq<Seq<char>>) -> Option<Seq<char>>
    decreases parts.len(),
{
    if parts.len() == 0 {
        None
    } else if parts[0].len() > 0 {
        Some(parts[0])
    } else {
        first_nonempty(parts.drop_first())
    }
}

/// The first line of `body` with something on it, trimmed; `body` itself where
/// there is none.
pub open spec fn first_line(body: Seq<char>) -> Seq<char> {
    let lines = pieces(body, among(seq!['\n']));
    match first_nonempty(Seq::new(lines.len(), |i: int| trimmed(lines[i]))) {
        Some(line) => line,
        None => body,
    }
}

/// The longest id-like word, the last of them where several are as long.
pub open spec fn longest_id(words: Seq<Seq<char>>) -> Option<Seq<char>>
    decreases words.len(),
{
    if words.len() == 0 {
        None
    } else {
        let word = words.last();
        match longest_id(words.drop_last()) {
            Some(best) => if idish(word) && word.len() >= best.len() {
                Some(word)
            } else {
                Some(best)
            },
            None => if idish(word) {
                Some(word)
            } else {
                None
            },
        }
    }
}

/// What stands before the first `c` of `line`, trimmed, where that is an id.
pub open spec fn id_before(line: Seq<char>, c: char) -> Option<Seq<char>> {
    match cut(line, c) {
        Some((head, _)) => if idish(trimmed(head)) {
            Some(trimmed(head))
        } else {
            None
        },
        None => None,
    }
}

/// What stands behind the first `c` of `line`, trimmed, where that is an id.
pub open spec fn id_after(line: Seq<char>, c: char) -> Option<Seq<char>> {
    match cut(line, c) {
        Some((_, tail)) => if idish(trimmed(tail)) {
            Some(trimmed(tail))
        } else {
            None
        },
        None => None,
    }
}

/// The id on a line without a label: `1234567|9995551212`, `1234567,...`,
/// `id=1234567`, `1234567`, or the longest id-like word.
pub open spec fn line_id(line: Seq<char>) -> Option<Seq<char>> {
    if id_before(line, '|') is Some {
        id_before(line, '|')
    } else if id_before(line, ',') is Some {
        id_before(line, ',')
    } else if id_after(line, '=') is Some {
        id_after(line, '=')
    } else if idish(line) {
        Some(line)
    } else {
        longest_id(pieces(line, space()))
    }
}

/// The message id in a flattened body. An explicitly labelled id wins, and is
/// taken verbatim: gateway ids are not always numeric or long.
pub open spec fn id_in(flat: Seq<char>) -> Option<Seq<char>> {
    match labeled_id(segments(flat)) {
        Some(id) => Some(id),
        None => line_id(first_line(flat)),
    }
}

fn find_labeled_id(parts: &Vec<&[char]>) -> (r: Option<String>)
    ensures
        opt_text(r) == labeled_id(slice_texts(parts@)),
{
    let ghost all = slice_texts(parts@);
    let mut i: usize = 0;
    assert(all.skip(0) =~= all);
    while i < parts.len()
        invariant
            i <= parts@.len(),
            all == slice_texts(parts@),
            labeled_id(all) == labeled_id(all.skip(i as int)),
        decreases parts@.len() - i,
    {
        assert(all.skip(i as int).drop_first() =~= all.skip(i + 1));
        if let Some((label, value)) = split_labeled(parts[i]) {
            if is_one_of(&label, &id_label_list()) && value.len() > 0 && is_unbroken(value) {
                return Some(string_of(value));
            }
        }
        i += 1;
    }
    None
}

fn find_first_line(body: &[char]) -> (r: &[char])
    ensures
        r@ == first_line(body@),
{
    let set: [char; 1] = ['\n'];
    assert(set@ =~= seq!['\n']);
    let parts = split(body, &set);
    let lines = trim_all(&parts);
    let ghost all = slice_texts(lines@);
    assert(all == Seq::new(
        pieces(body@, among(seq!['\n'])).len(),
        |i: int| trimmed(pieces(body@, among(seq!['\n']))[i]),
    ));
    let mut i: usize = 0;
    assert(all.skip(0) =~= all);
    while i < lines.len()
        invariant
            i <= lines@.len(),
            all == slice_texts(lines@),
            first_nonempty(all) == first_nonempty(all.skip(i as int)),
            first_line(body@) == (match first_nonempty(all) {
                Some(line) => line,
                None => body@,
            }),
        decreases lines@.len() - i,
    {
        if lines[i].len() > 0 {
            return lines[i];
        }
        assert(all.skip(i as int).drop_first() =~= all.skip(i + 1));
        i += 1;
    }
    body
}

/// The words of a line, cut at each white space character.
fn split_words(s: &[char]) -> (r: Vec<&[char]>)
    ensures
        slice_texts(r@) == pieces(s@, space()),
{
    let mut r: Vec<&[char]> = Vec::new();
    let mut rest: &[char] = s;
    assert(slice_texts(r@) + pieces(rest@, space()) =~= pieces(s@, space()));
    loop
        invariant
            slice_texts(r@) + pieces(rest@, space()) == pieces(s@, space()),
        decreases rest@.len(),
    {
        let ghost before = slice_texts(r@);
        match search_space(rest) {
            Some(i) => {
                let head = slice_subrange(rest, 0, i);
                let tail = slice_subrange(rest, i + 1, rest.len());
                assert(head@ =~= rest@.take(i as int));
                assert(tail@ =~= rest@.skip(i + 1));
                r.push(head);
                assert(slice_texts(r@) =~= before + seq![rest@.take(i as int)]);
                assert(slice_texts(r@) + pieces(tail@, space()) =~= before + (seq![
                    rest@.take(i as int),
                ] + pieces(tail@, space())));
                rest = tail;
            },
            None => {
                r.push(rest);
                assert(slice_texts(r@) =~= before + seq![rest@]);
                return r;
            },
        }
    }
}

fn search_space(s: &[char]) -> (r: Option<usize>)
    ensures
        match r {
            Some(i) => i < s@.len() && i < usize::MAX && first_where(s@, space()) == Some(i as int),
            None => first_where(s@, space()) is None,
        },
{
    let mut i: usize = 0;
    assert(s@.skip(0) =~= s@);
    while i < s.len()
        invariant
            i <= s@.len(),
            first_where(s@, space()) == (match first_where(s@.skip(i as int), space()) {
                Some(k) => Some(k + i),
                None => None,
            }),
        decreases s@.len() - i,
    {
        if is_white_space(s[i]) {
            return Some(i);
        }
        assert(s@.skip(i as int).drop_first() =~= s@.skip(i + 1));
        i += 1;
    }
    None
}

fn find_longest_id(words: &Vec<&[char]>) -> (r: Option<String>)
    ensures
        opt_text(r) == longest_id(slice_texts(words@)),
{
    let ghost all = slice_texts(words@);
    let mut best: Option<usize> = None;
    let mut i: usize = 0;
    while i < words.len()
        invariant
            i <= words@.len(),
            all == slice_texts(words@),
            match best {
                Some(k) => k < i && longest_id(all.take(i as int)) == Some(words@[k as int]@),
                None => longest_id(all.take(i as int)) is None,
            },
        decreases words@.len() - i,
    {
        assert(all.take(i + 1).drop_last() =~= all.take(i as int));
        assert(all.take(i + 1).last() == words@[i as int]@);
        if is_idish(words[i]) {
            match best {
                Some(k) => {
                    if words[i].len() >= words[k].len() {
                        best = Some(i);
                    }
                },
                None => {
                    best = Some(i);
                },
            }
        }
        i += 1;
    }
    assert(all.take(i as int) =~= all);
    match best {
        Some(k) => Some(string_of(words[k])),
        None => None,
    }
}

fn find_line_id(line: &[char]) -> (r: Option<String>)
    ensures
        opt_text(r) == line_id(line@),
{
    if let Some((head, _)) = split_once(line, '|') {
        let head = trim(head);
        if is_idish(head) {
            return Some(string_of(head));
        }
    }
    if let Some((head, _)) = split_once(line, ',') {
        let head = trim(head);
        if is_idish(head) {
            return Some(string_of(head));
        }
    }
    if let Some((_, tail)) = split_once(line, '=') {
        let tail = trim(tail);
        if is_idish(tail) {
            return Some(string_of(tail));
        }
    }
    if is_idish(line) {
        return Some(string_of(line));
    }
    let words = split_words(line);
    find_longest_id(&words)
}

/// Pulls a message id out of the common shapes: `msg-id : Xy7Kq2mBn4Rv8Ts`,
/// `1234567`, `1234567|9995551212`, `Sent: 1234567`, `id=1234567`.
pub fn extract_id(flat: &[char]) -> (r: Option<String>)
    ensures
        opt_text(r) == id_in(flat@),
{
    let parts = split_segments(flat);
    let labeled = find_labeled_id(&parts);
    if labeled.is_some() {
        return labeled;
    }
    find_line_id(find_first_line(flat))
}

// ---------------------------------------------------------------------------
// Verdicts on plain text
// ---------------------------------------------------------------------------

/// The segment counts at least one failure.
pub open spec fn counts_failures(segment: Seq<char>) -> bool {
    counter(lowered(segment)) matches Some(n) && n > 0
}

/// The segment is no counter, and holds a word of success.
pub open spec fn confirms(segment: Seq<char>) -> bool {
    &&& counter(lowered(segment)) is None
    &&& contains_any(lowered(segment), success_tokens())
}

/// The segment is no counter and confirms nothing, and some word of failure
/// stands in it as a word of its own.
pub open spec fn complains(segment: Seq<char>) -> bool {
    &&& counter(lowered(segment)) is None
    &&& !confirms(segment)
    &&& exists|i: int|
        0 <= i < failure_tokens().len() && standalone(
            lowered(segment),
            #[trigger] failure_tokens()[i],
        )
}

/// The first of `parts` that satisfies `p`.
pub open spec fn first_such(parts: Seq<Seq<char>>, p: spec_fn(Seq<char>) -> bool) -> Option<
    Seq<char>,
>
    decreases parts.len(),
{
    if parts.len() == 0 {
        None
    } else if p(parts[0]) {
        Some(parts[0])
    } else {
        first_such(parts.drop_first(), p)
    }
}

/// The first segment that counts failures.
pub open spec fn first_bad_count(parts: Seq<Seq<char>>) -> Option<Seq<char>> {
    first_such(parts, |s: Seq<char>| counts_failures(s))
}

/// The first segment that confirms the send.
pub open spec fn first_confirmation(parts: Seq<Seq<char>>) -> Option<Seq<char>> {
    first_such(parts, |s: Seq<char>| confirms(s))
}

/// The first segment that complains.
pub open spec fn first_complaint(parts: Seq<Seq<char>>) -> Option<Seq<char>> {
    first_such(parts, |s: Seq<char>| complains(s))
}

/// What a flattened body says. A counter of failures that is not zero rejects,
/// whatever else is there. Otherwise a confirmation accepts, and only without
/// one does a complaint reject.
pub open spec fn text_verdict(flat: Seq<char>) -> ParsedView {
    let parts = segments(flat);
    match first_bad_count(parts) {
        Some(segment) => ParsedView::Rejected { reason: segment },
        None => match first_complaint(parts) {
            Some(segment) if first_confirmation(parts) is None => ParsedView::Rejected {
                reason: segment,
            },
            _ => ParsedView::Accepted { message_id: id_in(flat) },
        },
    }
}

/// What the segment at hand contributes.
enum Signal {
    Count(u64),
    Confirmation,
    Complaint,
    Nothing,
}

/// Whether some word of failure stands in `s` as a word of its own.
fn has_failure_word(s: &[char]) -> (r: bool)
    ensures
        r == (exists|i: int|
            0 <= i < failure_tokens().len() && standalone(s@, #[trigger] failure_tokens()[i])),
{
    let tokens = failure_token_list();
    let ghost all = failure_tokens();
    proof {
        lemma_failure_tokens_word_shaped();
    }
    let mut i: usize = 0;
    while i < tokens.len()
        invariant
            i <= tokens@.len(),
            all == failure_tokens(),
            str_texts(tokens@) == all,
            forall|j: int| 0 <= j < all.len() ==> word_shaped(#[trigger] all[j]),
            forall|j: int| 0 <= j < i ==> !standalone(s@, #[trigger] all[j]),
        decreases tokens@.len() - i,
    {
        let token = chars_of(tokens[i]);
        assert(token@ == all[i as int]);
        if is_standalone(s, &token) {
            return true;
        }
        i += 1;
    }
    false
}

/// Reads one segment.
fn read_segment(segment: &[char]) -> (r: Signal)
    ensures
        match r {
            Signal::Count(n) => counter(lowered(segment@)) == Some(n),
            Signal::Confirmation => confirms(segment@),
            Signal::Complaint => complains(segment@),
            Signal::Nothing => counter(lowered(segment@)) is None && !confirms(segment@)
                && !complains(segment@),
        },
{
    let low = lower(segment);
    if let Some(count) = failure_counter(&low) {
        return Signal::Count(count);
    }
    if has_any(&low, &success_token_list()) {
        return Signal::Confirmation;
    }
    if has_failure_word(&low) {
        return Signal::Complaint;
    }
    Signal::Nothing
}

/// Judges a flattened body.
pub fn judge_text(flat: &[char]) -> (r: Parsed)
    ensures
        r@ == text_verdict(flat@),
{
    let parts = split_segments(flat);
    let ghost all = slice_texts(parts@);
    let mut saw_success = false;
    let mut complaint: Option<usize> = None;
    let mut i: usize = 0;
    assert(all.skip(0) =~= all);
    while i < parts.len()
        invariant
            i <= parts@.len(),
            all == slice_texts(parts@),
            all == segments(flat@),
            first_bad_count(all) == first_bad_count(all.skip(i as int)),
            saw_success ==> first_confirmation(all) is Some,
            !saw_success ==> first_confirmation(all) == first_confirmation(all.skip(i as int)),
            match complaint {
                Some(k) => k < i && first_complaint(all) == Some(all[k as int]),
                None => first_complaint(all) == first_complaint(all.skip(i as int)),
            },
        decreases parts@.len() - i,
    {
        let segment = parts[i];
        assert(all.skip(i as int)[0] == segment@);
        assert(all.skip(i as int).drop_first() =~= all.skip(i + 1));
        match read_segment(segment) {
            Signal::Count(n) => {
                if n > 0 {
                    return Parsed::Rejected { reason: string_of(segment) };
                }
            },
            Signal::Confirmation => {
                saw_success = true;
            },
            Signal::Complaint => {
                if complaint.is_none() {
                    complaint = Some(i);
                }
            },
            Signal::Nothing => {},
        }
        i += 1;
    }
    if !saw_success {
        if let Some(k) = complaint {
            return Parsed::Rejected { reason: string_of(parts[k]) };
        }
    }
    Parsed::Accepted { message_id: extract_id(flat) }
}

// ---------------------------------------------------------------------------
// Verdicts on JSON
// ---------------------------------------------------------------------------

/// The members that may hold the status of a send.
pub open spec fn status_names() -> Seq<Seq<char>> {
    seq!["status"@, "Status"@, "type"@, "result"@]
}

/// The members that may say why a send was refused.
pub open spec fn reason_names() -> Seq<Seq<char>> {
    seq!["message"@, "Message"@, "description"@, "error"@, "reason"@]
}

/// The members that may hold the message id.
pub open spec fn id_names() -> Seq<Seq<char>> {
    seq!["message_id"@, "messageId"@, "msgid"@, "msgId"@, "id"@, "MessageId"@]
}

/// The record that speaks for the document: the first item of a list, or the
/// single value itself. An empty list has none.
pub open spec fn spokesman(document: DocumentView) -> Option<RecordView> {
    match document {
        DocumentView::List(items) => if items.len() > 0 {
            Some(items[0])
        } else {
            None
        },
        DocumentView::Single(record) => Some(record),
    }
}

/// The record reports a failure: its status holds a word of failure, or its
/// `success` is `false`.
pub open spec fn reports_failure(record: RecordView) -> bool {
    ||| scalar_of(record, status_names()) matches Some(status) && contains_any(
        lowered(status),
        failure_tokens(),
    )
    ||| member_of(record, "success"@) == Some(MemberView::Bool(false))
}

/// What a JSON document says; `None` where it says nothing. The reason of a
/// rejection that gives none is the whole body.
pub open spec fn json_verdict(document: DocumentView, body: Seq<char>) -> Option<ParsedView> {
    match spokesman(document) {
        Some(record) => if reports_failure(record) {
            Some(
                ParsedView::Rejected {
                    reason: match scalar_of(record, reason_names()) {
                        Some(reason) => reason,
                        None => body,
                    },
                },
            )
        } else {
            Some(ParsedView::Accepted { message_id: scalar_of(record, id_names()) })
        },
        None => None,
    }
}

fn judge_record(record: &JsonRecord, body: &[char]) -> (r: Parsed)
    ensures
        Some(r@) == json_verdict(DocumentView::Single(record_view(*record)), body@),
{
    let status_list: Vec<&'static str> = vec!["status", "Status", "type", "result"];
    let reason_list: Vec<&'static str> = vec![
        "message",
        "Message",
        "description",
        "error",
        "reason",
    ];
    let id_list: Vec<&'static str> = vec![
        "message_id",
        "messageId",
        "msgid",
        "msgId",
        "id",
        "MessageId",
    ];
    assert(str_texts(status_list@) =~= status_names());
    assert(str_texts(reason_list@) =~= reason_names());
    assert(str_texts(id_list@) =~= id_names());
    let mut failed = match find_member(record, "success") {
        Some(JsonMember::Bool(b)) => !*b,
        _ => false,
    };
    if let Some(status) = find_scalar(record, &status_list) {
        let low = lower(&chars_of(&status));
        if has_any(&low, &failure_token_list()) {
            failed = true;
        }
    }
    if failed {
        let reason = match find_scalar(record, &reason_list) {
            Some(reason) => reason,
            None => string_of(body),
        };
        Parsed::Rejected { reason }
    } else {
        Parsed::Accepted { message_id: find_scalar(record, &id_list) }
    }
}

/// Judges a JSON document; `None` where the document says nothing.
pub fn judge_json(document: &JsonDocument, body: &[char]) -> (r: Option<Parsed>)
    ensures
        match r {
            Some(parsed) => json_verdict(document@, body@) == Some(parsed@),
            None => json_verdict(document@, body@) is None,
        },
{
    match document {
        JsonDocument::List(items) => {
            if items.len() > 0 {
                Some(judge_record(&items[0], body))
            } else {
                None
            }
        },
        JsonDocument::Single(record) => Some(judge_record(record, body)),
    }
}

// ---------------------------------------------------------------------------
// Verdicts
// ---------------------------------------------------------------------------

/// The body may be JSON: it starts with `{` or `[`.
pub open spec fn looks_like_json(body: Seq<char>) -> bool {
    body.len() > 0 && (body[0] == '{' || body[0] == '[')
}

/// What a body says, where `document` is the JSON read from its trimmed text.
pub open spec fn verdict(body: Seq<char>, document: Option<DocumentView>) -> ParsedView {
    let text = trimmed(body);
    if text.len() == 0 {
        ParsedView::Rejected { reason: "gateway returned an empty body"@ }
    } else {
        match document {
            Some(d) if looks_like_json(text) && json_verdict(d, text) is Some => json_verdict(
                d,
                text,
            )->Some_0,
            _ => text_verdict(flattened(text, false)),
        }
    }
}

/// Judges a body, given the JSON document read from its trimmed text, if any.
pub fn judge_body(body: &str, document: Option<JsonDocument>) -> (r: Parsed)
    ensures
        r@ == verdict(
            body@,
            match document {
                Some(d) => Some(d@),
                None => None,
            },
        ),
{
    let chars = chars_of(body);
    let text = trim(&chars);
    if text.len() == 0 {
        return Parsed::Rejected { reason: "gateway returned an empty body".to_string() };
    }
    if text[0] == '{' || text[0] == '[' {
        if let Some(d) = &document {
            if let Some(parsed) = judge_json(d, text) {
                return parsed;
            }
        }
    }
    let flat = flatten(text);
    judge_text(&flat)
}

/// Decides whether a 2xx body accepts the message or rejects it.
pub fn parse_body(body: &str) -> (r: Parsed)
    ensures
        r@ == verdict(body@, json_document(trimmed(body@))),
{
    let chars = chars_of(body);
    let text = trim(&chars);
    if text.len() > 0 && (text[0] == '{' || text[0] == '[') {
        let document = read_json(&string_of(text));
        judge_body(body, document)
    } else {
        judge_body(body, None)
    }
}

// ---------------------------------------------------------------------------
// Laws
// ---------------------------------------------------------------------------

/// No occurrence of `token` that starts inside another one can be bounded:
/// wherever the token's first character comes again in it, an alphanumeric
/// stands before.
pub open spec fn word_shaped(token: Seq<char>) -> bool {
    &&& token.len() > 0
    &&& forall|k: int|
        0 < k < token.len() && #[trigger] token[k] == token[0] ==> ascii_alphanumeric(token[k - 1])
}

/// Every word of failure is shaped so.
proof fn lemma_failure_tokens_word_shaped()
    ensures
        forall|i: int| 0 <= i < failure_tokens().len() ==> word_shaped(#[trigger] failure_tokens()[i]),
{
    reveal_strlit("error");
    reveal_strlit("invalid");
    reveal_strlit("failed");
    reveal_strlit("failure");
    reveal_strlit("reject");
    reveal_strlit("insufficient");
    reveal_strlit("unauthor");
    reveal_strlit("not allowed");
    assert(word_shaped("error"@));
    assert(word_shaped("invalid"@));
    assert(word_shaped("failed"@));
    assert(word_shaped("failure"@));
    assert(word_shaped("reject"@));
    assert(word_shaped("insufficient"@));
    assert(word_shaped("unauthor"@));
    assert(word_shaped("not allowed"@));
}

proof fn lemma_standalone_from(s: Seq<char>, token: Seq<char>, from: int)
    requires
        word_shaped(token),
        0 <= from,
    ensures
        standalone_from(s, token, from) <==> (exists|i: int|
            from <= i && #[trigger] occurs_at(s, token, i) && bounded(s, i, i + token.len())),
    decreases s.len() - from,
{
    lemma_find_from(s, token, from);
    if let Some(i) = find_from(s, token, from) {
        let end = i + token.len();
        lemma_standalone_from(s, token, end);
        assert forall|j: int| i < j < end && #[trigger] occurs_at(s, token, j) implies !bounded(
            s,
            j,
            j + token.len(),
        ) by {
            let k = j - i;
            assert(s.subrange(i, end)[k] == token[k]);
            assert(s.subrange(i, end)[k - 1] == token[k - 1]);
            assert(s.subrange(j, j + token.len())[0] == token[0]);
            assert(token[k] == token[0]);
        }
        if exists|j: int|
            from <= j && #[trigger] occurs_at(s, token, j) && bounded(s, j, j + token.len()) {
            let j = choose|j: int|
                from <= j && #[trigger] occurs_at(s, token, j) && bounded(s, j, j + token.len());
            assert(j >= i);
            if j > i {
                assert(j >= end);
            }
        }
    }
}

/// A word of failure stands alone exactly when some occurrence of it has no
/// ASCII letter or digit on either side. So `ERROR: bad key` complains, and an
/// id such as `x7error9` does not.
pub proof fn lemma_standalone_is_a_word(s: Seq<char>, token: Seq<char>)
    requires
        failure_tokens().contains(token),
    ensures
        standalone(s, token) <==> (exists|i: int|
            #[trigger] occurs_at(s, token, i) && bounded(s, i, i + token.len())),
{
    lemma_failure_tokens_word_shaped();
    lemma_standalone_from(s, token, 0);
}

/// What is found satisfies the predicate and is one of the parts; nothing that
/// does is missed.
proof fn lemma_first_such(parts: Seq<Seq<char>>, p: spec_fn(Seq<char>) -> bool)
    ensures
        first_such(parts, p) matches Some(s) ==> p(s) && parts.contains(s),
        first_such(parts, p) is None ==> (forall|i: int|
            0 <= i < parts.len() ==> !p(#[trigger] parts[i])),
    decreases parts.len(),
{
    if parts.len() > 0 && !p(parts[0]) {
        let rest = parts.drop_first();
        lemma_first_such(rest, p);
        if let Some(s) = first_such(rest, p) {
            let i = choose|i: int| 0 <= i < rest.len() && rest[i] == s;
            assert(parts[i + 1] == s);
        } else {
            assert forall|i: int| 0 <= i < parts.len() implies !p(#[trigger] parts[i]) by {
                if i > 0 {
                    assert(parts[i] == rest[i - 1]);
                }
            }
        }
    } else if parts.len() > 0 {
        assert(parts[0] == first_such(parts, p)->Some_0);
    }
}

/// A text is rejected exactly when one of its segments counts failures, or one
/// complains and none confirms. A counter that reads zero is neither, so it
/// never makes a text a rejection, and a count above zero rejects however much
/// the rest confirms.
pub proof fn lemma_rejected_iff(flat: Seq<char>)
    ensures
        text_verdict(flat) is Rejected <==> {
            let parts = segments(flat);
            ||| exists|i: int| 0 <= i < parts.len() && counts_failures(#[trigger] parts[i])
            ||| {
                &&& exists|i: int| 0 <= i < parts.len() && complains(#[trigger] parts[i])
                &&& forall|i: int| 0 <= i < parts.len() ==> !confirms(#[trigger] parts[i])
            }
        },
{
    let parts = segments(flat);
    lemma_first_such(parts, |s: Seq<char>| counts_failures(s));
    lemma_first_such(parts, |s: Seq<char>| confirms(s));
    lemma_first_such(parts, |s: Seq<char>| complains(s));
    assert(first_bad_count(parts) is Some <==> exists|i: int|
        0 <= i < parts.len() && counts_failures(#[trigger] parts[i]));
    assert(first_confirmation(parts) is Some <==> exists|i: int|
        0 <= i < parts.len() && confirms(#[trigger] parts[i]));
    assert(first_complaint(parts) is Some <==> exists|i: int|
        0 <= i < parts.len() && complains(#[trigger] parts[i]));
}

/// The reason of a rejected text is one of its own segments.
pub proof fn lemma_reason_is_a_segment(flat: Seq<char>)
    ensures
        text_verdict(flat) matches ParsedView::Rejected { reason } ==> segments(flat).contains(
            reason,
        ),
{
    let parts = segments(flat);
    lemma_first_such(parts, |s: Seq<char>| counts_failures(s));
    lemma_first_such(parts, |s: Seq<char>| complains(s));
}

proof fn lemma_trimmed_part_contained(s: Seq<char>, part: Seq<char>)
    requires
        contains(s, part),
    ensures
        contains(s, trimmed(part)),
{
    lemma_strip_contained(part, space());
    lemma_contains_trans(s, part, trimmed(part));
}

proof fn lemma_labeled_id_contained(flat: Seq<char>, parts: Seq<Seq<char>>)
    requires
        forall|i: int| 0 <= i < parts.len() ==> contains(flat, #[trigger] parts[i]),
    ensures
        labeled_id(parts) matches Some(id) ==> contains(flat, id),
    decreases parts.len(),
{
    if parts.len() > 0 {
        let segment = parts[0];
        let rest = parts.drop_first();
        assert forall|i: int| 0 <= i < rest.len() implies contains(flat, #[trigger] rest[i]) by {
            assert(rest[i] == parts[i + 1]);
        }
        lemma_labeled_id_contained(flat, rest);
        lemma_cut_contained(segment, ':');
        if let Some((_, value)) = cut(segment, ':') {
            lemma_contains_trans(flat, segment, value);
            lemma_trimmed_part_contained(flat, value);
        }
    }
}

proof fn lemma_first_nonempty_contained(s: Seq<char>, parts: Seq<Seq<char>>)
    requires
        forall|i: int| 0 <= i < parts.len() ==> contains(s, #[trigger] parts[i]),
    ensures
        first_nonempty(parts) matches Some(line) ==> contains(s, line),
    decreases parts.len(),
{
    if parts.len() > 0 {
        let rest = parts.drop_first();
        assert forall|i: int| 0 <= i < rest.len() implies contains(s, #[trigger] rest[i]) by {
            assert(rest[i] == parts[i + 1]);
        }
        lemma_first_nonempty_contained(s, rest);
    }
}

proof fn lemma_longest_id_found(s: Seq<char>, words: Seq<Seq<char>>)
    requires
        forall|i: int| 0 <= i < words.len() ==> contains(s, #[trigger] words[i]),
    ensures
        longest_id(words) matches Some(id) ==> idish(id) && contains(s, id),
    decreases words.len(),
{
    if words.len() > 0 {
        let rest = words.drop_last();
        assert forall|i: int| 0 <= i < rest.len() implies contains(s, #[trigger] rest[i]) by {
            assert(rest[i] == words[i]);
        }
        lemma_longest_id_found(s, rest);
        assert(words.last() == words[words.len() - 1]);
    }
}

proof fn lemma_id_at_cut_found(line: Seq<char>, c: char)
    ensures
        id_before(line, c) matches Some(id) ==> idish(id) && contains(line, id),
        id_after(line, c) matches Some(id) ==> idish(id) && contains(line, id),
{
    lemma_cut_contained(line, c);
    if let Some((head, tail)) = cut(line, c) {
        lemma_trimmed_part_contained(line, head);
        lemma_trimmed_part_contained(line, tail);
    }
}

/// The id found on a line has the shape of an id, and stands on the line.
pub proof fn lemma_line_id_found(line: Seq<char>)
    ensures
        line_id(line) matches Some(id) ==> idish(id) && contains(line, id),
{
    if let Some(id) = line_id(line) {
        if id_before(line, '|') is Some {
            lemma_id_at_cut_found(line, '|');
        } else if id_before(line, ',') is Some {
            lemma_id_at_cut_found(line, ',');
        } else if id_after(line, '=') is Some {
            lemma_id_at_cut_found(line, '=');
        } else if idish(line) {
            lemma_subrange_contained(line, 0, line.len() as int);
            assert(line.subrange(0, line.len() as int) =~= line);
        } else {
            lemma_pieces_contained(line, space());
            lemma_longest_id_found(line, pieces(line, space()));
        }
    }
}

proof fn lemma_segments_contained(flat: Seq<char>)
    ensures
        forall|i: int|
            0 <= i < segments(flat).len() ==> contains(flat, #[trigger] segments(flat)[i]),
{
    let parts = pieces(flat, among(separators()));
    lemma_pieces_contained(flat, among(separators()));
    assert forall|i: int| 0 <= i < segments(flat).len() implies contains(
        flat,
        #[trigger] segments(flat)[i],
    ) by {
        lemma_trimmed_part_contained(flat, parts[i]);
    }
}

proof fn lemma_first_line_contained(flat: Seq<char>)
    ensures
        contains(flat, first_line(flat)),
{
    let lines = pieces(flat, among(seq!['\n']));
    let trimmed_lines = Seq::new(lines.len(), |i: int| trimmed(lines[i]));
    lemma_pieces_contained(flat, among(seq!['\n']));
    assert forall|i: int| 0 <= i < trimmed_lines.len() implies contains(
        flat,
        #[trigger] trimmed_lines[i],
    ) by {
        lemma_trimmed_part_contained(flat, lines[i]);
    }
    lemma_first_nonempty_contained(flat, trimmed_lines);
    lemma_subrange_contained(flat, 0, flat.len() as int);
    assert(flat.subrange(0, flat.len() as int) =~= flat);
}

/// A message id is never made up: it stands, character for character, in the
/// text it was read from.
pub proof fn lemma_id_is_in_the_body(flat: Seq<char>)
    ensures
        text_verdict(flat) matches ParsedView::Accepted { message_id: Some(id) } ==> contains(
            flat,
            id,
        ),
{
    if let ParsedView::Accepted { message_id: Some(id) } = text_verdict(flat) {
        assert(id_in(flat) == Some(id));
        if labeled_id(segments(flat)) is Some {
            lemma_segments_contained(flat);
            lemma_labeled_id_contained(flat, segments(flat));
        } else {
            lemma_first_line_contained(flat);
            lemma_line_id_found(first_line(flat));
            lemma_contains_trans(flat, first_line(flat), id);
        }
    }
}

} // verus!
