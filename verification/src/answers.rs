//! What the answers of the gateway mean.
//!
//! The laws of reading an answer, with the words that decide written out, and
//! stated over the characters of the answer or over the members of its JSON.

use crate::decimal::{decimal, lemma_numbers_are_written_in_decimal, number_of};
use crate::json::{member_of, scalar_of, DocumentView, MemberView, RecordView};
use crate::response::{
    bounded, complains, confirms, contains_any, counter, counter_tokens, counts_failures,
    failure_tokens, first_bad_count, first_complaint, first_confirmation, first_line,
    first_nonempty, first_such, flattened, id_after, id_before, id_in, id_labels, id_names,
    id_wrapping, idish, labeled, labeled_id, lemma_standalone_is_a_word, line_id,
    longest_id, reason_names, reports_failure, segment_id, segments, separators,
    standalone, status_names, success_tokens, text_verdict, verdict, ParsedView,
};
use crate::search::{
    contains, first_where, lemma_cut_first, lemma_first_where, lemma_first_where_of_concat,
    lemma_pieces_of_join, occurs_at, pieces,
};
use crate::text::{
    alphanumerics, among, blank, lemma_blank_iff_trimmed_empty,
    lemma_kept_is_filter, lemma_strip_wrapped, lower_char, lowered, space, trimmed, white_space,
};
use vstd::prelude::*;

verus! {

// ---------------------------------------------------------------------------
// Words, whatever their case
// ---------------------------------------------------------------------------

/// `word`, which is in small letters, stands in `s` at `i`, in letters of either
/// case.
pub open spec fn speaks(s: Seq<char>, word: Seq<char>, i: int) -> bool {
    &&& 0 <= i
    &&& i + word.len() <= s.len()
    &&& forall|k: int|
        0 <= k < word.len() ==> (s[i + k] == #[trigger] word[k] || ('A' <= s[i + k] <= 'Z' && s[i
            + k] as int + 32 == word[k] as int))
}

/// `word` stands somewhere in `s`, in letters of either case.
pub open spec fn mentions(s: Seq<char>, word: Seq<char>) -> bool {
    exists|i: int| speaks(s, word, i)
}

/// No capitals in it.
pub open spec fn small(word: Seq<char>) -> bool {
    forall|k: int| 0 <= k < word.len() ==> !('A' <= #[trigger] word[k] <= 'Z')
}

/// Making a text small makes each capital small and leaves all else.
pub proof fn lemma_small_letters(s: Seq<char>, i: int)
    requires
        0 <= i < s.len(),
    ensures
        lowered(s).len() == s.len(),
        'A' <= s[i] <= 'Z' ==> lowered(s)[i] as u32 == s[i] as u32 + 32,
        !('A' <= s[i] <= 'Z') ==> lowered(s)[i] == s[i],
{
}

proof fn lemma_speaks(s: Seq<char>, word: Seq<char>, i: int)
    requires
        small(word),
    ensures
        occurs_at(lowered(s), word, i) <==> speaks(s, word, i),
{
    let low = lowered(s);
    if 0 <= i && i + word.len() <= s.len() {
        if occurs_at(low, word, i) {
            assert forall|k: int| 0 <= k < word.len() implies (s[i + k] == #[trigger] word[k] || (
            'A' <= s[i + k] <= 'Z' && s[i + k] as int + 32 == word[k] as int)) by {
                assert(low.subrange(i, i + word.len())[k] == word[k]);
                assert(low[i + k] == lower_char(s[i + k]));
            }
        }
        if speaks(s, word, i) {
            assert forall|k: int| 0 <= k < word.len() implies #[trigger] low.subrange(
                i,
                i + word.len(),
            )[k] == word[k] by {
                let c = s[i + k];
                let w = word[k];
                assert(!('A' <= w <= 'Z'));
                assert(c == w || ('A' <= c <= 'Z' && c as int + 32 == w as int));
                assert(lower_char(c) == w) by {
                    if c != w {
                        assert(((c as u32) + 32) as char == w);
                    }
                }
                assert(low[i + k] == lower_char(c));
                assert(low.subrange(i, i + word.len())[k] == low[i + k]);
            }
            assert(low.subrange(i, i + word.len()) =~= word);
        }
    }
}

proof fn lemma_mentions(s: Seq<char>, word: Seq<char>)
    requires
        small(word),
    ensures
        contains(lowered(s), word) <==> mentions(s, word),
{
    if contains(lowered(s), word) {
        let i = choose|i: int| occurs_at(lowered(s), word, i);
        lemma_speaks(s, word, i);
    }
    if mentions(s, word) {
        let i = choose|i: int| speaks(s, word, i);
        lemma_speaks(s, word, i);
    }
}

/// The eight words that make an answer a rejection.
pub open spec fn failure_word(word: Seq<char>) -> bool {
    word == "error"@ || word == "invalid"@ || word == "failed"@ || word == "failure"@ || word
        == "reject"@ || word == "insufficient"@ || word == "unauthor"@ || word == "not allowed"@
}

/// The text holds one of the eight words, whatever its case.
pub open spec fn sounds_like_failure(s: Seq<char>) -> bool {
    mentions(s, "error"@) || mentions(s, "invalid"@) || mentions(s, "failed"@) || mentions(
        s,
        "failure"@,
    ) || mentions(s, "reject"@) || mentions(s, "insufficient"@) || mentions(s, "unauthor"@)
        || mentions(s, "not allowed"@)
}

/// The text says that the message was taken, whatever the case of its letters.
pub open spec fn sounds_like_success(s: Seq<char>) -> bool {
    mentions(s, "submitted successfully"@) || mentions(s, "sent successfully"@) || mentions(
        s,
        "success"@,
    ) || mentions(s, "msg-id"@) || mentions(s, "message id"@)
}

proof fn lemma_failure_words()
    ensures
        small("error"@),
        small("invalid"@),
        small("failed"@),
        small("failure"@),
        small("reject"@),
        small("insufficient"@),
        small("unauthor"@),
        small("not allowed"@),
        forall|word: Seq<char>| failure_tokens().contains(word) <==> #[trigger] failure_word(word),
{
    reveal_strlit("error");
    reveal_strlit("invalid");
    reveal_strlit("failed");
    reveal_strlit("failure");
    reveal_strlit("reject");
    reveal_strlit("insufficient");
    reveal_strlit("unauthor");
    reveal_strlit("not allowed");
    let all = failure_tokens();
    assert(all[0] == "error"@ && all[1] == "invalid"@ && all[2] == "failed"@ && all[3]
        == "failure"@ && all[4] == "reject"@ && all[5] == "insufficient"@ && all[6] == "unauthor"@
        && all[7] == "not allowed"@);
    assert forall|word: Seq<char>| failure_tokens().contains(word) <==> #[trigger] failure_word(
        word,
    ) by {
        if failure_word(word) {
            assert(all.contains(all[0]) && all.contains(all[1]) && all.contains(all[2])
                && all.contains(all[3]) && all.contains(all[4]) && all.contains(all[5])
                && all.contains(all[6]) && all.contains(all[7]));
        }
    }
}

proof fn lemma_contains_any(s: Seq<char>, tokens: Seq<Seq<char>>)
    ensures
        contains_any(s, tokens) <==> exists|word: Seq<char>|
            tokens.contains(word) && #[trigger] contains(s, word),
{
    if contains_any(s, tokens) {
        let i = choose|i: int| 0 <= i < tokens.len() && contains(s, #[trigger] tokens[i]);
        assert(tokens.contains(tokens[i]) && contains(s, tokens[i]));
    }
    if exists|word: Seq<char>| tokens.contains(word) && #[trigger] contains(s, word) {
        let word = choose|word: Seq<char>| tokens.contains(word) && #[trigger] contains(s, word);
        let i = choose|i: int| 0 <= i < tokens.len() && tokens[i] == word;
        assert(contains(s, tokens[i]));
    }
}

proof fn lemma_sounds_like_failure(s: Seq<char>)
    ensures
        contains_any(lowered(s), failure_tokens()) <==> sounds_like_failure(s),
{
    lemma_failure_words();
    lemma_contains_any(lowered(s), failure_tokens());
    lemma_mentions(s, "error"@);
    lemma_mentions(s, "invalid"@);
    lemma_mentions(s, "failed"@);
    lemma_mentions(s, "failure"@);
    lemma_mentions(s, "reject"@);
    lemma_mentions(s, "insufficient"@);
    lemma_mentions(s, "unauthor"@);
    lemma_mentions(s, "not allowed"@);
    if contains_any(lowered(s), failure_tokens()) {
        let word = choose|word: Seq<char>|
            failure_tokens().contains(word) && #[trigger] contains(lowered(s), word);
        assert(failure_word(word));
    }
    if sounds_like_failure(s) {
        assert(failure_word("error"@) && failure_word("invalid"@) && failure_word("failed"@)
            && failure_word("failure"@) && failure_word("reject"@) && failure_word("insufficient"@)
            && failure_word("unauthor"@) && failure_word("not allowed"@));
    }
}

proof fn lemma_sounds_like_success(s: Seq<char>)
    ensures
        contains_any(lowered(s), success_tokens()) <==> sounds_like_success(s),
{
    reveal_strlit("submitted successfully");
    reveal_strlit("sent successfully");
    reveal_strlit("success");
    reveal_strlit("msg-id");
    reveal_strlit("message id");
    let all = success_tokens();
    assert(all[0] == "submitted successfully"@ && all[1] == "sent successfully"@ && all[2]
        == "success"@ && all[3] == "msg-id"@ && all[4] == "message id"@);
    lemma_mentions(s, "submitted successfully"@);
    lemma_mentions(s, "sent successfully"@);
    lemma_mentions(s, "success"@);
    lemma_mentions(s, "msg-id"@);
    lemma_mentions(s, "message id"@);
    if sounds_like_success(s) {
        assert(contains(lowered(s), all[0]) || contains(lowered(s), all[1]) || contains(
            lowered(s),
            all[2],
        ) || contains(lowered(s), all[3]) || contains(lowered(s), all[4]));
    }
}

// ---------------------------------------------------------------------------
// JSON
// ---------------------------------------------------------------------------

/// The record has this member, before any other of the same name.
pub open spec fn has_member(record: RecordView, name: Seq<char>, value: MemberView) -> bool {
    exists|i: int|
        0 <= i < record.len() && #[trigger] record[i] == (name, value) && (forall|j: int|
            0 <= j < i ==> (#[trigger] record[j]).0 != name)
}

/// The record gives this text under the name, as a text or as a number.
pub open spec fn gives(record: RecordView, name: Seq<char>, text: Seq<char>) -> bool {
    has_member(record, name, MemberView::Text(text)) || has_member(
        record,
        name,
        MemberView::Number(text),
    )
}

/// Of these names, the first under which the record gives a text gives this one.
pub open spec fn gives_first(record: RecordView, names: Seq<Seq<char>>, text: Seq<char>) -> bool {
    exists|k: int|
        0 <= k < names.len() && gives(record, #[trigger] names[k], text) && (forall|j: int, t: Seq<
            char,
        >|
            0 <= j < k ==> !#[trigger] gives(record, names[j], t))
}

proof fn lemma_member_of(record: RecordView, name: Seq<char>, value: MemberView)
    ensures
        member_of(record, name) == Some(value) <==> has_member(record, name, value),
    decreases record.len(),
{
    if record.len() > 0 {
        let rest = record.drop_first();
        lemma_member_of(rest, name, value);
        if record[0].0 == name {
            if record[0].1 == value {
                assert(record[0] == (name, value));
            }
            if has_member(record, name, value) {
                let i = choose|i: int|
                    0 <= i < record.len() && #[trigger] record[i] == (name, value) && (forall|
                        j: int,
                    |
                        0 <= j < i ==> (#[trigger] record[j]).0 != name);
                assert(i == 0);
            }
        } else {
            if has_member(rest, name, value) {
                let i = choose|i: int|
                    0 <= i < rest.len() && #[trigger] rest[i] == (name, value) && (forall|j: int|
                        0 <= j < i ==> (#[trigger] rest[j]).0 != name);
                assert(record[i + 1] == (name, value));
                assert forall|j: int| 0 <= j < i + 1 implies (#[trigger] record[j]).0 != name by {
                    if j > 0 {
                        assert(record[j] == rest[j - 1]);
                    }
                }
            }
            if has_member(record, name, value) {
                let i = choose|i: int|
                    0 <= i < record.len() && #[trigger] record[i] == (name, value) && (forall|
                        j: int,
                    |
                        0 <= j < i ==> (#[trigger] record[j]).0 != name);
                assert(i > 0);
                assert(rest[i - 1] == (name, value));
                assert forall|j: int| 0 <= j < i - 1 implies (#[trigger] rest[j]).0 != name by {
                    assert(rest[j] == record[j + 1]);
                }
            }
        }
    }
}

/// What a record gives under one name.
proof fn lemma_gives(record: RecordView, name: Seq<char>, text: Seq<char>)
    ensures
        gives(record, name, text) <==> (match member_of(record, name) {
            Some(MemberView::Text(t)) => t == text,
            Some(MemberView::Number(t)) => t == text,
            _ => false,
        }),
{
    lemma_member_of(record, name, MemberView::Text(text));
    lemma_member_of(record, name, MemberView::Number(text));
}

proof fn lemma_scalar_of(record: RecordView, names: Seq<Seq<char>>, text: Seq<char>)
    ensures
        scalar_of(record, names) == Some(text) <==> gives_first(record, names, text),
    decreases names.len(),
{
    if names.len() > 0 {
        let rest = names.drop_first();
        lemma_scalar_of(record, rest, text);
        lemma_gives(record, names[0], text);
        let found = match member_of(record, names[0]) {
            Some(MemberView::Text(t)) => Some(t),
            Some(MemberView::Number(t)) => Some(t),
            _ => None,
        };
        if let Some(t) = found {
            lemma_gives(record, names[0], t);
            if t == text {
                assert(gives(record, names[0], text));
            }
            if gives_first(record, names, text) {
                let k = choose|k: int|
                    0 <= k < names.len() && gives(record, #[trigger] names[k], text) && (forall|
                        j: int,
                        t: Seq<char>,
                    |
                        0 <= j < k ==> !#[trigger] gives(record, names[j], t));
                assert(gives(record, names[0], t));
                assert(k == 0);
            }
        } else {
            assert forall|t: Seq<char>| !#[trigger] gives(record, names[0], t) by {
                lemma_gives(record, names[0], t);
            }
            if gives_first(record, rest, text) {
                let k = choose|k: int|
                    0 <= k < rest.len() && gives(record, #[trigger] rest[k], text) && (forall|
                        j: int,
                        t: Seq<char>,
                    |
                        0 <= j < k ==> !#[trigger] gives(record, rest[j], t));
                assert(gives(record, names[k + 1], text));
                assert forall|j: int, t: Seq<char>| 0 <= j < k + 1 implies !#[trigger] gives(
                    record,
                    names[j],
                    t,
                ) by {
                    if j > 0 {
                        assert(names[j] == rest[j - 1]);
                        assert(!gives(record, rest[j - 1], t));
                    } else {
                        lemma_gives(record, names[0], t);
                    }
                }
            }
            if gives_first(record, names, text) {
                let k = choose|k: int|
                    0 <= k < names.len() && gives(record, #[trigger] names[k], text) && (forall|
                        j: int,
                        t: Seq<char>,
                    |
                        0 <= j < k ==> !#[trigger] gives(record, names[j], t));
                assert(k > 0);
                assert(gives(record, rest[k - 1], text));
                assert forall|j: int, t: Seq<char>| 0 <= j < k - 1 implies !#[trigger] gives(
                    record,
                    rest[j],
                    t,
                ) by {
                    assert(rest[j] == names[j + 1]);
                    assert(!gives(record, names[j + 1], t));
                }
            }
        }
    }
}

/// The members that may hold the status, in the order in which they are asked.
pub open spec fn status_members() -> Seq<Seq<char>> {
    seq!["status"@, "Status"@, "type"@, "result"@]
}

/// The members that may hold a reason, in the order in which they are asked.
pub open spec fn reason_members() -> Seq<Seq<char>> {
    seq!["message"@, "Message"@, "description"@, "error"@, "reason"@]
}

/// The members that may hold the message id, in the order in which they are
/// asked.
pub open spec fn id_members() -> Seq<Seq<char>> {
    seq!["message_id"@, "messageId"@, "msgid"@, "msgId"@, "id"@, "MessageId"@]
}

/// The record says that the message was refused: its status holds one of the
/// eight words, or its `success` is `false`.
pub open spec fn record_refuses(record: RecordView) -> bool {
    ||| exists|status: Seq<char>| #[trigger]
        gives_first(record, status_members(), status) && sounds_like_failure(status)
    ||| has_member(record, "success"@, MemberView::Bool(false))
}

proof fn lemma_reports_failure(record: RecordView)
    ensures
        reports_failure(record) <==> record_refuses(record),
{
    lemma_member_of(record, "success"@, MemberView::Bool(false));
    assert(status_names() =~= status_members());
    if let Some(status) = scalar_of(record, status_names()) {
        lemma_scalar_of(record, status_members(), status);
        lemma_sounds_like_failure(status);
    }
    if exists|status: Seq<char>| #[trigger]
        gives_first(record, status_members(), status) && sounds_like_failure(status) {
        let status = choose|status: Seq<char>| #[trigger]
            gives_first(record, status_members(), status) && sounds_like_failure(status);
        lemma_scalar_of(record, status_members(), status);
        lemma_sounds_like_failure(status);
    }
}

/// The record that speaks for the answer: the answer itself, or the first item
/// of a list.
pub open spec fn speaks_for(document: DocumentView, record: RecordView) -> bool {
    match document {
        DocumentView::Single(r) => r == record,
        DocumentView::List(items) => items.len() > 0 && items[0] == record,
    }
}

/// A JSON answer is a rejection exactly when its record has a status with one of
/// the eight words in it, or a `success` that is `false`. The reason is the
/// first that the record gives, or else the whole answer. Any other JSON answer
/// is an acceptance, with the first id that the record gives.
pub proof fn lemma_how_json_is_judged(body: Seq<char>, document: DocumentView, record: RecordView)
    requires
        trimmed(body).len() > 0,
        trimmed(body)[0] == '{' || trimmed(body)[0] == '[',
        speaks_for(document, record),
    ensures
        verdict(body, Some(document)) is Rejected <==> record_refuses(record),
        forall|reason: Seq<char>| #[trigger]
            gives_first(record, reason_members(), reason) && record_refuses(record) ==> verdict(
                body,
                Some(document),
            ) == (ParsedView::Rejected { reason }),
        record_refuses(record) && !(exists|reason: Seq<char>| #[trigger]
            gives_first(record, reason_members(), reason)) ==> verdict(body, Some(document)) == (
        ParsedView::Rejected { reason: trimmed(body) }),
        forall|id: Seq<char>| #[trigger]
            gives_first(record, id_members(), id) && !record_refuses(record) ==> verdict(
                body,
                Some(document),
            ) == (ParsedView::Accepted { message_id: Some(id) }),
        !record_refuses(record) && !(exists|id: Seq<char>| #[trigger]
            gives_first(record, id_members(), id)) ==> verdict(body, Some(document)) == (
        ParsedView::Accepted { message_id: None }),
{
    lemma_reports_failure(record);
    assert(reason_names() =~= reason_members());
    assert(id_names() =~= id_members());
    assert forall|reason: Seq<char>| #[trigger]
        gives_first(record, reason_members(), reason) && record_refuses(record) implies verdict(
        body,
        Some(document),
    ) == (ParsedView::Rejected { reason }) by {
        lemma_scalar_of(record, reason_members(), reason);
    }
    assert forall|id: Seq<char>| #[trigger]
        gives_first(record, id_members(), id) && !record_refuses(record) implies verdict(
        body,
        Some(document),
    ) == (ParsedView::Accepted { message_id: Some(id) }) by {
        lemma_scalar_of(record, id_members(), id);
    }
    if let Some(reason) = scalar_of(record, reason_names()) {
        lemma_scalar_of(record, reason_members(), reason);
    }
    if let Some(id) = scalar_of(record, id_names()) {
        lemma_scalar_of(record, id_members(), id);
    }
}

/// A record whose first member is a status that holds one of the eight words is
/// a rejection, such as `{"status":"Unauthorized"}` and whatever follows in it.
pub proof fn lemma_a_failing_status_is_a_rejection(
    body: Seq<char>,
    status: Seq<char>,
    rest: RecordView,
)
    requires
        trimmed(body).len() > 0,
        trimmed(body)[0] == '{' || trimmed(body)[0] == '[',
        sounds_like_failure(status),
    ensures
        verdict(
            body,
            Some(DocumentView::Single(seq![("status"@, MemberView::Text(status))] + rest)),
        ) is Rejected,
{
    let record = seq![("status"@, MemberView::Text(status))] + rest;
    assert(record[0] == ("status"@, MemberView::Text(status)));
    assert(has_member(record, "status"@, MemberView::Text(status)));
    assert(status_members()[0] == "status"@);
    assert(gives(record, status_members()[0], status));
    assert(gives_first(record, status_members(), status));
    lemma_how_json_is_judged(body, DocumentView::Single(record), record);
}

/// `{"status":"Unauthorized"}`, as a list of members, is a rejection.
pub proof fn lemma_unauthorized_is_a_rejection(body: Seq<char>)
    requires
        trimmed(body).len() > 0,
        trimmed(body)[0] == '{',
    ensures
        verdict(
            body,
            Some(DocumentView::Single(seq![("status"@, MemberView::Text("Unauthorized"@))])),
        ) is Rejected,
{
    let status = "Unauthorized"@;
    let record = seq![("status"@, MemberView::Text(status))];
    reveal_strlit("Unauthorized");
    reveal_strlit("unauthor");
    assert(speaks(status, "unauthor"@, 0));
    lemma_a_failing_status_is_a_rejection(body, status, Seq::empty());
    assert(record + Seq::empty() =~= record);
}

/// What is no JSON is read as text: an answer that starts with neither bracket,
/// one that cannot be read, and an empty list. Of an answer that is all white
/// space the gateway is said to have returned nothing.
pub proof fn lemma_what_is_read_as_text(body: Seq<char>, document: Option<DocumentView>)
    ensures
        blank(body) ==> verdict(body, document) == (ParsedView::Rejected {
            reason: "gateway returned an empty body"@,
        }),
        !blank(body) && ((trimmed(body)[0] != '{' && trimmed(body)[0] != '[') || document is None
            || (document matches Some(DocumentView::List(items)) && items.len() == 0)) ==> verdict(
            body,
            document,
        ) == text_verdict(flattened(trimmed(body), false)),
{
    lemma_blank_iff_trimmed_empty(body);
}

// ---------------------------------------------------------------------------
// Markup and segments
// ---------------------------------------------------------------------------

/// A tag is a break between two lines: what stands in it goes, and each of its
/// angle brackets becomes a line break.
pub proof fn lemma_tags_are_line_breaks(before: Seq<char>, tag: Seq<char>, after: Seq<char>)
    requires
        forall|i: int| 0 <= i < before.len() ==> #[trigger] before[i] != '<',
        forall|i: int| 0 <= i < tag.len() ==> #[trigger] tag[i] != '<' && tag[i] != '>',
    ensures
        flattened(before + seq!['<'] + tag + seq!['>'] + after, false) == before + seq!['\n', '\n']
            + flattened(after, false),
    decreases before.len(),
{
    let s = before + seq!['<'] + tag + seq!['>'] + after;
    if before.len() > 0 {
        let rest = before.drop_first();
        assert(forall|i: int| 0 <= i < rest.len() ==> rest[i] == before[i + 1]);
        assert(s.drop_first() =~= rest + seq!['<'] + tag + seq!['>'] + after);
        lemma_tags_are_line_breaks(rest, tag, after);
        assert(s[0] == before[0]);
        assert(flattened(s, false) =~= before + seq!['\n', '\n'] + flattened(after, false));
    } else {
        assert(s[0] == '<');
        assert(s.drop_first() =~= tag + seq!['>'] + after);
        lemma_tag_goes(tag, after);
        assert(flattened(s, false) =~= before + seq!['\n', '\n'] + flattened(after, false));
    }
}

proof fn lemma_tag_goes(tag: Seq<char>, after: Seq<char>)
    requires
        forall|i: int| 0 <= i < tag.len() ==> #[trigger] tag[i] != '<' && tag[i] != '>',
    ensures
        flattened(tag + seq!['>'] + after, true) == seq!['\n'] + flattened(after, false),
    decreases tag.len(),
{
    let s = tag + seq!['>'] + after;
    if tag.len() > 0 {
        let rest = tag.drop_first();
        assert(forall|i: int| 0 <= i < rest.len() ==> rest[i] == tag[i + 1]);
        assert(s[0] == tag[0]);
        assert(s.drop_first() =~= rest + seq!['>'] + after);
        lemma_tag_goes(rest, after);
    } else {
        assert(s[0] == '>');
        assert(s.drop_first() =~= after);
    }
}

/// Text without markup stays as it is.
pub proof fn lemma_text_without_tags_stays(s: Seq<char>)
    requires
        forall|i: int| 0 <= i < s.len() ==> #[trigger] s[i] != '<',
    ensures
        flattened(s, false) == s,
    decreases s.len(),
{
    if s.len() > 0 {
        let rest = s.drop_first();
        assert(forall|i: int| 0 <= i < rest.len() ==> rest[i] == s[i + 1]);
        lemma_text_without_tags_stays(rest);
        assert(flattened(s, false) =~= s);
    }
}

/// A line break or a semicolon ends a segment, and nothing else does: the
/// segments of two texts joined by one are those of both, and a text without
/// them is one segment, trimmed.
pub proof fn lemma_how_segments_are_cut(a: Seq<char>, c: char, b: Seq<char>)
    ensures
        c == '\n' || c == ';' ==> segments(a + seq![c] + b) == segments(a) + segments(b),
        (forall|i: int| 0 <= i < a.len() ==> #[trigger] a[i] != '\n' && a[i] != ';') ==> segments(
            a,
        ) == seq![trimmed(a)],
{
    let p = among(separators());
    assert(separators()[0] == '\n' && separators()[1] == ';');
    if c == '\n' || c == ';' {
        assert(p(c));
        lemma_pieces_of_join(a, c, b, p);
        assert(segments(a + seq![c] + b) =~= segments(a) + segments(b));
    }
    if forall|i: int| 0 <= i < a.len() ==> #[trigger] a[i] != '\n' && a[i] != ';' {
        lemma_first_where(a, p);
        if let Some(i) = first_where(a, p) {
            assert(a[i] == '\n' || a[i] == ';');
        }
        assert(segments(a) =~= seq![trimmed(a)]);
    }
}

/// How the segments decide. The first that counts failures rejects, with itself
/// as the reason. Without one, the first that complains does, unless another
/// confirms. Otherwise the text is an acceptance.
pub proof fn lemma_how_segments_decide(flat: Seq<char>, i: int)
    requires
        0 <= i < segments(flat).len(),
    ensures
        ({
            let parts = segments(flat);
            let counted = exists|j: int| 0 <= j < parts.len() && counts_failures(#[trigger] parts[j]);
            let confirmed = exists|j: int| 0 <= j < parts.len() && confirms(#[trigger] parts[j]);
            let complained = exists|j: int| 0 <= j < parts.len() && complains(#[trigger] parts[j]);
            &&& counts_failures(parts[i]) && (forall|j: int|
                0 <= j < i ==> !counts_failures(#[trigger] parts[j])) ==> text_verdict(flat) == (
            ParsedView::Rejected { reason: parts[i] })
            &&& !counted && !confirmed && complains(parts[i]) && (forall|j: int|
                0 <= j < i ==> !complains(#[trigger] parts[j])) ==> text_verdict(flat) == (
            ParsedView::Rejected { reason: parts[i] })
            &&& !counted && (confirmed || !complained) ==> text_verdict(flat) == (
            ParsedView::Accepted { message_id: id_in(flat) })
        }),
{
    let parts = segments(flat);
    lemma_first_such_at(parts, |s: Seq<char>| counts_failures(s), i);
    lemma_first_such_at(parts, |s: Seq<char>| confirms(s), i);
    lemma_first_such_at(parts, |s: Seq<char>| complains(s), i);
    assert(first_bad_count(parts) is Some <==> exists|j: int|
        0 <= j < parts.len() && counts_failures(#[trigger] parts[j]));
    assert(first_confirmation(parts) is Some <==> exists|j: int|
        0 <= j < parts.len() && confirms(#[trigger] parts[j]));
    assert(first_complaint(parts) is Some <==> exists|j: int|
        0 <= j < parts.len() && complains(#[trigger] parts[j]));
}

proof fn lemma_first_such_at(parts: Seq<Seq<char>>, p: spec_fn(Seq<char>) -> bool, i: int)
    requires
        0 <= i < parts.len(),
    ensures
        p(parts[i]) && (forall|j: int| 0 <= j < i ==> !p(#[trigger] parts[j])) ==> first_such(
            parts,
            p,
        ) == Some(parts[i]),
        first_such(parts, p) is Some <==> exists|j: int|
            0 <= j < parts.len() && p(#[trigger] parts[j]),
    decreases parts.len(),
{
    let rest = parts.drop_first();
    assert(forall|j: int| 0 <= j < rest.len() ==> rest[j] == parts[j + 1]);
    if !p(parts[0]) && rest.len() > 0 {
        let k = if i > 0 {
            i - 1
        } else {
            0
        };
        lemma_first_such_at(rest, p, k);
        if exists|j: int| 0 <= j < parts.len() && p(#[trigger] parts[j]) {
            let j = choose|j: int| 0 <= j < parts.len() && p(#[trigger] parts[j]);
            assert(p(rest[j - 1]));
        }
        if exists|j: int| 0 <= j < rest.len() && p(#[trigger] rest[j]) {
            let j = choose|j: int| 0 <= j < rest.len() && p(#[trigger] rest[j]);
            assert(p(parts[j + 1]));
        }
    }
}

// ---------------------------------------------------------------------------
// What a segment says
// ---------------------------------------------------------------------------

/// An ASCII letter or digit.
pub open spec fn letter_or_digit(c: char) -> bool {
    'a' <= c <= 'z' || 'A' <= c <= 'Z' || '0' <= c <= '9'
}

/// The letters and digits of a text.
pub open spec fn bare(s: Seq<char>) -> Seq<char> {
    s.filter(|c: char| letter_or_digit(c))
}

/// The six names under which an id is given.
pub open spec fn id_name(name: Seq<char>) -> bool {
    name == "msgid"@ || name == "messageid"@ || name == "id"@ || name == "smsid"@ || name
        == "jobid"@ || name == "batchid"@
}

/// The name speaks of failures.
pub open spec fn failure_name(name: Seq<char>) -> bool {
    contains(name, "invalid"@) || contains(name, "fail"@) || contains(name, "error"@) || contains(
        name,
        "reject"@,
    ) || contains(name, "duplicate"@)
}

proof fn lemma_id_names(name: Seq<char>)
    ensures
        id_labels().contains(name) <==> id_name(name),
{
    let all = id_labels();
    assert(all[0] == "msgid"@ && all[1] == "messageid"@ && all[2] == "id"@ && all[3] == "smsid"@
        && all[4] == "jobid"@ && all[5] == "batchid"@);
    if id_name(name) {
        assert(all.contains(all[0]) && all.contains(all[1]) && all.contains(all[2])
            && all.contains(all[3]) && all.contains(all[4]) && all.contains(all[5]));
    }
}

proof fn lemma_failure_names(name: Seq<char>)
    ensures
        contains_any(name, counter_tokens()) <==> failure_name(name),
{
    let all = counter_tokens();
    assert(all[0] == "invalid"@ && all[1] == "fail"@ && all[2] == "error"@ && all[3] == "reject"@
        && all[4] == "duplicate"@);
    if failure_name(name) {
        assert(contains(name, all[0]) || contains(name, all[1]) || contains(name, all[2])
            || contains(name, all[3]) || contains(name, all[4]));
    }
}

/// What a label is cut from its value by: the first colon.
proof fn lemma_labeled(label: Seq<char>, value: Seq<char>)
    requires
        forall|i: int| 0 <= i < label.len() ==> #[trigger] label[i] != ':',
    ensures
        labeled(label + seq![':'] + value) == Some((lowered(bare(label)), trimmed(value))),
{
    let s = label + seq![':'] + value;
    let p = among(seq![':']);
    let n = label.len() as int;
    assert(seq![':'][0] == ':');
    lemma_first_where(label, p);
    if let Some(i) = first_where(label, p) {
        assert(seq![':'].contains(label[i]));
    }
    assert(s =~= label + (seq![':'] + value));
    lemma_first_where_of_concat(label, seq![':'] + value, p);
    assert(s.take(n) =~= label);
    assert(s.skip(n + 1) =~= value);
    lemma_kept_is_filter(label, alphanumerics(), |c: char| letter_or_digit(c));
}

proof fn lemma_unlabeled(s: Seq<char>)
    requires
        forall|i: int| 0 <= i < s.len() ==> #[trigger] s[i] != ':',
    ensures
        labeled(s) is None,
{
    let p = among(seq![':']);
    lemma_first_where(s, p);
    if let Some(i) = first_where(s, p) {
        assert(seq![':'].contains(s[i]));
    }
}

/// A segment is a counter of failures exactly when it is a number behind a
/// colon, and the letters and digits before it are not the name of an id but
/// hold one of `invalid`, `fail`, `error`, `reject` and `duplicate`. It counts
/// failures when that number is not zero.
pub proof fn lemma_what_counts_failures(segment: Seq<char>, label: Seq<char>, value: Seq<char>)
    ensures
        lowered(segment) == label + seq![':'] + value && (forall|i: int|
            0 <= i < label.len() ==> #[trigger] label[i] != ':') ==> {
            let name = lowered(bare(label));
            &&& counter(lowered(segment)) == (if failure_name(name) && !id_name(name) {
                number_of(trimmed(value))
            } else {
                None
            })
            &&& counts_failures(segment) <==> failure_name(name) && !id_name(name) && (number_of(
                trimmed(value),
            ) matches Some(n) && n != 0)
        },
        (forall|i: int| 0 <= i < segment.len() ==> #[trigger] segment[i] != ':') ==> counter(
            lowered(segment),
        ) is None && !counts_failures(segment),
{
    let low = lowered(segment);
    if low == label + seq![':'] + value && (forall|i: int|
        0 <= i < label.len() ==> #[trigger] label[i] != ':') {
        lemma_labeled(label, value);
        lemma_id_names(lowered(bare(label)));
        lemma_failure_names(lowered(bare(label)));
    }
    if forall|i: int| 0 <= i < segment.len() ==> #[trigger] segment[i] != ':' {
        assert forall|i: int| 0 <= i < low.len() implies #[trigger] low[i] != ':' by {
            assert(segment[i] != ':');
        }
        lemma_unlabeled(low);
    }
}

/// A segment that is no counter confirms the send exactly when it speaks of
/// success or of a message id.
pub proof fn lemma_what_confirms(segment: Seq<char>)
    ensures
        confirms(segment) <==> counter(lowered(segment)) is None && sounds_like_success(segment),
{
    lemma_sounds_like_success(segment);
}

/// One of the eight words stands in the text as a word of its own: with neither
/// a letter nor a digit before it, nor behind it.
pub open spec fn complaint_at(s: Seq<char>, word: Seq<char>, i: int) -> bool {
    &&& failure_word(word)
    &&& speaks(s, word, i)
    &&& i == 0 || !letter_or_digit(s[i - 1])
    &&& i + word.len() == s.len() || !letter_or_digit(s[i + word.len()])
}

/// A segment complains exactly when it is no counter, confirms nothing, and one
/// of the eight words stands in it alone.
pub proof fn lemma_what_complains(segment: Seq<char>)
    ensures
        complains(segment) <==> counter(lowered(segment)) is None && !sounds_like_success(segment)
            && exists|word: Seq<char>, i: int| #[trigger] complaint_at(segment, word, i),
{
    let low = lowered(segment);
    let tokens = failure_tokens();
    lemma_sounds_like_success(segment);
    lemma_failure_words();
    if exists|k: int| 0 <= k < tokens.len() && standalone(low, #[trigger] tokens[k]) {
        let k = choose|k: int| 0 <= k < tokens.len() && standalone(low, #[trigger] tokens[k]);
        let word = tokens[k];
        assert(tokens.contains(word));
        assert(failure_word(word));
        lemma_standalone_is_a_word(low, word);
        let i = choose|i: int| #[trigger] occurs_at(low, word, i) && bounded(low, i, i + word.len());
        lemma_speaks(segment, word, i);
        lemma_bounded(segment, i, i + word.len());
        assert(complaint_at(segment, word, i));
    }
    if exists|word: Seq<char>, i: int| #[trigger] complaint_at(segment, word, i) {
        let (word, i) = choose|word: Seq<char>, i: int| #[trigger] complaint_at(segment, word, i);
        assert(tokens.contains(word));
        let k = choose|k: int| 0 <= k < tokens.len() && tokens[k] == word;
        lemma_speaks(segment, word, i);
        lemma_bounded(segment, i, i + word.len());
        lemma_standalone_is_a_word(low, word);
        assert(occurs_at(low, word, i) && bounded(low, i, i + word.len()));
        assert(standalone(low, tokens[k]));
    }
}

proof fn lemma_bounded(s: Seq<char>, start: int, end: int)
    requires
        0 <= start <= end <= s.len(),
    ensures
        bounded(lowered(s), start, end) <==> (start == 0 || !letter_or_digit(s[start - 1])) && (end
            == s.len() || !letter_or_digit(s[end])),
{
    if start > 0 {
        assert(lowered(s)[start - 1] == lower_char(s[start - 1]));
    }
    if end < s.len() {
        assert(lowered(s)[end] == lower_char(s[end]));
    }
}

// ---------------------------------------------------------------------------
// Message ids
// ---------------------------------------------------------------------------

/// A segment carries a labelled id exactly when the letters and digits before
/// its first colon are one of the six names, whatever their case, and what
/// stands behind is a single word. The id is that word, as it is.
pub proof fn lemma_what_carries_an_id(label: Seq<char>, value: Seq<char>)
    requires
        forall|i: int| 0 <= i < label.len() ==> #[trigger] label[i] != ':',
    ensures
        ({
            let word = trimmed(value);
            let single = word.len() > 0 && (forall|i: int|
                0 <= i < word.len() ==> !white_space(#[trigger] word[i]));
            segment_id(label + seq![':'] + value) == (if id_name(lowered(bare(label))) && single {
                Some(word)
            } else {
                None
            })
        }),
{
    lemma_labeled(label, value);
    lemma_id_names(lowered(bare(label)));
}

/// The first segment with a labelled id gives the id of a text; without one it
/// is looked for on the first line that is not blank.
pub proof fn lemma_where_the_id_comes_from(flat: Seq<char>, i: int)
    requires
        0 <= i < segments(flat).len(),
    ensures
        ({
            let parts = segments(flat);
            &&& segment_id(parts[i]) is Some && (forall|j: int|
                0 <= j < i ==> segment_id(#[trigger] parts[j]) is None) ==> id_in(flat)
                == segment_id(parts[i])
            &&& (forall|j: int| 0 <= j < parts.len() ==> segment_id(#[trigger] parts[j]) is None)
                ==> id_in(flat) == line_id(first_line(flat))
        }),
{
    lemma_labeled_id_at(segments(flat), i);
}

proof fn lemma_labeled_id_at(parts: Seq<Seq<char>>, i: int)
    requires
        0 <= i < parts.len(),
    ensures
        segment_id(parts[i]) is Some && (forall|j: int|
            0 <= j < i ==> segment_id(#[trigger] parts[j]) is None) ==> labeled_id(parts)
            == segment_id(parts[i]),
        (forall|j: int| 0 <= j < parts.len() ==> segment_id(#[trigger] parts[j]) is None)
            ==> labeled_id(parts) is None,
    decreases parts.len(),
{
    let rest = parts.drop_first();
    assert(forall|j: int| 0 <= j < rest.len() ==> rest[j] == parts[j + 1]);
    if rest.len() > 0 {
        let k = if i > 0 {
            i - 1
        } else {
            0
        };
        lemma_labeled_id_at(rest, k);
        if forall|j: int| 0 <= j < parts.len() ==> segment_id(#[trigger] parts[j]) is None {
            assert forall|j: int| 0 <= j < rest.len() implies segment_id(
                #[trigger] rest[j],
            ) is None by {
                assert(segment_id(parts[j + 1]) is None);
            }
        }
        if i > 0 && (forall|j: int| 0 <= j < i ==> segment_id(#[trigger] parts[j]) is None) {
            assert forall|j: int| 0 <= j < k implies segment_id(#[trigger] rest[j]) is None by {
                assert(segment_id(parts[j + 1]) is None);
            }
            assert(segment_id(parts[0]) is None);
        }
    } else {
        assert(labeled_id(rest) is None);
    }
}

/// The first line that is not blank is what counts, trimmed.
pub proof fn lemma_the_first_line_that_is_not_blank(line: Seq<char>, rest: Seq<char>)
    requires
        forall|i: int| 0 <= i < line.len() ==> #[trigger] line[i] != '\n',
    ensures
        !blank(line) ==> first_line(line) == trimmed(line) && first_line(line + seq!['\n'] + rest)
            == trimmed(line),
        blank(line) && !blank(rest) ==> first_line(line + seq!['\n'] + rest) == first_line(rest),
{
    let p = among(seq!['\n']);
    let whole = line + seq!['\n'] + rest;
    assert(seq!['\n'][0] == '\n');
    lemma_first_where(line, p);
    if let Some(i) = first_where(line, p) {
        assert(line[i] == '\n');
    }
    assert(pieces(line, p) =~= seq![line]);
    lemma_pieces_of_join(line, '\n', rest, p);
    lemma_blank_iff_trimmed_empty(line);
    let lines = Seq::new(pieces(whole, p).len(), |i: int| trimmed(pieces(whole, p)[i]));
    let later = Seq::new(pieces(rest, p).len(), |i: int| trimmed(pieces(rest, p)[i]));
    let one = Seq::new(pieces(line, p).len(), |i: int| trimmed(pieces(line, p)[i]));
    assert(one =~= seq![trimmed(line)]);
    assert(lines =~= seq![trimmed(line)] + later);
    assert(lines.drop_first() =~= later);
    assert(lines[0] == trimmed(line));
    if blank(line) && !blank(rest) {
        lemma_some_line(rest);
    }
}

/// A text that is not blank has a line that is not.
proof fn lemma_some_line(s: Seq<char>)
    requires
        !blank(s),
    ensures
        first_nonempty(
            Seq::new(
                pieces(s, among(seq!['\n'])).len(),
                |i: int| trimmed(pieces(s, among(seq!['\n']))[i]),
            ),
        ) is Some,
    decreases s.len(),
{
    let p = among(seq!['\n']);
    let lines = Seq::new(pieces(s, p).len(), |i: int| trimmed(pieces(s, p)[i]));
    lemma_first_where(s, p);
    match first_where(s, p) {
        Some(i) => {
            let head = s.take(i);
            let rest = s.skip(i + 1);
            let later = Seq::new(pieces(rest, p).len(), |k: int| trimmed(pieces(rest, p)[k]));
            assert(lines[0] == trimmed(head));
            assert(lines.drop_first() =~= later);
            lemma_blank_iff_trimmed_empty(head);
            if blank(head) {
                assert(s[i] == '\n');
                let j = choose|j: int| 0 <= j < s.len() && !white_space(#[trigger] s[j]);
                if j < i {
                    assert(head[j] == s[j]);
                }
                assert(j > i);
                assert(rest[j - i - 1] == s[j]);
                lemma_some_line(rest);
            }
        },
        None => {
            assert(lines[0] == trimmed(s));
            lemma_blank_iff_trimmed_empty(s);
        },
    }
}

/// An id is six or more letters, digits and hyphens, one of them a digit at
/// least; colons, dots and quotes around it do not count.
pub proof fn lemma_what_looks_like_an_id(before: Seq<char>, core: Seq<char>, after: Seq<char>)
    requires
        forall|i: int|
            0 <= i < before.len() ==> (#[trigger] before[i] == ':' || before[i] == '.' || before[i]
                == '"'),
        forall|i: int|
            0 <= i < after.len() ==> (#[trigger] after[i] == ':' || after[i] == '.' || after[i]
                == '"'),
        core.len() > 0 ==> core[0] != ':' && core[0] != '.' && core[0] != '"' && core.last() != ':'
            && core.last() != '.' && core.last() != '"',
    ensures
        idish(before + core + after) <==> {
            &&& core.len() >= 6
            &&& exists|i: int| 0 <= i < core.len() && '0' <= #[trigger] core[i] <= '9'
            &&& forall|i: int|
                0 <= i < core.len() ==> letter_or_digit(#[trigger] core[i]) || core[i] == '-'
        },
{
    let p = among(id_wrapping());
    assert(id_wrapping()[0] == ':' && id_wrapping()[1] == '.' && id_wrapping()[2] == '"');
    assert forall|i: int| 0 <= i < before.len() implies p(#[trigger] before[i]) by {
        assert(before[i] == ':' || before[i] == '.' || before[i] == '"');
    }
    assert forall|i: int| 0 <= i < after.len() implies p(#[trigger] after[i]) by {
        assert(after[i] == ':' || after[i] == '.' || after[i] == '"');
    }
    if core.len() > 0 {
        assert(!p(core[0]));
        assert(!p(core.last()));
    }
    lemma_strip_wrapped(before, core, after, p);
}

/// What stands before the first `c` of the line, if there is one, does not look
/// like an id.
pub open spec fn no_id_before(line: Seq<char>, c: char) -> bool {
    forall|i: int|
        0 <= i < line.len() && #[trigger] line[i] == c && !line.take(i).contains(c) ==> !idish(
            trimmed(line.take(i)),
        )
}

/// What stands behind the first `c` of the line, if there is one, does not look
/// like an id.
pub open spec fn no_id_behind(line: Seq<char>, c: char) -> bool {
    forall|i: int|
        0 <= i < line.len() && #[trigger] line[i] == c && !line.take(i).contains(c) ==> !idish(
            trimmed(line.skip(i + 1)),
        )
}

proof fn lemma_no_id_at(line: Seq<char>, c: char)
    ensures
        no_id_before(line, c) ==> id_before(line, c) is None,
        no_id_behind(line, c) ==> id_after(line, c) is None,
{
    let p = among(seq![c]);
    lemma_first_where(line, p);
    if let Some(i) = first_where(line, p) {
        assert(seq![c].contains(line[i]));
        assert(line[i] == c);
        assert(!line.take(i).contains(c)) by {
            if line.take(i).contains(c) {
                let j = choose|j: int| 0 <= j < i && line.take(i)[j] == c;
                assert(line[j] == c);
                assert(seq![c][0] == c);
                assert(p(line[j]));
            }
        }
    }
}

/// On a line without a label, what stands before the first `|` is the id if it
/// looks like one.
pub proof fn lemma_an_id_before_a_bar(head: Seq<char>, tail: Seq<char>)
    requires
        forall|i: int| 0 <= i < head.len() ==> #[trigger] head[i] != '|',
        idish(trimmed(head)),
    ensures
        line_id(head + seq!['|'] + tail) == Some(trimmed(head)),
{
    lemma_cut_first(head, '|', tail);
}

/// Without one there, what stands before the first comma is, if it looks like one.
pub proof fn lemma_an_id_before_a_comma(head: Seq<char>, tail: Seq<char>)
    requires
        forall|i: int| 0 <= i < head.len() ==> #[trigger] head[i] != ',',
        no_id_before(head + seq![','] + tail, '|'),
        idish(trimmed(head)),
    ensures
        line_id(head + seq![','] + tail) == Some(trimmed(head)),
{
    lemma_cut_first(head, ',', tail);
    lemma_no_id_at(head + seq![','] + tail, '|');
}

/// Without one at either place, what stands behind the first equals sign is, if it
/// looks like one.
pub proof fn lemma_an_id_behind_an_equals_sign(head: Seq<char>, tail: Seq<char>)
    requires
        forall|i: int| 0 <= i < head.len() ==> #[trigger] head[i] != '=',
        no_id_before(head + seq!['='] + tail, '|'),
        no_id_before(head + seq!['='] + tail, ','),
        idish(trimmed(tail)),
    ensures
        line_id(head + seq!['='] + tail) == Some(trimmed(tail)),
{
    lemma_cut_first(head, '=', tail);
    lemma_no_id_at(head + seq!['='] + tail, '|');
    lemma_no_id_at(head + seq!['='] + tail, ',');
}

/// Without one at any of the three marks, the line itself is the id if it looks
/// like one, and otherwise the longest word on it that does; the last, where several
/// are as long.
pub proof fn lemma_an_id_among_words(line: Seq<char>)
    requires
        no_id_before(line, '|'),
        no_id_before(line, ','),
        no_id_behind(line, '='),
    ensures
        idish(line) ==> line_id(line) == Some(line),
        !idish(line) ==> ({
            let words = pieces(line, space());
            &&& line_id(line) matches Some(id) ==> words.contains(id) && idish(id)
            &&& forall|k: int|
                0 <= k < words.len() && idish(#[trigger] words[k]) ==> (line_id(line) matches Some(
                    id,
                ) && id.len() >= words[k].len())
            &&& forall|k: int|
                0 <= k < words.len() && idish(#[trigger] words[k]) && (forall|j: int|
                    0 <= j < words.len() && j != k && idish(#[trigger] words[j]) ==> words[j].len()
                        < words[k].len() || (words[j].len() == words[k].len() && j < k))
                    ==> line_id(line) == Some(words[k])
        }),
{
    lemma_no_id_at(line, '|');
    lemma_no_id_at(line, ',');
    lemma_no_id_at(line, '=');
    if !idish(line) {
        lemma_longest(pieces(line, space()));
    }
}

proof fn lemma_longest(words: Seq<Seq<char>>)
    ensures
        longest_id(words) matches Some(id) ==> words.contains(id) && idish(id),
        forall|k: int|
            0 <= k < words.len() && idish(#[trigger] words[k]) ==> (longest_id(words) matches Some(
                id,
            ) && id.len() >= words[k].len()),
        forall|k: int|
            0 <= k < words.len() && idish(#[trigger] words[k]) && (forall|j: int|
                0 <= j < words.len() && j != k && idish(#[trigger] words[j]) ==> words[j].len()
                    < words[k].len() || (words[j].len() == words[k].len() && j < k)) ==> longest_id(
                words,
            ) == Some(words[k]),
    decreases words.len(),
{
    if words.len() > 0 {
        let rest = words.drop_last();
        let last = words.last();
        let n = words.len() - 1;
        lemma_longest(rest);
        assert(forall|j: int| 0 <= j < rest.len() ==> rest[j] == words[j]);
        assert(words[n] == last);
        if let Some(id) = longest_id(rest) {
            let j = choose|j: int| 0 <= j < rest.len() && rest[j] == id;
            assert(words[j] == id);
        }
        assert forall|k: int| 0 <= k < words.len() && idish(#[trigger] words[k]) implies (
        longest_id(words) matches Some(id) && id.len() >= words[k].len()) by {
            if k < n {
                assert(idish(rest[k]));
            }
        }
        assert forall|k: int|
            0 <= k < words.len() && idish(#[trigger] words[k]) && (forall|j: int|
                0 <= j < words.len() && j != k && idish(#[trigger] words[j]) ==> words[j].len()
                    < words[k].len() || (words[j].len() == words[k].len() && j
                    < k)) implies longest_id(words) == Some(words[k]) by {
            if k < n {
                assert forall|j: int|
                    0 <= j < rest.len() && j != k && idish(#[trigger] rest[j]) implies rest[j].len()
                    < rest[k].len() || (rest[j].len() == rest[k].len() && j < k) by {
                    assert(idish(words[j]));
                }
                assert(idish(rest[k]));
                assert(longest_id(rest) == Some(rest[k]));
                if idish(last) {
                    assert(idish(words[n]));
                }
            } else {
                if let Some(best) = longest_id(rest) {
                    let j = choose|j: int| 0 <= j < rest.len() && rest[j] == best;
                    assert(idish(words[j]));
                }
            }
        }
    }
}

/// A word ends where white space starts, and nowhere else.
pub proof fn lemma_how_words_are_cut(a: Seq<char>, c: char, b: Seq<char>)
    ensures
        white_space(c) ==> pieces(a + seq![c] + b, space()) == pieces(a, space()) + pieces(
            b,
            space(),
        ),
        (forall|i: int| 0 <= i < a.len() ==> !white_space(#[trigger] a[i])) ==> pieces(a, space())
            == seq![a],
{
    if white_space(c) {
        lemma_pieces_of_join(a, c, b, space());
    }
    if forall|i: int| 0 <= i < a.len() ==> !white_space(#[trigger] a[i]) {
        lemma_first_where(a, space());
    }
}

// ---------------------------------------------------------------------------
// Numbers
// ---------------------------------------------------------------------------

/// A number in a counter is read for what it is, with or without a plus sign,
/// and what holds anything but digits is no number.
pub proof fn lemma_numbers_are_read(n: u64, s: Seq<char>, i: int)
    ensures
        number_of(decimal(n as nat)) == Some(n),
        number_of(seq!['+'] + decimal(n as nat)) == Some(n),
        s.len() == 0 ==> number_of(s) is None,
        0 <= i < s.len() && !('0' <= s[i] <= '9') && !(i == 0 && s[i] == '+') ==> number_of(
            s,
        ) is None,
{
    lemma_numbers_are_written_in_decimal(n as nat, s, '0');
    assert(decimal(n as nat)[0] != '+');
    let signed = seq!['+'] + decimal(n as nat);
    assert(signed.skip(1) =~= decimal(n as nat));
    if 0 <= i < s.len() && !('0' <= s[i] <= '9') && !(i == 0 && s[i] == '+') {
        if s[0] == '+' {
            assert(s.skip(1)[i - 1] == s[i]);
        }
    }
}

} // verus!
