//! JSON replies of the gateway, down to the members of their records.

use crate::text::str_texts;
use serde_json::Value;
use vstd::prelude::*;

verus! {

/// The value of one member of a JSON record. Arrays and records are not
/// looked into.
#[derive(Debug, Clone, PartialEq, Eq)]
pub enum JsonMember {
    Null,
    Bool(bool),
    /// A number, as `serde_json` writes it.
    Number(String),
    Text(String),
    /// An array or a record.
    Nested,
}

/// The model of a [`JsonMember`].
pub enum MemberView {
    Null,
    Bool(bool),
    Number(Seq<char>),
    Text(Seq<char>),
    Nested,
}

impl View for JsonMember {
    type V = MemberView;

    open spec fn view(&self) -> MemberView {
        match self {
            JsonMember::Null => MemberView::Null,
            JsonMember::Bool(b) => MemberView::Bool(*b),
            JsonMember::Number(s) => MemberView::Number(s@),
            JsonMember::Text(s) => MemberView::Text(s@),
            JsonMember::Nested => MemberView::Nested,
        }
    }
}

/// The members of a JSON record, each name once. A value that is no record
/// has none.
pub type JsonRecord = Vec<(String, JsonMember)>;

/// The model of a [`JsonRecord`].
pub type RecordView = Seq<(Seq<char>, MemberView)>;

/// The model of a list of members.
pub open spec fn record_view(record: JsonRecord) -> RecordView {
    Seq::new(record@.len(), |i: int| (record@[i].0@, record@[i].1@))
}

/// A JSON document: a list with the members of each of its items, or a single
/// value with its members.
#[derive(Debug, Clone, PartialEq, Eq)]
pub enum JsonDocument {
    List(Vec<JsonRecord>),
    Single(JsonRecord),
}

/// The model of a [`JsonDocument`].
pub enum DocumentView {
    List(Seq<RecordView>),
    Single(RecordView),
}

impl View for JsonDocument {
    type V = DocumentView;

    open spec fn view(&self) -> DocumentView {
        match self {
            JsonDocument::List(items) => DocumentView::List(
                Seq::new(items@.len(), |i: int| record_view(items@[i])),
            ),
            JsonDocument::Single(record) => DocumentView::Single(record_view(*record)),
        }
    }
}

/// The document that `serde_json::from_str` reads from a text; `None` where it
/// reports an error.
pub uninterp spec fn json_document(body: Seq<char>) -> Option<DocumentView>;

/// `serde_json::from_str::<Value>`. What it reads is a function of the text
/// alone, and is named [`json_document`]: the claim is that the same text gives
/// the same document, or an error, every time. The members come from
/// `Value::as_object`, a number's text from its `Display`.
#[verifier::external_body]
pub(crate) fn read_json(body: &str) -> (r: Option<JsonDocument>)
    ensures
        match r {
            Some(document) => json_document(body@) == Some(document@),
            None => json_document(body@) is None,
        },
{
    let member = |v: &Value| match v {
        Value::Null => JsonMember::Null,
        Value::Bool(b) => JsonMember::Bool(*b),
        Value::Number(n) => JsonMember::Number(n.to_string()),
        Value::String(s) => JsonMember::Text(s.clone()),
        _ => JsonMember::Nested,
    };
    let record = |v: &Value| v.as_object().into_iter().flatten().map(|(k, v)| (k.clone(), member(v))).collect();
    match serde_json::from_str(body).ok()? {
        Value::Array(items) => Some(JsonDocument::List(items.iter().map(record).collect())),
        value => Some(JsonDocument::Single(record(&value))),
    }
}

/// The first member of that name.
pub open spec fn member_of(record: RecordView, name: Seq<char>) -> Option<MemberView>
    decreases record.len(),
{
    if record.len() == 0 {
        None
    } else if record[0].0 == name {
        Some(record[0].1)
    } else {
        member_of(record.drop_first(), name)
    }
}

/// The text of the first of `names` that is in the record as a text or a
/// number.
pub open spec fn scalar_of(record: RecordView, names: Seq<Seq<char>>) -> Option<Seq<char>>
    decreases names.len(),
{
    if names.len() == 0 {
        None
    } else {
        match member_of(record, names[0]) {
            Some(MemberView::Text(s)) => Some(s),
            Some(MemberView::Number(s)) => Some(s),
            _ => scalar_of(record, names.drop_first()),
        }
    }
}

/// Looks a member up by name.
pub fn find_member<'a>(record: &'a JsonRecord, name: &str) -> (r: Option<&'a JsonMember>)
    ensures
        match r {
            Some(m) => member_of(record_view(*record), name@) == Some(m@),
            None => member_of(record_view(*record), name@) is None,
        },
{
    let wanted = name.to_string();
    let ghost all = record_view(*record);
    let mut i: usize = 0;
    assert(all.skip(0) =~= all);
    while i < record.len()
        invariant
            i <= record@.len(),
            all == record_view(*record),
            wanted@ == name@,
            member_of(all, name@) == member_of(all.skip(i as int), name@),
        decreases record@.len() - i,
    {
        if record[i].0 == wanted {
            return Some(&record[i].1);
        }
        assert(all.skip(i as int).drop_first() =~= all.skip(i + 1));
        i += 1;
    }
    None
}

/// The text of the first of `names` that is in the record as a text or a
/// number.
pub fn find_scalar(record: &JsonRecord, names: &Vec<&str>) -> (r: Option<String>)
    ensures
        match r {
            Some(s) => scalar_of(record_view(*record), str_texts(names@)) == Some(s@),
            None => scalar_of(record_view(*record), str_texts(names@)) is None,
        },
{
    let ghost members = record_view(*record);
    let ghost all = str_texts(names@);
    let mut i: usize = 0;
    assert(all.skip(0) =~= all);
    while i < names.len()
        invariant
            i <= names@.len(),
            members == record_view(*record),
            all == str_texts(names@),
            scalar_of(members, all) == scalar_of(members, all.skip(i as int)),
        decreases names@.len() - i,
    {
        assert(all.skip(i as int).drop_first() =~= all.skip(i + 1));
        match find_member(record, names[i]) {
            Some(JsonMember::Text(s)) => {
                return Some(s.clone());
            },
            Some(JsonMember::Number(s)) => {
                return Some(s.clone());
            },
            _ => {},
        }
        i += 1;
    }
    None
}

} // verus!
