use mdsmedia::json::{JsonDocument, JsonMember};
use mdsmedia::response::{judge_body, parse_body, Parsed};

fn id_of(body: &str) -> Option<String> {
    match parse_body(body) {
        Parsed::Accepted { message_id } => message_id,
        Parsed::Rejected { reason } => panic!("unexpected rejection: {reason}"),
    }
}

fn is_rejected(body: &str) -> bool {
    matches!(parse_body(body), Parsed::Rejected { .. })
}

fn reason_of(body: &str) -> String {
    match parse_body(body) {
        Parsed::Rejected { reason } => reason,
        other => panic!("{other:?}"),
    }
}

#[test]
fn plain_id_shapes() {
    assert_eq!(id_of("1234567890123456789"), Some("1234567890123456789".into()));
    assert_eq!(id_of("8812345|919995551212"), Some("8812345".into()));
    assert_eq!(id_of("id=8812345"), Some("8812345".into()));
    assert_eq!(id_of("Message Submitted 8812345"), Some("8812345".into()));
}

#[test]
fn success_without_id_is_still_accepted() {
    assert_eq!(id_of("Submitted Successfully"), None);
}

/// A body observed from a live MDS deployment on a send that was confirmed
/// delivered to the handset. The literal word "Invalid" appears in a
/// zero-valued counter and must not read as failure.
#[test]
fn live_gateway_success_response() {
    let body = "Message Submitted successfully<pre>msg-id : Xy7Kq2mBn4Rv8Ts<pre>Total Invalid Numbers : 0";
    assert_eq!(id_of(body), Some("Xy7Kq2mBn4Rv8Ts".into()));
}

#[test]
fn a_nonzero_invalid_counter_is_a_rejection() {
    // Single-recipient sends: one invalid number means ours was rejected.
    assert!(is_rejected(
        "Message Submitted successfully<pre>msg-id : abc123def<pre>Total Invalid Numbers : 1"
    ));
}

#[test]
fn html_separators_are_flattened() {
    assert_eq!(id_of("Sent<br>msg-id : XY12345<br>"), Some("XY12345".into()));
}

#[test]
fn failure_bodies_are_rejections() {
    assert!(is_rejected("ERROR: Invalid API Key"));
    assert!(is_rejected("Authentication Failed"));
    assert!(is_rejected("Insufficient Credits"));
    assert!(is_rejected(""));
}

#[test]
fn id_containing_a_failure_token_is_not_a_rejection() {
    assert_eq!(id_of("ab12errorid99"), Some("ab12errorid99".into()));
}

#[test]
fn json_shapes() {
    assert_eq!(id_of(r#"{"status":"success","message_id":"8812345"}"#), Some("8812345".into()));
    assert!(is_rejected(r#"{"status":"error","message":"Invalid Sender"}"#));
    assert!(is_rejected(r#"{"success":false,"message":"blocked"}"#));
}

#[test]
fn reasons_are_the_segments_that_reject() {
    assert_eq!(reason_of("  \n "), "gateway returned an empty body");
    assert_eq!(reason_of("Hello; ERROR: Invalid API Key "), "ERROR: Invalid API Key");
    assert_eq!(
        reason_of("Message Submitted successfully<pre>Total Invalid Numbers : 2<pre>x"),
        "Total Invalid Numbers : 2"
    );
    // The first complaint is the reason, a count above zero comes before any.
    assert_eq!(reason_of("error one;error two"), "error one");
    assert_eq!(reason_of("error one;failed count: 3"), "failed count: 3");
}

#[test]
fn a_confirmation_wins_over_a_complaint() {
    assert_eq!(id_of("error in log; message id : 77"), Some("77".into()));
    assert_eq!(id_of("success\nfailed"), None);
}

#[test]
fn only_whole_words_complain() {
    assert_eq!(id_of("terrors abound"), None);
    assert!(is_rejected("no_error-code"));
    assert!(is_rejected("terrors and error"));
    // Any word of failure that stands alone will do.
    assert_eq!(reason_of("xerrorx failed"), "xerrorx failed");
    assert_eq!(id_of("xerrorx xfailedx"), None);
}

#[test]
fn a_counter_that_reads_zero_changes_nothing() {
    let bodies = [
        "8812345|919995551212",
        "Message Submitted successfully<pre>msg-id : Xy7Kq2mBn4Rv8Ts",
        "ERROR: Invalid API Key",
        "Sent: 1234567 \n\n",
        "Total Invalid Numbers : 2; success",
        "<br>",
        "<br",
        "queued",
        " 12 ; id : a ",
    ];
    for body in bodies {
        let longer = format!("{body}\nTotal Invalid Numbers : 0");
        assert_eq!(parse_body(&longer), parse_body(body), "{body}");
    }
}

#[test]
fn counters_must_be_numbers() {
    assert!(!is_rejected("Invalid Numbers : +0"));
    assert!(is_rejected("Invalid Numbers : +1"));
    // What is no number is judged by its words.
    assert!(is_rejected("Invalid Numbers : many"));
    assert!(is_rejected("invalid : 18446744073709551616"));
    assert!(!is_rejected("duplicates : 0"));
    assert!(is_rejected("duplicates : 7"));
    // An id is never a counter.
    assert_eq!(id_of("msg id : 5"), Some("5".into()));
}

#[test]
fn labelled_ids_are_taken_verbatim() {
    assert_eq!(id_of("MSG ID: a"), Some("a".into()));
    assert_eq!(id_of("batch-id : x/y;8812345"), Some("x/y".into()));
    assert_eq!(id_of("id : two words"), None);
    assert_eq!(id_of("id :\n8812345"), None);
}

#[test]
fn ids_on_a_line() {
    assert_eq!(id_of("8812345, queued"), Some("8812345".into()));
    assert_eq!(id_of("ref=AB-12-34"), Some("AB-12-34".into()));
    // An underscore belongs to no id.
    assert_eq!(id_of("ref=AB-12_34"), None);
    assert_eq!(id_of("abc_123"), None);
    assert_eq!(id_of("\"8812345\""), Some("\"8812345\"".into()));
    assert_eq!(id_of("a 123456 b 1234567 c 7654321"), Some("7654321".into()));
    assert_eq!(id_of("12345"), None);
    assert_eq!(id_of("abcdefgh"), None);
    assert_eq!(id_of("<b></b>8812345"), Some("8812345".into()));
}

#[test]
fn an_id_stands_in_the_body() {
    for body in ["8812345|919995551212", "id=8812345", "Sent: 1234567", "msg-id : Xy7"] {
        assert!(body.contains(&id_of(body).unwrap()));
    }
}

#[test]
fn json_members() {
    assert_eq!(id_of(r#"{"Status":"OK","id":8812345}"#), Some("8812345".into()));
    assert_eq!(id_of(r#"[{"msgid":"A1"},{"msgid":"B2"}]"#), Some("A1".into()));
    assert_eq!(id_of(r#"{"message_id":null,"messageId":"Z"}"#), Some("Z".into()));
    assert_eq!(id_of(r#"{"success":true}"#), None);
    assert_eq!(reason_of(r#"{"type":"Failed"}"#), r#"{"type":"Failed"}"#);
    assert_eq!(reason_of(r#" {"result":"REJECTED","reason":7} "#), "7");
    assert_eq!(reason_of(r#"{"success":false,"error":"no \"credit\""}"#), "no \"credit\"");
    // Words of failure in the status count, whole or not.
    assert!(is_rejected(r#"{"status":"xerrorx"}"#));
}

#[test]
fn json_that_says_nothing_is_read_as_text() {
    assert_eq!(id_of("[]"), None);
    assert_eq!(id_of("[1]"), None);
    assert!(is_rejected("{ error"));
    assert_eq!(id_of("{8812345"), None);
    assert_eq!(id_of("[x]\n8812345"), None);
}

#[test]
fn a_document_is_judged_as_read() {
    let member = |name: &str, m: JsonMember| (name.to_string(), m);
    let text = |s: &str| JsonMember::Text(s.to_string());
    let ok = JsonDocument::Single(vec![member("id", JsonMember::Number("7".into()))]);
    assert_eq!(judge_body("{}", Some(ok)), Parsed::Accepted { message_id: Some("7".into()) });
    let bad = JsonDocument::List(vec![
        vec![member("status", text("Error")), member("message", text("why"))],
        vec![member("id", text("8"))],
    ]);
    assert_eq!(judge_body("[]", Some(bad)), Parsed::Rejected { reason: "why".into() });
    let none = JsonDocument::List(vec![]);
    assert_eq!(judge_body("[]", Some(none)), Parsed::Accepted { message_id: None });
    let ignored = JsonDocument::Single(vec![member("success", JsonMember::Bool(false))]);
    assert_eq!(
        judge_body("8812345", Some(ignored)),
        Parsed::Accepted { message_id: Some("8812345".into()) }
    );
}
