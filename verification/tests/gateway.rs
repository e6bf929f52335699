//! Sends against a gateway that answers from a script.

use mdsmedia::endpoint::{Endpoint, UrlParts};
use mdsmedia::response::Parsed;
use mdsmedia::{
    batch_item, Batch, BatchItem, Config, Error, Event, MdsClient, Message, Phase, Reply, Response,
    Result, RetryPolicy, Route, Step, Template, TransportFault,
};
use std::time::Duration;

fn config_at(base_url: &str) -> Config {
    Config {
        base_url: base_url.into(),
        username: "123456".into(),
        api_key: "test-key".into(),
        sender_id: "SENDER".into(),
        route: Route::Transactional,
        template_id: Some("1234567890123456789".into()),
        entity_id: Some("9876543210987654321".into()),
        default_country_code: Some("91".into()),
    }
}

fn client() -> MdsClient {
    MdsClient::builder()
        .config(config_at("http://127.0.0.1:8080/api.php"))
        .timeout(Duration::from_secs(5))
        .retry(RetryPolicy::none())
        .build()
        .ok()
        .unwrap()
}

fn retrying_client(max_retries: u32) -> MdsClient {
    MdsClient::builder()
        .config(config_at("http://127.0.0.1:8080/api.php"))
        .name("mds1")
        .retry(RetryPolicy {
            max_retries,
            initial_backoff: Duration::from_millis(1),
            max_backoff: Duration::from_millis(5),
            multiplier_pct: 200,
            jitter_pct: 0,
        })
        .build()
        .ok()
        .unwrap()
}

fn answer(status: u16, body: &str) -> Reply {
    Reply::Answered { status, body: body.to_string() }
}

fn name_of(event: &Event<'_>) -> String {
    let label = match event {
        Event::Attempt { .. } => "attempt",
        Event::Accepted { .. } => "accepted",
        Event::Retrying { .. } => "retrying",
        Event::Failed { .. } => "failed",
        Event::Slow { .. } => "slow",
        Event::FailingOver { .. } => "failing_over",
        _ => "other",
    };
    format!("{}:{label}", event.provider())
}

/// What a send led to: its outcome, the requests that were issued, the delays
/// between them, and the events.
struct Sent {
    outcome: Result<Response>,
    requests: Vec<String>,
    delays: Vec<Duration>,
    events: Vec<String>,
}

fn send_timed(client: &MdsClient, message: &Message, replies: Vec<Reply>, total: Duration) -> Sent {
    let mut requests: Vec<String> = Vec::new();
    let mut delays: Vec<Duration> = Vec::new();
    let mut events: Vec<String> = Vec::new();
    assert!(client.has_room_for(message));
    let mut submission = match client.prepare(message) {
        Ok(submission) => submission,
        Err(e) => return Sent { outcome: Err(e), requests, delays, events },
    };
    for reply in replies {
        assert_eq!(submission.phase(), Phase::Ready);
        submission.begin();
        assert_eq!(submission.phase(), Phase::Waiting);
        events.push(name_of(&submission.attempt_event()));
        requests.push(submission.url().to_string());
        let step = submission.conclude(reply, Duration::from_millis(7), total);
        for event in submission.step_events(&step) {
            events.push(name_of(&event));
        }
        match step {
            Step::Accepted { response, .. } => {
                return Sent { outcome: Ok(response), requests, delays, events };
            }
            Step::Failed { error } => return Sent { outcome: Err(error), requests, delays, events },
            Step::Retry { delay, .. } => delays.push(delay),
        }
    }
    panic!("the script is too short");
}

fn send(client: &MdsClient, message: &Message, replies: Vec<Reply>) -> Sent {
    send_timed(client, message, replies, Duration::from_millis(30))
}

fn params(request: &str) -> Vec<(String, String)> {
    url::Url::parse(request).unwrap().query_pairs().into_owned().collect()
}

fn param(request: &str, name: &str) -> String {
    let all = params(request);
    let found: Vec<&(String, String)> = all.iter().filter(|p| p.0 == name).collect();
    assert_eq!(found.len(), 1, "{name}");
    found[0].1.clone()
}

#[test]
fn sends_every_credential_and_dlt_parameter() {
    let tpl = Template::new("{#var#} is your OTP.");
    let message = Message::new("9995551212", &tpl.render_one("482913"));
    let sent = send(&client(), &message, vec![answer(200, "8812345|919995551212")]);
    let request = &sent.requests[0];
    assert!(request.starts_with("http://127.0.0.1:8080/api.php?"));
    assert_eq!(param(request, "username"), "123456");
    assert_eq!(param(request, "apikey"), "test-key");
    assert_eq!(param(request, "senderid"), "SENDER");
    assert_eq!(param(request, "route"), "TRANS");
    assert_eq!(param(request, "mobile"), "919995551212");
    assert_eq!(param(request, "TID"), "1234567890123456789");
    assert_eq!(param(request, "PEID"), "9876543210987654321");
    assert_eq!(param(request, "text"), "482913 is your OTP.");
    assert_eq!(sent.requests.len(), 1);

    let resp = sent.outcome.unwrap();
    assert_eq!(resp.message_id.as_deref(), Some("8812345"));
    assert_eq!(resp.to, "919995551212");
    assert_eq!(resp.attempts, 1);
    assert!(resp.has_message_id());
}

#[test]
fn message_bodies_with_query_metacharacters_survive_intact() {
    // A hand-rolled `format!` URL loses everything after the first `&`.
    let tricky = "Pay \u{20b9}500 & get 10% off? yes #now";
    let sent = send(&client(), &Message::new("9995551212", tricky), vec![answer(200, "8812345")]);
    assert_eq!(param(&sent.requests[0], "text"), tricky);
    assert_eq!(sent.outcome.unwrap().message_id.as_deref(), Some("8812345"));
}

#[test]
fn http_200_with_an_error_body_is_an_error() {
    let message = Message::new("9995551212", "hi");
    let err = send(&client(), &message, vec![answer(200, "ERROR: Invalid API Key")])
        .outcome
        .unwrap_err();
    assert!(matches!(err, Error::Rejected { .. }), "got {err:?}");
    assert!(err.is_fatal());
    assert!(!err.is_retryable());
}

#[test]
fn rejections_are_not_retried() {
    let message = Message::new("9995551212", "hi");
    let sent = send(&retrying_client(3), &message, vec![answer(200, "Insufficient Credits")]);
    assert!(sent.outcome.is_err());
    // exactly one attempt, despite retries being enabled
    assert_eq!(sent.requests.len(), 1);
    assert_eq!(sent.events, vec!["mds1:attempt", "mds1:failed"]);
}

#[test]
fn server_errors_are_retried_then_surfaced() {
    let message = Message::new("9995551212", "hi");
    let replies = vec![
        answer(503, "upstream down"),
        answer(503, "upstream down"),
        answer(503, "upstream down"),
    ];
    let sent = send(&retrying_client(2), &message, replies);
    assert_eq!(sent.requests.len(), 3); // 1 initial + 2 retries
    assert_eq!(sent.delays, vec![Duration::from_millis(1), Duration::from_millis(2)]);
    match sent.outcome.unwrap_err() {
        Error::RetriesExhausted { attempts, .. } => assert_eq!(attempts, 3),
        other => panic!("expected RetriesExhausted, got {other:?}"),
    }
}

fn send_many(
    client: &MdsClient,
    messages: &[Message],
    concurrency: usize,
) -> (Vec<BatchItem>, usize) {
    let mut batch: Batch<BatchItem> = Batch::new(messages.len(), concurrency);
    let mut in_flight: Vec<usize> = Vec::new();
    let mut most: usize = 0;
    loop {
        while let Some(i) = batch.start() {
            in_flight.push(i);
        }
        most = most.max(in_flight.len());
        // The send started last completes first.
        let Some(i) = in_flight.pop() else { break };
        let message = &messages[i];
        let outcome = send(client, message, vec![answer(200, "8812345")]).outcome;
        batch.finish(i, batch_item(message, outcome));
    }
    (batch.into_results(), most)
}

#[test]
fn batches_preserve_input_order_and_isolate_failures() {
    let messages = vec![
        Message::new("9995551212", "a").reference("first"),
        Message::new("bad-number", "b").reference("second"),
        Message::new("9995551214", "c").reference("third"),
    ];
    let (results, _) = send_many(&client(), &messages, 16);
    assert_eq!(results.len(), 3);
    assert_eq!(results[0].0, "9995551212");
    assert_eq!(results[1].0, "bad-number");
    assert_eq!(results[2].0, "9995551214");

    assert!(results[0].1.is_ok());
    // The invalid recipient fails locally without sinking its neighbours.
    assert!(matches!(results[1].1, Err(Error::InvalidNumber { .. })));
    assert!(results[2].1.is_ok());
    assert_eq!(results[0].1.as_ref().unwrap().reference.as_deref(), Some("first"));
}

#[test]
fn concurrency_limit_is_respected_and_all_messages_are_sent() {
    let messages: Vec<Message> =
        (0..12).map(|i| Message::new(&format!("99955512{i:02}"), "hi")).collect();
    let (results, most) = send_many(&client(), &messages, 4);
    assert_eq!(results.len(), 12);
    assert!(results.iter().all(|(_, r)| r.is_ok()));
    assert_eq!(most, 4);
    for (i, (to, _)) in results.iter().enumerate() {
        assert_eq!(*to, format!("99955512{i:02}"));
    }
}

#[test]
fn per_message_overrides_win_over_account_defaults() {
    let msg = Message::new("9995551212", "hi")
        .sender_id("OTHER")
        .route(Route::Promotional)
        .template_id("9999");
    let sent = send(&client(), &msg, vec![answer(200, "8812345")]);
    assert_eq!(param(&sent.requests[0], "senderid"), "OTHER");
    assert_eq!(param(&sent.requests[0], "route"), "PROMO");
    assert_eq!(param(&sent.requests[0], "TID"), "9999");
    assert!(sent.outcome.is_ok());
}

#[test]
fn empty_batch_is_a_no_op() {
    let (results, most) = send_many(&client(), &[], 4);
    assert!(results.is_empty());
    assert_eq!(most, 0);
}

#[test]
fn a_batch_runs_at_least_one_send() {
    let messages = vec![Message::new("9995551212", "a"), Message::new("9995551213", "b")];
    let (results, most) = send_many(&client(), &messages, 0);
    assert_eq!((results.len(), most), (2, 1));
    let (_, most) = send_many(&client(), &messages, 99);
    assert_eq!(most, 2);
}

#[test]
fn observers_see_the_send_lifecycle() {
    let message = Message::new("9995551212", "hi");
    let sent = send(&retrying_client(0), &message, vec![answer(200, "msg-id : ABC12345")]);
    sent.outcome.unwrap();
    assert_eq!(sent.events, vec!["mds1:attempt", "mds1:accepted"]);
}

#[test]
fn observers_see_retries_and_the_final_failure() {
    let message = Message::new("9995551212", "hi");
    let replies = vec![
        answer(503, "gateway exploded"),
        answer(503, "gateway exploded"),
        answer(503, "gateway exploded"),
    ];
    let sent = send(&retrying_client(2), &message, replies);
    assert!(sent.outcome.is_err());
    let count = |name: &str| sent.events.iter().filter(|e| e.ends_with(name)).count();
    assert_eq!(count("retrying"), 2);
    // Exactly one terminal failure, not one per attempt.
    assert_eq!(count("failed"), 1);
}

#[test]
fn slow_sends_are_reported() {
    let slow_client = MdsClient::builder()
        .config(config_at("http://127.0.0.1:8080/api.php"))
        .name("mds1")
        .slow_after(Duration::from_millis(50))
        .build()
        .ok()
        .unwrap();
    let message = Message::new("9995551212", "hi");
    let took = |ms: u64| {
        let replies = vec![answer(200, "msg-id : ABC12345")];
        let sent = send_timed(&slow_client, &message, replies, Duration::from_millis(ms));
        assert_eq!(sent.outcome.unwrap().elapsed, Duration::from_millis(ms));
        sent.events
    };
    assert_eq!(took(120), vec!["mds1:attempt", "mds1:slow", "mds1:accepted"]);
    assert_eq!(took(50), vec!["mds1:attempt", "mds1:accepted"]);
}

/// The API key travels in the query string, so any error that carries a URL
/// leaks it into logs. Every error path must be clean.
#[test]
fn a_transport_error_names_the_host_and_not_the_key() {
    const SECRET: &str = "super-secret-api-key";
    let config = Config {
        api_key: SECRET.into(),
        ..config_at("http://127.0.0.1:9/api.php")
    };
    let dead = MdsClient::builder()
        .name("dead")
        .config(config)
        .retry(RetryPolicy::none())
        .build()
        .ok()
        .unwrap();
    let fault = TransportFault {
        timeout: false,
        connect: true,
        request: false,
        detail: "error sending request".into(),
    };
    let message = Message::new("9995551212", "hi");
    let sent = send(&dead, &message, vec![Reply::Broken(fault)]);
    assert!(sent.requests[0].contains(SECRET));
    let err = sent.outcome.unwrap_err();
    let rendered = format!("{} {err:?}", err.to_string());
    assert!(!rendered.contains(SECRET), "leaked key: {rendered}");
    // The host is still identifiable for debugging.
    assert!(rendered.contains("127.0.0.1:9"), "{rendered}");
    assert_eq!(
        err.to_string(),
        "transport error contacting 127.0.0.1:9 after 7ms: error sending request"
    );
}

#[test]
fn the_outcome_does_not_depend_on_the_key() {
    let with = |key: &str| {
        let config = Config {
            api_key: key.into(),
            ..config_at("http://127.0.0.1:8080/api.php")
        };
        let client = MdsClient::from_config(config).ok().unwrap();
        let replies = vec![answer(500, "x"), answer(200, "error")];
        let sent = send(&client, &Message::new("9995551212", "hi"), replies);
        (sent.outcome.unwrap_err().to_string(), sent.delays, sent.events)
    };
    assert_eq!(with("one"), with("another"));
}

#[test]
fn the_request_is_written_exactly() {
    let config = Config {
        template_id: None,
        entity_id: None,
        ..config_at("http://h.example/api.php")
    };
    let client = MdsClient::from_config(config).ok().unwrap();
    let message = Message::new("9995551212", "a b&c=d#e%f+g~*-._\u{20b9}");
    assert_eq!(
        client.build_url(&message, "919995551212"),
        "http://h.example/api.php?username=123456&apikey=test-key&senderid=SENDER&route=TRANS\
         &text=a+b%26c%3Dd%23e%25f%2Bg%7E*-._%E2%82%B9&mobile=919995551212"
    );
}

#[test]
fn a_query_and_a_fragment_of_the_endpoint_stay() {
    let request = |base: &str| {
        let config = Config { template_id: None, entity_id: None, ..config_at(base) };
        let client = MdsClient::from_config(config).ok().unwrap();
        client.build_url(&Message::new("1", "x"), "2")
    };
    let own = "username=123456&apikey=test-key&senderid=SENDER&route=TRANS&text=x&mobile=2";
    assert_eq!(request("http://h/p?a=1#f"), format!("http://h/p?a=1&{own}#f"));
    assert_eq!(request("http://h/p?#"), format!("http://h/p?{own}#"));
    assert_eq!(request("HTTP://H"), format!("http://h/?{own}"));
    assert_eq!(
        params(&request("http://h/p?a=%26+b#f"))[0],
        ("a".to_string(), "& b".to_string())
    );
}

#[test]
fn the_gateway_reads_what_was_sent() {
    let client = client();
    for body in ["&&==##??%%", "+ +", "%26", "\u{1f600}\n\t\"'<>", "a=b&c=d", " "] {
        let request = client.build_url(&Message::new("9", body), "919995551212");
        let names: Vec<String> = params(&request).into_iter().map(|p| p.0).collect();
        assert_eq!(
            names,
            vec!["username", "apikey", "senderid", "route", "text", "mobile", "TID", "PEID"]
        );
        assert_eq!(param(&request, "text"), body);
    }
}

#[test]
fn bodies_are_checked_before_numbers() {
    let refused = |to: &str, body: &str| {
        send(&client(), &Message::new(to, body), vec![]).outcome.unwrap_err()
    };
    assert!(matches!(refused("x", " "), Error::InvalidMessage("body is empty")));
    assert!(matches!(refused("x", "hi"), Error::InvalidNumber { .. }));
}

#[test]
fn http_errors_keep_the_start_of_the_body() {
    let message = Message::new("9995551212", "hi");
    let sent = send(&retrying_client(3), &message, vec![answer(404, &"x".repeat(600))]);
    match sent.outcome.unwrap_err() {
        Error::HttpStatus { status, body } => {
            assert_eq!(status, 404);
            assert_eq!(body, format!("{}\u{2026}", "x".repeat(512)));
        }
        other => panic!("{other:?}"),
    }
    // Nothing outside 2xx is an answer.
    for status in [199, 300, 304, 400] {
        let sent = send(&client(), &message, vec![answer(status, "8812345")]);
        assert!(matches!(sent.outcome, Err(Error::HttpStatus { .. })));
    }
    let sent = send(&client(), &message, vec![answer(299, "8812345")]);
    assert_eq!(sent.outcome.unwrap().status, 299);
}

#[test]
fn a_retry_can_succeed() {
    let fault = TransportFault {
        timeout: true,
        connect: false,
        request: false,
        detail: "timed out".into(),
    };
    let message = Message::new("9995551212", "hi").reference("tag");
    let replies = vec![Reply::Broken(fault), answer(429, "later"), answer(200, "8812345")];
    let sent = send(&retrying_client(5), &message, replies);
    let response = sent.outcome.unwrap();
    assert_eq!(response.attempts, 3);
    assert_eq!(response.provider, "mds1");
    assert_eq!(response.raw, "8812345");
    assert_eq!(response.reference.as_deref(), Some("tag"));
    assert_eq!(
        sent.events,
        vec![
            "mds1:attempt",
            "mds1:retrying",
            "mds1:attempt",
            "mds1:retrying",
            "mds1:attempt",
            "mds1:accepted",
        ]
    );
}

#[test]
fn a_lasting_failure_ends_the_retries() {
    let message = Message::new("9995551212", "hi");
    let sent = send(&retrying_client(5), &message, vec![answer(500, "x"), answer(401, "y")]);
    let err = sent.outcome.unwrap_err();
    // Retries were left, so it is the refusal itself that comes back.
    assert!(matches!(err, Error::HttpStatus { status: 401, .. }), "{err:?}");
    assert!(err.is_fatal());
    assert_eq!(sent.requests.len(), 2);
    // A rejection is reported as such, whatever went before.
    let sent = send(&retrying_client(5), &message, vec![answer(500, "x"), answer(200, "error")]);
    assert!(matches!(sent.outcome, Err(Error::Rejected { .. })));
}

#[test]
fn problems_are_told_from_progress() {
    let error = Error::MissingConfig("x");
    let retrying = Event::Retrying {
        provider: "p",
        to: "t",
        attempt: 1,
        delay: Duration::ZERO,
        error: &error,
    };
    assert!(retrying.is_problem());
    assert!(Event::Failed { provider: "p", to: "t", error: &error }.is_problem());
    assert!(Event::Slow { provider: "p", to: "t", elapsed: Duration::ZERO }.is_problem());
    let hop = Event::FailingOver { from: "a", to_provider: "b", to: "t", error: &error };
    assert!(hop.is_problem());
    assert_eq!(hop.provider(), "a");
    assert!(!Event::Attempt { provider: "p", to: "t", attempt: 1 }.is_problem());
}

#[test]
fn an_answer_settles_the_send() {
    let client = client();
    let mut submission = client.prepare(&Message::new("9995551212", "hi")).ok().unwrap();
    submission.begin();
    let total = Duration::from_secs(6);
    let accepted = Parsed::Accepted { message_id: Some("7".into()) };
    match submission.settle(202, "body".into(), accepted, total) {
        Step::Accepted { response, slow } => {
            assert!(slow);
            assert_eq!(response.message_id.as_deref(), Some("7"));
            assert_eq!((response.status, response.raw.as_str()), (202, "body"));
            assert_eq!((response.elapsed, response.attempts), (total, 1));
        }
        other => panic!("{other:?}"),
    }
    let rejected = Parsed::Rejected { reason: "why".into() };
    match submission.settle(200, "body".into(), rejected, total) {
        Step::Failed { error: Error::Rejected { reason, raw } } => {
            assert_eq!((reason.as_str(), raw.as_str()), ("why", "body"));
        }
        other => panic!("{other:?}"),
    }
}

#[test]
fn urls_are_taken_apart() {
    let parts = |host: Option<&str>, port: Option<u16>| UrlParts {
        stem: "http://h/p".into(),
        query: "?a=1".into(),
        fragment: "#f".into(),
        host: host.map(str::to_string),
        port,
    };
    assert_eq!(parts(None, None).as_text(), "http://h/p?a=1#f");
    assert_eq!(parts(Some("h"), Some(8080)).label("n"), "h:8080");
    assert_eq!(parts(Some("h"), None).label("n"), "h");
    assert_eq!(parts(None, Some(1)).label("n"), "n");
    assert_eq!(parts(None, None).host_or("mds"), "mds");
    assert_eq!(parts(Some("h"), None).host_or("mds"), "h");
    let read = Endpoint::parse("HTTP://H:80/a/../p?x#y").ok().unwrap();
    assert_eq!(read.parts().stem, "http://h/p");
    assert_eq!(read.parts().query, "?x");
    assert_eq!(read.parts().fragment, "#y");
    assert_eq!(read.parts().host.as_deref(), Some("h"));
    assert_eq!(read.parts().port, None);
    assert_eq!(Endpoint::parse("x").err().as_deref(), Some("relative URL without a base"));
    let bare = Endpoint::parse("http://h/p").ok().unwrap();
    assert_eq!((bare.parts().query.as_str(), bare.parts().fragment.as_str()), ("", ""));
    let marks = Endpoint::parse("http://h/p?#").ok().unwrap();
    assert_eq!((marks.parts().query.as_str(), marks.parts().fragment.as_str()), ("?", "#"));
}

#[test]
fn pairs_go_between_the_query_and_the_fragment() {
    let request = |text: &str| {
        let endpoint = Endpoint::parse(text).ok().unwrap();
        let pairs = vec![("a", "1 & 2"), ("b", "#")];
        assert!(endpoint.has_room(&pairs));
        endpoint.request(&pairs)
    };
    assert_eq!(request("http://h/p"), "http://h/p?a=1+%26+2&b=%23");
    assert_eq!(request("http://h/p?"), "http://h/p?a=1+%26+2&b=%23");
    assert_eq!(request("http://h/p?x=y"), "http://h/p?x=y&a=1+%26+2&b=%23");
    assert_eq!(request("http://h/p?x=y#f"), "http://h/p?x=y&a=1+%26+2&b=%23#f");
    assert_eq!(request("http://h/p#f"), "http://h/p?a=1+%26+2&b=%23#f");
    let plain = Endpoint::parse("http://h/p#f").ok().unwrap();
    assert!(plain.has_room(&vec![]));
    assert_eq!(plain.request(&vec![]), "http://h/p?#f");
}

#[test]
fn a_broken_answer_is_tried_again() {
    // Neither a timeout nor a refused connection: the answer broke off.
    let fault = || {
        Reply::Broken(TransportFault {
            timeout: false,
            connect: false,
            request: false,
            detail: "connection closed before message completed".into(),
        })
    };
    let message = Message::new("9995551212", "hi");
    let sent = send(&retrying_client(1), &message, vec![fault(), answer(200, "8812345")]);
    assert_eq!(sent.outcome.unwrap().attempts, 2);
    let sent = send(&retrying_client(1), &message, vec![fault(), fault()]);
    match sent.outcome.unwrap_err() {
        Error::RetriesExhausted { attempts, source } => {
            assert_eq!(attempts, 2);
            assert!(matches!(*source, Error::Transport { .. }));
        }
        other => panic!("{other:?}"),
    }
}

#[test]
fn a_send_reports_its_whole_life() {
    let message = Message::new("9995551212", "hi");
    for failures in 0..4 {
        let mut replies: Vec<Reply> = (0..failures).map(|_| answer(503, "down")).collect();
        replies.push(answer(200, "8812345"));
        let sent = send(&retrying_client(3), &message, replies);
        assert_eq!(sent.requests.len(), failures + 1);
        assert_eq!(sent.events.len(), 2 * (failures + 1));
        for i in 0..failures {
            assert_eq!(sent.events[2 * i], "mds1:attempt");
            assert_eq!(sent.events[2 * i + 1], "mds1:retrying");
        }
        assert_eq!(sent.events[2 * failures], "mds1:attempt");
        assert_eq!(sent.events[2 * failures + 1], "mds1:accepted");
    }
    let replies = (0..4).map(|_| answer(503, "down")).collect();
    let sent = send(&retrying_client(3), &message, replies);
    assert_eq!(sent.requests.len(), 4);
    assert_eq!(sent.events.last().unwrap(), "mds1:failed");
    assert_eq!(sent.events.iter().filter(|e| *e == "mds1:failed").count(), 1);
}

#[test]
fn outcomes_come_in_input_order() {
    let mut batch: Batch<&str> = Batch::new(3, 2);
    assert_eq!((batch.start(), batch.start(), batch.start()), (Some(0), Some(1), None));
    batch.finish(1, "b");
    assert_eq!((batch.start(), batch.start()), (Some(2), None));
    batch.finish(2, "c");
    batch.finish(0, "a");
    assert_eq!(batch.start(), None);
    assert_eq!(batch.into_results(), vec!["a", "b", "c"]);
    // Asking for none in flight means one.
    let mut one: Batch<u8> = Batch::new(2, 0);
    assert_eq!((one.start(), one.start()), (Some(0), None));
}

#[test]
fn an_oversized_body_is_refused_before_its_request_is_built() {
    let message = Message::new("9995551212", &"x".repeat(100_000));
    assert!(client().has_room_for(&message));
    assert!(matches!(client().prepare(&message), Err(Error::InvalidMessage(_))));
    // So is one for a number that cannot be normalized.
    let message = Message::new("12", "hi");
    assert!(client().has_room_for(&message));
    assert!(matches!(client().prepare(&message), Err(Error::InvalidNumber { .. })));
}
