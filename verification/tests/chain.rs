//! Sends along a chain of providers, each of which answers from a script.

use mdsmedia::{
    batch_item, Batch, BatchItem, Config, Error, Event, FailoverClient, Hop, MdsClient, Message,
    Reply, Response, Result, RetryPolicy, Step, TransportFault,
};
use std::time::Duration;

fn client(name: &str) -> MdsClient {
    MdsClient::builder()
        .name(name)
        .config(Config {
            base_url: "http://127.0.0.1:8080/api.php".into(),
            username: "123456".into(),
            api_key: "k".into(),
            sender_id: "SENDER".into(),
            default_country_code: Some("91".into()),
            ..Default::default()
        })
        .retry(RetryPolicy::none())
        .build()
        .ok()
        .unwrap()
}

fn pair() -> FailoverClient {
    FailoverClient::new(vec![client("mds1"), client("mds")]).ok().unwrap()
}

fn ask(client: &MdsClient, message: &Message, reply: Reply) -> Result<Response> {
    assert!(client.has_room_for(message));
    let mut submission = client.prepare(message)?;
    submission.begin();
    match submission.conclude(reply, Duration::ZERO, Duration::ZERO) {
        Step::Accepted { response, .. } => Ok(response),
        Step::Failed { error } => Err(error),
        Step::Retry { .. } => panic!("no retries are configured"),
    }
}

/// The outcome, the hops between providers, and who was asked.
fn send_replies(
    chain: &FailoverClient,
    message: &Message,
    script: Vec<Reply>,
) -> (Result<Response>, Vec<String>, Vec<String>) {
    let mut hops: Vec<String> = Vec::new();
    let mut asked: Vec<String> = Vec::new();
    let mut relay = chain.relay();
    for reply in script {
        if let Some(Event::FailingOver { from, to_provider, .. }) = relay.hop_event(message) {
            hops.push(format!("{from}->{to_provider}"));
        }
        let provider = relay.provider();
        asked.push(provider.name().to_string());
        match relay.conclude(ask(provider, message, reply)) {
            Hop::Done(outcome) => return (outcome, hops, asked),
            Hop::Next(next) => relay = next,
        }
    }
    panic!("the script is too short");
}

fn send(
    chain: &FailoverClient,
    message: &Message,
    script: &[(u16, &str)],
) -> (Result<Response>, Vec<String>, Vec<String>) {
    let replies = script
        .iter()
        .map(|(status, body)| Reply::Answered { status: *status, body: body.to_string() })
        .collect();
    send_replies(chain, message, replies)
}

/// A connection that could not be made.
fn dead_end() -> Reply {
    Reply::Broken(TransportFault {
        timeout: false,
        connect: true,
        request: false,
        detail: "error sending request".into(),
    })
}

fn hello() -> Message {
    Message::new("9995551212", "hello")
}

const DOWN: (u16, &str) = (503, "gateway exploded");

#[test]
fn falls_back_to_the_secondary_when_the_primary_is_down() {
    let up = (200, "Message Submitted successfully<pre>msg-id : ABC12345");
    let resp = send(&pair(), &hello(), &[DOWN, up]).0.unwrap();
    assert_eq!(resp.provider, "mds");
    assert_eq!(resp.message_id.as_deref(), Some("ABC12345"));
}

#[test]
fn the_primary_is_preferred_when_healthy() {
    let script = [(200, "msg-id : PRIMARY1"), (200, "msg-id : BACKUP01")];
    let (outcome, _, asked) = send(&pair(), &hello(), &script);
    let resp = outcome.unwrap();
    assert_eq!(resp.provider, "mds1");
    assert_eq!(resp.message_id.as_deref(), Some("PRIMARY1"));
    assert_eq!(asked, vec!["mds1"]);
}

#[test]
fn bad_credentials_on_the_primary_still_fail_over() {
    let script = [(200, "ERROR: Invalid API Key"), (200, "msg-id : ABC12345")];
    let resp = send(&pair(), &hello(), &script).0.unwrap();
    assert_eq!(resp.provider, "mds");
}

#[test]
fn a_bad_recipient_does_not_burn_the_fallback() {
    let ok = (200, "msg-id : ABC12345");
    let (outcome, _, asked) = send(&pair(), &Message::new("12345", "hello"), &[ok, ok]);
    let err = outcome.unwrap_err();
    assert!(matches!(err, Error::InvalidNumber { .. }), "got {err:?}");
    // The backup must never be contacted: the number is malformed everywhere.
    assert_eq!(asked, vec!["mds1"]);
}

#[test]
fn every_provider_failing_reports_all_causes() {
    let script = [DOWN, (200, "ERROR: Invalid API Key")];
    let err = send(&pair(), &hello(), &script).0.unwrap_err();
    let Error::AllProvidersFailed(failures) = &err else {
        panic!("expected AllProvidersFailed, got {err:?}");
    };
    assert_eq!(failures.len(), 2);
    assert_eq!(failures[0].provider, "mds1");
    assert_eq!(failures[1].provider, "mds");
    assert_eq!(failures[0].to_string(), "mds1: gateway returned HTTP 503: gateway exploded");
    // The message names both, so the cause is not flattened to the last one.
    let text = err.to_string();
    assert!(text.contains("mds1"), "{text}");
    assert!(text.contains("Invalid API Key"), "{text}");
    // One transient failure means the batch is worth re-queuing later.
    assert!(err.is_retryable());
}

#[test]
fn an_empty_chain_is_rejected_at_construction() {
    assert!(matches!(
        FailoverClient::new(vec![]).err().unwrap(),
        Error::MissingConfig("providers")
    ));
}

#[test]
fn batches_fail_over_per_message() {
    let chain = pair();
    let messages: Vec<Message> =
        (0..6).map(|i| Message::new(&format!("99955512{i:02}"), "hi")).collect();
    let mut batch: Batch<BatchItem> = Batch::new(messages.len(), 3);
    let mut in_flight: Vec<usize> = Vec::new();
    loop {
        while let Some(i) = batch.start() {
            in_flight.push(i);
        }
        assert!(in_flight.len() <= 3);
        // The send started last completes first.
        let Some(i) = in_flight.pop() else { break };
        let script = [DOWN, (200, "msg-id : ABC12345")];
        let outcome = send(&chain, &messages[i], &script).0;
        batch.finish(i, batch_item(&messages[i], outcome));
    }
    let results = batch.into_results();
    assert_eq!(results.len(), 6);
    assert!(results.iter().all(|(_, r)| r.is_ok()));
    assert!(results.iter().all(|(_, r)| r.as_ref().unwrap().provider == "mds"));
    for (i, (to, _)) in results.iter().enumerate() {
        assert_eq!(*to, format!("99955512{i:02}"));
    }
}

#[test]
fn failover_notifies_before_switching() {
    let (outcome, hops, asked) =
        send(&pair(), &hello(), &[DOWN, (200, "msg-id : ABC12345")]);
    outcome.unwrap();
    assert_eq!(hops, vec!["mds1->mds"]);
    assert_eq!(asked, vec!["mds1", "mds"]);
}

#[test]
fn a_single_provider_that_fails_is_named() {
    let chain = FailoverClient::new(vec![client("only")]).ok().unwrap();
    match send(&chain, &hello(), &[DOWN]).0.unwrap_err() {
        Error::AllProvidersFailed(failures) => assert_eq!(failures[0].provider, "only"),
        other => panic!("{other:?}"),
    }
}

#[test]
fn a_failure_that_all_would_share_ends_the_chain() {
    // The second provider expects another country code, and refuses the number.
    let strict = MdsClient::builder()
        .name("strict")
        .config(Config {
            username: "u".into(),
            api_key: "k".into(),
            sender_id: "S".into(),
            default_country_code: Some("12345678".into()),
            ..Default::default()
        })
        .build()
        .ok()
        .unwrap();
    let chain = FailoverClient::new(vec![client("a"), strict, client("c")]).ok().unwrap();
    let (outcome, _, asked) = send(&chain, &hello(), &[DOWN, DOWN, DOWN]);
    match outcome.unwrap_err() {
        Error::AllProvidersFailed(failures) => {
            assert_eq!(failures.len(), 2);
            assert!(matches!(failures[1].error, Error::InvalidNumber { .. }));
        }
        other => panic!("{other:?}"),
    }
    assert_eq!(asked, vec!["a", "strict"]);
}

#[test]
fn chains_know_their_providers() {
    let chain = pair();
    assert_eq!(chain.provider_names(), vec!["mds1", "mds"]);
    assert_eq!(chain.primary().name(), "mds1");
    assert_eq!(chain.size(), 2);
    assert_eq!(chain.clone().provider_names(), chain.provider_names());
    assert_eq!(
        chain.debug_string(true),
        "FailoverClient { providers: [\"mds1\", \"mds\"], has_observer: true }"
    );
    assert!(chain.relay().hop_event(&hello()).is_none());
}

#[test]
fn errors_never_leak_the_api_key() {
    const SECRET: &str = "super-secret-api-key";
    let dead = |name: &str| {
        MdsClient::builder()
            .name(name)
            .config(Config {
                base_url: "http://127.0.0.1:9/api.php".into(),
                username: "123456".into(),
                api_key: SECRET.into(),
                sender_id: "SENDER".into(),
                ..Default::default()
            })
            .retry(RetryPolicy::none())
            .build()
            .ok()
            .unwrap()
    };
    let message = Message::new("9995551212", "hi");

    // 1. Dead endpoint -> transport error.
    let err = ask(&dead("dead"), &message, dead_end()).unwrap_err();
    let rendered = format!("{} {err:?}", err.to_string());
    assert!(!rendered.contains(SECRET), "leaked key: {rendered}");
    // The host is still identifiable for debugging.
    assert!(rendered.contains("127.0.0.1:9"), "{rendered}");

    // 2. Aggregate failover error must not leak it either.
    let chain = FailoverClient::new(vec![dead("dead"), dead("also-dead")]).ok().unwrap();
    let script = vec![dead_end(), dead_end()];
    let err = send_replies(&chain, &message, script).0.unwrap_err();
    assert!(matches!(&err, Error::AllProvidersFailed(failures) if failures.len() == 2));
    let rendered = format!("{} {err:?}", err.to_string());
    assert!(!rendered.contains(SECRET), "leaked key: {rendered}");
}
