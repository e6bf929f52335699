//! What the command-line tool reads and prints.

use mdsmedia::cli::{
    fallback_config, job_messages, keep_new_assignments, make_client, messages_to, parse_env_file,
    parse_number_file, pick, plan_providers, resolve_config, stdin_body, wants_stdin, Job,
};
use mdsmedia::output::{
    banner, check_lines, dry_run_lines, mask, normalize_lines, opt_q, q, report_lines, sent_line,
    trace_line,
};
use mdsmedia::{
    BatchItem, Config, Error, Event, MdsClient, Message, Response, Route, Settings,
    DEFAULT_BASE_URL,
};
use std::time::Duration;

fn settings(username: &str, api_key: &str, sender_id: &str) -> Settings {
    let some = |s: &str| if s.is_empty() { None } else { Some(s.to_string()) };
    Settings {
        base_url: None,
        username: some(username),
        api_key: some(api_key),
        sender_id: some(sender_id),
        route: None,
        template_id: None,
        entity_id: None,
        country_code: None,
    }
}

fn config() -> Config {
    Config {
        username: "123456".into(),
        api_key: "secret-key".into(),
        sender_id: "SENDER".into(),
        default_country_code: Some("91".into()),
        ..Config::default()
    }
}

#[test]
fn flags_win_over_the_environment() {
    let some = |s: &str| Some(s.to_string());
    assert_eq!(pick(&some(" a "), &some("b")).as_deref(), Some("a"));
    assert_eq!(pick(&None, &some(" b")).as_deref(), Some("b"));
    assert_eq!(pick(&None, &None), None);
    // A blank flag is still the flag.
    assert_eq!(pick(&some("  "), &some("b")), None);

    let mut flags = settings("", "", "FLAG");
    flags.route = some("promo");
    let env = settings("u", " k ", "ENV");
    let c = resolve_config(&flags, &env).unwrap();
    assert_eq!(c.username, "u");
    assert_eq!(c.api_key, "k");
    assert_eq!(c.sender_id, "FLAG");
    assert_eq!(c.route, Route::Promotional);
    assert_eq!(c.base_url, DEFAULT_BASE_URL);
}

#[test]
fn a_missing_credential_is_named() {
    let missing = |flags: &Settings| match resolve_config(flags, &settings("", "", "")) {
        Err(Error::MissingConfig(field)) => field,
        other => panic!("{other:?}"),
    };
    assert_eq!(missing(&settings("", "k", "S")), "username");
    assert_eq!(missing(&settings("u", "", "S")), "api_key");
    assert_eq!(missing(&settings("u", "k", "")), "sender_id");
}

#[test]
fn the_fallback_shares_the_credentials() {
    let base = Config { template_id: Some("T".into()), ..config() };
    let some = |s: &str| Some(s.to_string());
    let f = fallback_config(&base, "http://b/", &None, &None);
    assert_eq!(f.base_url, "http://b/");
    assert_eq!(f.template_id.as_deref(), Some("T"));
    assert_eq!(f.api_key, "secret-key");
    assert_eq!(fallback_config(&base, "x", &None, &some("E")).template_id.as_deref(), Some("E"));
    assert_eq!(
        fallback_config(&base, "x", &some("F"), &some("E")).template_id.as_deref(),
        Some("F")
    );
}

#[test]
fn providers_are_planned_in_order() {
    let alone = plan_providers(&config(), &None, &None, &None);
    assert_eq!(alone.len(), 1);
    assert_eq!(alone[0].0, "mds");
    let url = Some("http://b/".to_string());
    let two = plan_providers(&config(), &url, &Some("F".to_string()), &None);
    assert_eq!((two[0].0, two[1].0), ("primary", "fallback"));
    assert_eq!(two[0].1.base_url, DEFAULT_BASE_URL);
    assert_eq!(two[1].1.base_url, "http://b/");
    assert_eq!(two[1].1.template_id.as_deref(), Some("F"));
}

#[test]
fn clients_are_made_with_timeout_and_retries() {
    let client = make_client("n", config(), Duration::from_secs(7), 9).ok().unwrap();
    assert_eq!(client.name(), "n");
    assert_eq!(client.http().timeout, Duration::from_secs(7));
    assert_eq!(client.http().connect_timeout, Duration::from_secs(10));
    assert_eq!(client.retry().max_retries, 9);
    assert_eq!(client.retry().initial_backoff, Duration::from_millis(200));
    let bad = Config { base_url: "not a url".into(), ..config() };
    assert!(matches!(
        make_client("n", bad, Duration::ZERO, 0).err(),
        Some(Error::InvalidBaseUrl { .. })
    ));
}

#[test]
fn the_environment_wins_over_a_file() {
    let pairs = parse_env_file("A=1\nB=2\nA=3\nC=4\nC=5");
    let kept = keep_new_assignments(&pairs, &vec![true, false, true, false, false]);
    let got: Vec<(&str, &str)> = kept.iter().map(|p| (p.0.as_str(), p.1.as_str())).collect();
    assert_eq!(got, vec![("B", "2"), ("C", "4")]);
}

#[test]
fn jobs_make_messages() {
    let to = vec!["1".to_string(), " 2 ".to_string()];
    let send = Job::Send { to: to.clone(), body: "hi".into() };
    assert_eq!(
        job_messages(&send),
        Some(vec![Message::new("1", "hi"), Message::new("2", "hi")])
    );
    let otp = Job::Otp { to, code: "77".into(), template: "{#var#} is it".into() };
    assert_eq!(job_messages(&otp).unwrap()[1], Message::new("2", "77 is it"));
    let bulk = |content: &str| {
        job_messages(&Job::Bulk { content: content.into(), body: "b".into() })
    };
    assert_eq!(bulk("3 # Ann\n\n4"), Some(vec![Message::new("3", "b"), Message::new("4", "b")]));
    assert_eq!(bulk("# nobody\n"), None);
}

#[test]
fn environment_files() {
    let content = "# comment\n\nMDS_USERNAME=123456\r\n export MDS_API_KEY = \"a=b\" \n\
                   junk\nMDS_SENDER_ID='SENDER'\nEMPTY=\nexport\tX=1\n";
    let pairs = parse_env_file(content);
    let expected = [
        ("MDS_USERNAME", "123456"),
        ("MDS_API_KEY", "a=b"),
        ("MDS_SENDER_ID", "SENDER"),
        ("EMPTY", ""),
        ("export\tX", "1"),
    ];
    let got: Vec<(&str, &str)> = pairs.iter().map(|p| (p.0.as_str(), p.1.as_str())).collect();
    assert_eq!(got, expected);
}

#[test]
fn number_files() {
    let content = "9995551212 # Ann\n\n# none\n +91 99955 51213 \n#";
    assert_eq!(parse_number_file(content), vec!["9995551212", "+91 99955 51213"]);
    assert!(parse_number_file("").is_empty());
}

#[test]
fn bodies_from_standard_input() {
    assert!(wants_stdin("-"));
    assert!(!wants_stdin("--") && !wants_stdin("") && !wants_stdin("hi"));
    assert_eq!(stdin_body("Pay & save\n\n").as_deref(), Some("Pay & save"));
    assert_eq!(stdin_body("a\nb\r\n").as_deref(), Some("a\nb\r"));
    assert_eq!(stdin_body("\n\n"), None);
}

#[test]
fn one_message_per_number() {
    let numbers = vec![" 1 ".to_string(), "2".to_string()];
    let messages = messages_to(&numbers, "hi");
    assert_eq!(messages, vec![Message::new("1", "hi"), Message::new("2", "hi")]);
}

#[test]
fn secrets_are_masked() {
    assert_eq!(mask(""), "");
    assert_eq!(mask("abcd"), "****");
    assert_eq!(mask("abcde"), "*bcde");
    assert_eq!(mask("secret-key"), "******-key");
    assert_eq!(mask("\u{20b9}\u{20b9}1234"), "**1234");
    // Nothing but the tail and the length shows.
    assert_eq!(mask("111122"), mask("991122"));
}

#[test]
fn strings_are_quoted_for_json() {
    assert_eq!(q("plain"), "\"plain\"");
    assert_eq!(q("a\"b\\c\n\r\t"), "\"a\\\"b\\\\c\\n\\r\\t\"");
    assert_eq!(q("\u{1}\u{1f}"), "\"\\u0001\\u001f\"");
    assert_eq!(q("\u{20b9}\u{7f}"), "\"\u{20b9}\u{7f}\"");
    assert_eq!(opt_q(&None), "null");
    assert_eq!(opt_q(&Some("x".into())), "\"x\"");
}

#[test]
fn quoted_strings_read_back() {
    let all: String = (0u32..0x180).filter_map(char::from_u32).collect();
    let read: String = serde_json::from_str(&q(&all)).unwrap();
    assert_eq!(read, all);
}

#[test]
fn the_check_report() {
    assert_eq!(
        check_lines(&config(), false),
        vec![
            "configuration OK",
            "  base_url     https://mdssend.in/api.php  (default)",
            "  username     123456",
            "  api_key      ******-key",
            "  sender_id    SENDER",
            "  route        TRANS",
            "  template_id  -",
            "  entity_id    -",
            "  country_code 91",
        ]
    );
    let other = Config {
        base_url: " http://h/ ".into(),
        template_id: Some("T".into()),
        default_country_code: None,
        ..config()
    };
    assert_eq!(
        check_lines(&other, true),
        vec![
            "{\"ok\":true,\"base_url\":\"http://h/\",\"base_url_is_default\":false,\
             \"username\":\"123456\",\"sender_id\":\"SENDER\",\"route\":\"TRANS\",\
             \"template_id\":\"T\",\"entity_id\":null,\"country_code\":null,\
             \"api_key\":\"******-key\"}"
        ]
    );
}

#[test]
fn the_normalize_report() {
    let client = MdsClient::from_config(config()).ok().unwrap();
    let numbers = vec!["9995551212".to_string(), "12".to_string()];
    let (lines, bad) = normalize_lines(&client, &numbers, false);
    assert_eq!(bad, 1);
    assert_eq!(
        lines,
        vec![
            "9995551212\t-> 919995551212",
            "12\t-> ERROR: invalid phone number \"12\": must be 10-15 digits after normalization",
        ]
    );
    let (lines, _) = normalize_lines(&client, &numbers, true);
    assert_eq!(lines[0], "{\"input\":\"9995551212\",\"normalized\":\"919995551212\"}");
    assert_eq!(
        lines[1],
        "{\"input\":\"12\",\"error\":\"invalid phone number \\\"12\\\": \
         must be 10-15 digits after normalization\"}"
    );
}

#[test]
fn the_dry_run_report() {
    let messages = vec![Message::new("9995551212", "a\u{20b9}"), Message::new("x", "b")];
    assert_eq!(
        dry_run_lines(&config(), &messages, &Some("http://b/".to_string()), false),
        vec![
            "endpoint: https://mdssend.in/api.php",
            "DRY RUN  9995551212 -> 919995551212",
            "  body (4 bytes): a\u{20b9}",
            "DRY RUN  x -> INVALID (invalid phone number \"x\": contains non-numeric characters)",
            "  body (1 bytes): b",
            "fallback: http://b/",
        ]
    );
    assert_eq!(
        dry_run_lines(&config(), &messages[..1].to_vec(), &Some("http://b/".to_string()), true),
        vec![
            "{\"dry_run\":true,\"to\":\"9995551212\",\"normalized\":\"919995551212\",\
             \"body\":\"a\u{20b9}\",\"len\":4}"
        ]
    );
}

fn results() -> Vec<BatchItem> {
    let response = Response {
        provider: "mds".into(),
        message_id: None,
        to: "919995551212".into(),
        status: 200,
        raw: " ok\n".into(),
        elapsed: Duration::from_micros(89_900),
        attempts: 1,
        reference: None,
    };
    vec![
        ("9995551212".into(), Ok(response)),
        ("12".into(), Err(Error::HttpStatus { status: 503, body: "d\"own".into() })),
    ]
}

#[test]
fn the_result_report() {
    let (lines, failed) = report_lines(&results(), false);
    assert_eq!(failed, 1);
    assert_eq!(
        lines,
        vec![
            "OK    919995551212  via=mds  id=-  89ms  attempt(s)=1  raw=ok",
            "FAIL  12  gateway returned HTTP 503: d\"own",
        ]
    );
    let (lines, _) = report_lines(&results(), true);
    assert_eq!(
        lines[0],
        "{\"ok\":true,\"to\":\"919995551212\",\"provider\":\"mds\",\"message_id\":null,\
         \"status\":200,\"attempts\":1,\"elapsed_ms\":89,\"raw\":\" ok\\n\"}"
    );
    assert_eq!(
        lines[1],
        "{\"ok\":false,\"to\":\"12\",\"error\":\"gateway returned HTTP 503: d\\\"own\",\
         \"retryable\":true,\"fatal\":false}"
    );
    assert_eq!(report_lines(&Vec::new(), false).1, 0);
    assert_eq!(sent_line(3, 1, false).as_deref(), Some("2/3 sent"));
    assert_eq!(sent_line(3, 1, true), None);
    assert_eq!(sent_line(0, 0, false), None);
}

#[test]
fn the_banner() {
    assert_eq!(
        banner(2, 8, &vec![], false, false).as_deref(),
        Some("sending 2 message(s) at concurrency 8...")
    );
    assert_eq!(
        banner(1, 8, &vec!["primary", "fallback"], false, false).as_deref(),
        Some("sending 1 message(s) at concurrency 8 via primary -> fallback...")
    );
    assert_eq!(banner(1, 8, &vec![], true, false), None);
    assert_eq!(banner(1, 8, &vec![], false, true), None);
}

#[test]
fn the_trace() {
    let error = Error::MissingConfig("x");
    let line = |event: Event<'_>| trace_line(&event).unwrap();
    assert_eq!(
        line(Event::Attempt { provider: "p", to: "1", attempt: 2 }),
        "  [p] attempt 2 -> 1"
    );
    assert_eq!(
        line(Event::Retrying {
            provider: "p",
            to: "1",
            attempt: 1,
            delay: Duration::from_millis(191),
            error: &error,
        }),
        "  [p] attempt 1 failed (missing configuration field: x); retrying in 191ms"
    );
    assert_eq!(
        line(Event::Slow { provider: "p", to: "1", elapsed: Duration::from_secs(6) }),
        "  [p] SLOW 1 took 6s"
    );
    assert_eq!(
        line(Event::Failed { provider: "p", to: "1", error: &error }),
        "  [p] gave up on 1: missing configuration field: x"
    );
    assert_eq!(
        line(Event::FailingOver { from: "a", to_provider: "b", to: "1", error: &error }),
        "  [a] -> [b]: missing configuration field: x"
    );
    let ok = results().remove(0).1.unwrap();
    assert_eq!(trace_line(&Event::Accepted { provider: "p", response: &ok }), None);
}

#[test]
fn a_quoted_text_ends_at_its_own_quote() {
    for text in ["\"", "\\", "\\\"", "a\"b\\", "\u{1}\"\n", "\\u\"\"\"\"", "plain"] {
        let written: Vec<char> = format!("{}, \"more\"", q(text)).chars().collect();
        assert_eq!(written[0], '"');
        let mut end = 1;
        while written[end] != '"' {
            end += if written[end] == '\\' { 2 } else { 1 };
        }
        assert_eq!(end + 1, q(text).chars().count(), "{text:?}");
        let read: String = serde_json::from_str(&q(text)).unwrap();
        assert_eq!(read, text);
    }
}
