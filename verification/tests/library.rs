use mdsmedia::client::HttpSettings;
use mdsmedia::{
    Config, Error, MdsClient, Message, ProviderFailure, RetryPolicy, Route, Settings, Template,
    TransportFault, DEFAULT_BASE_URL, MAX_BODY_LEN, VAR,
};
use std::time::Duration;

fn cfg() -> Config {
    Config {
        username: "123456".into(),
        api_key: "k".into(),
        sender_id: "SENDER".into(),
        default_country_code: Some("91".into()),
        ..Config::default()
    }
}

fn no_settings() -> Settings {
    Settings {
        base_url: None,
        username: None,
        api_key: None,
        sender_id: None,
        route: None,
        template_id: None,
        entity_id: None,
        country_code: None,
    }
}

#[test]
fn template_renders_positionally() {
    let t = Template::new("{#var#} is your OTP, valid {#var#} min.");
    assert_eq!(t.placeholders(), 2);
    assert_eq!(t.render(&["1234", "5"]), "1234 is your OTP, valid 5 min.");
    assert_eq!(t.render_one("1234"), "1234 is your OTP, valid {#var#} min.");
}

#[test]
fn numbers_are_normalized() {
    let c = cfg();
    assert_eq!(c.normalize_number("9995551212").unwrap(), "919995551212");
    assert_eq!(c.normalize_number("+91 99955-51212").unwrap(), "919995551212");
    assert_eq!(c.normalize_number("00919995551212").unwrap(), "919995551212");
    assert_eq!(c.normalize_number("919995551212").unwrap(), "919995551212");
}

#[test]
fn bad_numbers_are_rejected_before_any_request() {
    let c = cfg();
    assert!(c.normalize_number("").is_err());
    assert!(c.normalize_number("12345").is_err());
    assert!(c.normalize_number("99955-ABCD").is_err());
}

#[test]
fn no_country_code_leaves_number_alone() {
    let c = Config { default_country_code: None, ..cfg() };
    assert_eq!(c.normalize_number("9995551212").unwrap(), "9995551212");
}

#[test]
fn missing_credentials_fail_at_build_time() {
    let err = MdsClient::builder().username("u").build().err().unwrap();
    assert!(matches!(err, Error::MissingConfig("api_key")));
    assert!(err.is_fatal());
}

#[test]
fn bad_base_url_is_rejected() {
    let err = MdsClient::builder()
        .base_url("not a url")
        .username("u")
        .api_key("k")
        .sender_id("S")
        .build()
        .err()
        .unwrap();
    assert!(matches!(err, Error::InvalidBaseUrl { .. }));
}

#[test]
fn empty_body_is_rejected() {
    assert!(Message::new("9995551212", "   ").validate().is_err());
    assert!(Message::new("9995551212", &"x".repeat(MAX_BODY_LEN + 1)).validate().is_err());
}

#[test]
fn backoff_grows_and_stays_bounded() {
    let p = RetryPolicy {
        max_retries: 5,
        initial_backoff: Duration::from_millis(100),
        max_backoff: Duration::from_millis(800),
        multiplier_pct: 200,
        jitter_pct: 0,
    };
    assert_eq!(p.backoff_for(0, 1), Duration::ZERO);
    assert_eq!(p.backoff_for(1, 1), Duration::from_millis(100));
    assert_eq!(p.backoff_for(2, 1), Duration::from_millis(200));
    assert_eq!(p.backoff_for(3, 1), Duration::from_millis(400));
    assert_eq!(p.backoff_for(4, 1), Duration::from_millis(800));
    assert_eq!(p.backoff_for(9, 1), Duration::from_millis(800));
}

#[test]
fn jitter_stays_within_the_configured_band() {
    let p = RetryPolicy {
        jitter_pct: 25,
        initial_backoff: Duration::from_millis(1000),
        max_backoff: Duration::from_secs(60),
        ..RetryPolicy::default()
    };
    for seed in 0..500u64 {
        let d = p.backoff_for(1, seed).as_millis() as i64;
        assert!((750..=1250).contains(&d), "jitter out of band: {d}ms");
    }
}

#[test]
fn retryability_matches_intent() {
    assert!(Error::HttpStatus { status: 503, body: String::new() }.is_retryable());
    assert!(Error::HttpStatus { status: 429, body: String::new() }.is_retryable());
    assert!(!Error::HttpStatus { status: 401, body: String::new() }.is_retryable());
    assert!(!Error::Rejected { reason: "bad key".into(), raw: String::new() }.is_retryable());
}

#[test]
fn debug_output_never_leaks_the_api_key() {
    let client = MdsClient::from_config(Config { api_key: "super-secret-key".into(), ..cfg() })
        .ok()
        .unwrap();
    assert!(!client.debug_string().contains("super-secret-key"));
}

#[test]
fn base_url_is_optional_and_defaults() {
    // A client built without base_url still resolves to the canonical host.
    let client =
        MdsClient::builder().username("u").api_key("k").sender_id("S").build().ok().unwrap();
    assert_eq!(client.config().effective_base_url(), DEFAULT_BASE_URL);
    assert_eq!(Config::default().base_url, DEFAULT_BASE_URL);
    assert!(DEFAULT_BASE_URL.starts_with("https://"));
}

#[test]
fn blank_base_url_falls_back_to_the_default() {
    let config = Config { base_url: "   ".into(), ..cfg() };
    assert_eq!(config.effective_base_url(), DEFAULT_BASE_URL);
    assert!(MdsClient::from_config(config).is_ok());
}

#[test]
fn an_explicit_base_url_still_wins() {
    let client = MdsClient::builder()
        .username("u")
        .api_key("k")
        .sender_id("S")
        .base_url("http://XXX.XXX.XXX.XXX/api.php")
        .build()
        .ok()
        .unwrap();
    assert_eq!(client.config().effective_base_url(), "http://XXX.XXX.XXX.XXX/api.php");
}

#[test]
fn routes_round_trip() {
    assert_eq!(Route::from("trans").as_str(), "TRANS");
    assert_eq!(Route::from("Promotional").as_str(), "PROMO");
    assert_eq!(Route::from("OTP").as_str(), "OTP");
}

// Templates

#[test]
fn extra_values_and_extra_placeholders_are_tolerated() {
    let t = Template::from("a {#var#} b");
    assert_eq!(t.render(&["1", "2", "3"]), "a 1 b");
    assert_eq!(t.render(&[]), "a {#var#} b");
    assert_eq!(Template::from(String::from("none")).render(&["x"]), "none");
    assert_eq!(t.as_str(), "a {#var#} b");
    assert_eq!(VAR, "{#var#}");
}

#[test]
fn a_value_is_never_taken_for_a_placeholder() {
    let t = Template::new("{#var#} and {#var#}");
    assert_eq!(t.render(&["{#var#}", "x"]), "{#var#} and x");
    // Nor is what a value makes of the text around it.
    let t = Template::new("{#{#var#}#}");
    assert_eq!(t.placeholders(), 1);
    assert_eq!(t.render(&["var", "y"]), "{#var#}");
}

#[test]
fn each_value_fills_the_placeholder_of_its_place() {
    let t = Template::new("{#var#}{#var#} {#var#}.");
    assert_eq!(t.placeholders(), 3);
    assert_eq!(t.render(&["a"]), "a{#var#} {#var#}.");
    assert_eq!(t.render(&["a", "b"]), "ab {#var#}.");
    assert_eq!(t.render(&["a", "b", "c"]), "ab c.");
    assert_eq!(t.render(&["a", "b", "c", "d"]), "ab c.");
}

#[test]
fn messages_from_templates() {
    let t = Template::new("{#var#} is your OTP.");
    let m = Message::from_template("9995551212", &t, &["482913"]);
    assert_eq!(m.body(), "482913 is your OTP.");
    assert_eq!(m.recipient(), "9995551212");
    assert_eq!(m.clone(), m);
}

#[test]
fn the_longest_body_is_counted_in_bytes() {
    assert!(Message::new("1", &"x".repeat(MAX_BODY_LEN)).validate().is_ok());
    let err = Message::new("1", &"x".repeat(MAX_BODY_LEN + 1)).validate().unwrap_err();
    assert_eq!(err.to_string(), "invalid message: body exceeds the maximum of 1530 bytes");
    // 511 rupee signs take three bytes each.
    assert!(Message::new("1", &"\u{20b9}".repeat(510)).validate().is_ok());
    assert!(Message::new("1", &"\u{20b9}".repeat(511)).validate().is_err());
    let err = Message::new("1", " \n\t").validate().unwrap_err();
    assert_eq!(err.to_string(), "invalid message: body is empty");
}

// Numbers

#[test]
fn every_reason_for_refusing_a_number() {
    let c = cfg();
    let reason = |raw: &str| match c.normalize(raw) {
        Err(Error::InvalidNumber { number, reason }) => {
            assert_eq!(number, raw);
            reason
        }
        other => panic!("{other:?}"),
    };
    assert_eq!(reason(" \t "), "empty");
    assert_eq!(reason("99955x1212"), "contains non-numeric characters");
    assert_eq!(reason("12345"), "must be 10-15 digits after normalization");
    assert_eq!(reason("+1234567890123456"), "must be 10-15 digits after normalization");
}

#[test]
fn prefixes_and_separators() {
    let c = cfg();
    assert_eq!(c.normalize("(999) 555.12-12").unwrap(), "919995551212");
    assert_eq!(c.normalize("999\u{a0}555\u{a0}1212").unwrap(), "919995551212");
    assert_eq!(c.normalize("+44 20 7946 0000").unwrap(), "442079460000");
    // Pairs of zeros go, a single one stays.
    assert_eq!(c.normalize("0000919995551212").unwrap(), "919995551212");
    assert_eq!(c.normalize("000919995551212").unwrap(), "0919995551212");
    assert_eq!(c.normalize("+00919995551212").unwrap(), "919995551212");
    assert_eq!(c.normalize("09995551212").unwrap(), "9109995551212");
    // Only the digits of the country code count.
    let plus = Config { default_country_code: Some("+91".into()), ..cfg() };
    assert_eq!(plus.normalize("9995551212").unwrap(), "919995551212");
    let empty = Config { default_country_code: Some(" - ".into()), ..cfg() };
    assert_eq!(empty.normalize("9995551212").unwrap(), "9995551212");
}

#[test]
fn a_normalized_number_stays() {
    let c = cfg();
    let once = c.normalize("+91 99955-51212").unwrap();
    assert_eq!(c.normalize(&once).unwrap(), once);
    assert!(once.chars().all(|d| d.is_ascii_digit()));
}

// Accounts

#[test]
fn the_environment_describes_an_account() {
    let env = Settings {
        username: Some("u".into()),
        api_key: Some(" k ".into()),
        sender_id: Some("S".into()),
        route: Some("promo".into()),
        template_id: Some("  ".into()),
        entity_id: Some("77".into()),
        ..no_settings()
    };
    let c = Config::from_env(&env).unwrap();
    assert_eq!(c.base_url, DEFAULT_BASE_URL);
    assert_eq!(c.api_key, " k ");
    assert_eq!(c.route, Route::Promotional);
    assert_eq!(c.template_id, None);
    assert_eq!(c.entity_id.as_deref(), Some("77"));
    assert!(MdsClient::from_env(&env).is_ok());
}

#[test]
fn the_environment_must_name_the_credentials() {
    let missing = |env: &Settings| match Config::from_env(env) {
        Err(Error::MissingConfig(key)) => key,
        other => panic!("{other:?}"),
    };
    let mut env = no_settings();
    assert_eq!(missing(&env), "MDS_USERNAME");
    env.username = Some("u".into());
    assert_eq!(missing(&env), "MDS_API_KEY");
    env.api_key = Some(" ".into());
    assert_eq!(missing(&env), "MDS_API_KEY");
    env.api_key = Some("k".into());
    assert_eq!(missing(&env), "MDS_SENDER_ID");
    assert!(matches!(MdsClient::from_env(&env).err(), Some(Error::MissingConfig("MDS_SENDER_ID"))));
}

#[test]
fn validation_names_the_first_missing_field() {
    let field = |c: &Config| match c.validate() {
        Err(Error::MissingConfig(f)) => Some(f),
        _ => None,
    };
    let mut c = Config::default();
    assert_eq!(field(&c), Some("username"));
    c.username = "u".into();
    assert_eq!(field(&c), Some("api_key"));
    c.api_key = "k".into();
    assert_eq!(field(&c), Some("sender_id"));
    c.sender_id = "S".into();
    assert_eq!(field(&c), None);
    c.route = Route::Custom("  ".into());
    assert_eq!(field(&c), Some("route"));
}

#[test]
fn routes_have_texts() {
    assert_eq!(Route::default(), Route::Transactional);
    assert_eq!(Route::from("TRANSACTIONAL"), Route::Transactional);
    assert_eq!(Route::from("otp").to_string(), "OTP");
    assert_eq!(Route::Custom("x".into()).as_str(), "x");
}

#[test]
fn builders_set_one_thing_each() {
    let client = MdsClient::builder()
        .config(cfg())
        .username("other")
        .entity_id("E")
        .template_id("T")
        .default_country_code("44")
        .route(Route::from("promo"))
        .timeout(Duration::from_secs(1))
        .connect_timeout(Duration::from_secs(2))
        .pool_idle_timeout(Duration::from_secs(3))
        .pool_max_idle_per_host(4)
        .user_agent("agent")
        .slow_after(Duration::from_secs(6))
        .retry(RetryPolicy::none())
        .concurrency(0)
        .build()
        .ok()
        .unwrap();
    assert_eq!(client.config().username, "other");
    assert_eq!(client.config().api_key, "k");
    assert_eq!(client.config().entity_id.as_deref(), Some("E"));
    assert_eq!(client.config().template_id.as_deref(), Some("T"));
    assert_eq!(client.config().route, Route::Promotional);
    assert_eq!(client.normalize("9995551212").unwrap(), "449995551212");
    assert_eq!(client.concurrency(), 1);
    assert_eq!(client.retry(), RetryPolicy { max_retries: 0, ..RetryPolicy::default() });
    assert_eq!(client.slow_after(), Duration::from_secs(6));
    let HttpSettings { timeout, connect_timeout, pool_idle_timeout, .. } = client.http();
    assert_eq!(*timeout, Duration::from_secs(1));
    assert_eq!(*connect_timeout, Duration::from_secs(2));
    assert_eq!(*pool_idle_timeout, Duration::from_secs(3));
    assert_eq!(client.http().pool_max_idle_per_host, 4);
    assert_eq!(client.http().user_agent, "agent");
}

#[test]
fn clients_have_defaults() {
    let client = MdsClient::from_config(cfg()).ok().unwrap();
    assert_eq!(client.name(), "mdssend.in");
    assert_eq!(client.endpoint_label(), "mdssend.in");
    assert_eq!(client.concurrency(), 16);
    assert_eq!(client.retry(), RetryPolicy::default());
    assert_eq!(client.http().timeout, Duration::from_secs(20));
    assert_eq!(client.http().connect_timeout, Duration::from_secs(10));
    assert_eq!(client.http().pool_idle_timeout, Duration::from_secs(90));
    assert_eq!(client.http().pool_max_idle_per_host, 16);
    assert_eq!(client.http().user_agent, "mdsmedia-rs/0.1.0");
    assert_eq!(client.slow_after(), Duration::from_secs(5));
    assert_eq!(client.clone().name(), client.name());
}

#[test]
fn endpoints_are_labelled_by_host_and_port() {
    let at = |url: &str| {
        MdsClient::from_config(Config { base_url: url.into(), ..cfg() }).ok().unwrap()
    };
    assert_eq!(at("http://127.0.0.1:9/api.php").endpoint_label(), "127.0.0.1:9");
    assert_eq!(at("http://127.0.0.1:80/api.php").endpoint_label(), "127.0.0.1");
    assert_eq!(at("mailto:someone").name(), "mds");
    assert_eq!(at("mailto:someone").endpoint_label(), "mds");
}

#[test]
fn log_lines() {
    let client = MdsClient::builder()
        .config(Config { route: Route::Custom("A\"B".into()), ..cfg() })
        .name("mds1")
        .build()
        .ok()
        .unwrap();
    assert_eq!(
        client.debug_string(),
        "MdsClient { name: \"mds1\", endpoint: \"https://mdssend.in/api.php\", \
         username: \"123456\", sender_id: \"SENDER\", route: Custom(\"A\\\"B\"), \
         concurrency: 16, .. }"
    );
    assert_eq!(
        MdsClient::builder().debug_string(true),
        "MdsClientBuilder { name: None, timeout: 20s, concurrency: 16, has_observer: true, .. }"
    );
    assert_eq!(
        MdsClient::builder().name("x").timeout(Duration::from_millis(1500)).debug_string(false),
        "MdsClientBuilder { name: Some(\"x\"), timeout: 1.5s, concurrency: 16, \
         has_observer: false, .. }"
    );
}

#[test]
fn a_log_line_does_not_depend_on_the_key() {
    let with = |key: &str| {
        MdsClient::from_config(Config { api_key: key.into(), ..cfg() })
            .ok()
            .unwrap()
            .debug_string()
    };
    assert_eq!(with("one"), with("another"));
}

// Retries

#[test]
fn delays_have_exact_values() {
    let p = RetryPolicy::default();
    let seed = mdsmedia::send::seed_from("919995551212");
    assert_eq!(seed, 0x2cad_fc9c_f382_3e8d);
    let delays: Vec<u128> = (0..8).map(|a| p.backoff_for(a, seed).as_millis()).collect();
    assert_eq!(delays, vec![0, 163, 421, 611, 1639, 2648, 5000, 4079]);
    let q = RetryPolicy {
        initial_backoff: Duration::from_millis(1000),
        max_backoff: Duration::from_secs(60),
        ..p
    };
    assert_eq!(q.backoff_for(1, 0), Duration::from_millis(832));
    assert_eq!(q.backoff_for(1, 499), Duration::from_millis(965));
}

#[test]
fn no_delay_exceeds_the_maximum() {
    let p = RetryPolicy { jitter_pct: 100, ..RetryPolicy::default() };
    for seed in 0..500u64 {
        for attempt in 1..12 {
            assert!(p.backoff_for(attempt, seed) <= p.max_backoff);
        }
    }
    let never = RetryPolicy { max_backoff: Duration::ZERO, ..p };
    assert_eq!(never.backoff_for(3, 7), Duration::ZERO);
}

#[test]
fn extreme_policies_do_not_overflow() {
    let p = RetryPolicy {
        max_retries: u32::MAX,
        initial_backoff: Duration::MAX,
        max_backoff: Duration::MAX,
        multiplier_pct: u32::MAX,
        jitter_pct: u32::MAX,
    };
    for seed in 0..50u64 {
        assert!(p.backoff_for(50, seed) <= p.max_backoff);
    }
    // A factor below one hundred percent counts as one hundred.
    let flat = RetryPolicy { multiplier_pct: 10, jitter_pct: 0, ..RetryPolicy::default() };
    assert_eq!(flat.backoff_for(9, 1), Duration::from_millis(200));
    let least = RetryPolicy { initial_backoff: Duration::ZERO, ..flat };
    assert_eq!(least.backoff_for(1, 1), Duration::from_millis(1));
    assert_eq!(RetryPolicy::none().max_retries, 0);
}

// Errors

#[test]
fn every_error_has_its_message() {
    let fault = TransportFault {
        timeout: true,
        connect: false,
        request: false,
        detail: "error sending request".into(),
    };
    let transport = Error::Transport {
        endpoint: "203.0.113.10".into(),
        elapsed: Duration::from_millis(583),
        source: fault,
    };
    assert_eq!(
        transport.to_string(),
        "transport error contacting 203.0.113.10 after 583ms: error sending request"
    );
    assert_eq!(Error::MissingConfig("x").to_string(), "missing configuration field: x");
    assert_eq!(
        Error::InvalidNumber { number: "1\"2".into(), reason: "empty" }.to_string(),
        "invalid phone number \"1\\\"2\": empty"
    );
    assert_eq!(
        Error::HttpClientBuild("no TLS".into()).to_string(),
        "failed to build HTTP client: no TLS"
    );
    assert_eq!(
        Error::HttpStatus { status: 503, body: "down".into() }.to_string(),
        "gateway returned HTTP 503: down"
    );
    assert_eq!(
        Error::Rejected { reason: "bad".into(), raw: "ERROR: bad".into() }.to_string(),
        "gateway rejected the message: bad (raw: ERROR: bad)"
    );
    assert_eq!(
        Error::Runtime("no threads".into()).to_string(),
        "failed to start the blocking runtime: no threads"
    );
    let exhausted = Error::RetriesExhausted { attempts: 3, source: Box::new(transport) };
    assert_eq!(
        exhausted.to_string(),
        "giving up after 3 attempt(s): transport error contacting 203.0.113.10 after 583ms: \
         error sending request"
    );
    let all = Error::AllProvidersFailed(vec![
        ProviderFailure { provider: "a".into(), error: Error::MissingConfig("x") },
        ProviderFailure { provider: "b".into(), error: Error::InvalidMessage("y") },
    ]);
    assert_eq!(
        all.to_string(),
        "all 2 provider(s) failed: a: missing configuration field: x; b: invalid message: y"
    );
    let bad_url = MdsClient::from_config(Config { base_url: "not a url".into(), ..cfg() })
        .err()
        .unwrap();
    assert_eq!(
        bad_url.to_string(),
        "invalid base_url \"not a url\": relative URL without a base"
    );
}

#[test]
fn errors_are_retryable_or_fatal_or_neither() {
    let http = |status: u16| Error::HttpStatus { status, body: String::new() };
    let failed = |error: Error| ProviderFailure { provider: "p".into(), error };
    let fault = |timeout: bool, connect: bool, request: bool| Error::Transport {
        endpoint: "h".into(),
        elapsed: Duration::ZERO,
        source: TransportFault { timeout, connect, request, detail: String::new() },
    };
    assert!(fault(true, false, false).is_retryable());
    assert!(fault(false, true, false).is_retryable());
    assert!(fault(false, false, true).is_retryable());
    assert!(fault(false, false, false).is_retryable());
    assert!(!fault(true, true, true).is_fatal());
    assert!(http(500).is_retryable() && http(599).is_retryable() && !http(499).is_retryable());
    assert!(http(401).is_fatal() && http(403).is_fatal() && !http(404).is_fatal());
    assert!(Error::HttpClientBuild(String::new()).is_fatal());
    assert!(!Error::Runtime(String::new()).is_fatal());
    assert!(!Error::InvalidMessage("x").is_fatal());
    let exhausted = |e: Error| Error::RetriesExhausted { attempts: 2, source: Box::new(e) };
    assert!(exhausted(http(503)).is_retryable());
    assert!(!exhausted(http(401)).is_retryable());
    assert!(!exhausted(http(401)).is_fatal());
    let all = |list: Vec<ProviderFailure>| Error::AllProvidersFailed(list);
    assert!(!all(vec![]).is_fatal() && !all(vec![]).is_retryable());
    assert!(all(vec![failed(http(401)), failed(Error::MissingConfig("x"))]).is_fatal());
    assert!(!all(vec![failed(http(401)), failed(http(503))]).is_fatal());
    assert!(all(vec![failed(http(401)), failed(http(503))]).is_retryable());
}
