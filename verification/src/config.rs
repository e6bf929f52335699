//! Gateway credentials and connection settings.

use crate::bytes::trim_str;
use crate::duration::{duration_millis, duration_nanos, whole_millis};
use crate::error::{Error, Result};
use crate::search::{is_at, starts_with};
use crate::text::{
    ascii_digit, blank, chars_of, copy_opt, digits, holds, is_ascii_digit, is_blank, kept,
    keep_digits, lemma_blank_iff_trimmed_empty, lemma_kept_whole, opt_text, push_chars, raise,
    raised, same, string_of, trim, trimmed,
};
use std::time::Duration;
use vstd::prelude::*;
use vstd::slice::slice_subrange;
use vstd::std_specs::convert::FromSpecImpl;

verus! {

/// The gateway endpoint used when none is configured.
///
/// This is MDS Media's canonical hostname. Accounts provisioned on a dedicated
/// IP (some are, e.g. `http://XXX.XXX.XXX.XXX/api.php`) must set `base_url`
/// explicitly: those endpoints are plain HTTP and account-specific, so they
/// are never a safe default.
pub const DEFAULT_BASE_URL: &'static str = "https://mdssend.in/api.php";

// ---------------------------------------------------------------------------
// Routes
// ---------------------------------------------------------------------------

/// DLT route the message is submitted on.
///
/// `Transactional` is the route used for OTP / service messages in India;
/// `Promotional` is DND-filtered and must not be used for OTPs.
#[derive(Debug, PartialEq, Eq)]
pub enum Route {
    Transactional,
    Promotional,
    /// Any other route string the gateway account is provisioned for.
    Custom(String),
}

/// The model of a [`Route`].
pub enum RouteView {
    Transactional,
    Promotional,
    Custom(Seq<char>),
}

impl View for Route {
    type V = RouteView;

    open spec fn view(&self) -> RouteView {
        match self {
            Route::Transactional => RouteView::Transactional,
            Route::Promotional => RouteView::Promotional,
            Route::Custom(s) => RouteView::Custom(s@),
        }
    }
}

impl RouteView {
    /// The literal value sent as the `route` query parameter.
    pub open spec fn text(self) -> Seq<char> {
        match self {
            RouteView::Transactional => "TRANS"@,
            RouteView::Promotional => "PROMO"@,
            RouteView::Custom(s) => s,
        }
    }
}

/// The route that `s` names, whatever the case of its letters. A name that is
/// not known is a route of its own, in capitals.
pub open spec fn route_named(s: Seq<char>) -> RouteView {
    let name = raised(s);
    if name == "TRANS"@ || name == "TRANSACTIONAL"@ {
        RouteView::Transactional
    } else if name == "PROMO"@ || name == "PROMOTIONAL"@ {
        RouteView::Promotional
    } else {
        RouteView::Custom(name)
    }
}

impl Clone for Route {
    fn clone(&self) -> (r: Self)
        ensures
            r == *self,
    {
        match self {
            Route::Transactional => Route::Transactional,
            Route::Promotional => Route::Promotional,
            Route::Custom(s) => Route::Custom(s.clone()),
        }
    }
}

impl Default for Route {
    fn default() -> (r: Self)
        ensures
            r == Route::Transactional,
    {
        Route::Transactional
    }
}

impl Route {
    /// The literal value sent as the `route` query parameter.
    pub fn as_str(&self) -> (r: &str)
        ensures
            r@ == self@.text(),
    {
        match self {
            Route::Transactional => "TRANS",
            Route::Promotional => "PROMO",
            Route::Custom(s) => s.as_str(),
        }
    }

    /// The same value, as a string of its own.
    pub fn to_string(&self) -> (r: String)
        ensures
            r@ == self@.text(),
    {
        self.as_str().to_string()
    }
}

impl FromSpecImpl<&str> for Route {
    open spec fn obeys_from_spec() -> bool {
        false
    }

    open spec fn from_spec(s: &str) -> Route {
        arbitrary()
    }
}

impl From<&str> for Route {
    fn from(s: &str) -> (r: Self)
        ensures
            r@ == route_named(s@),
    {
        let name = raise(&chars_of(s));
        if same(&name, &chars_of("TRANS")) || same(&name, &chars_of("TRANSACTIONAL")) {
            Route::Transactional
        } else if same(&name, &chars_of("PROMO")) || same(&name, &chars_of("PROMOTIONAL")) {
            Route::Promotional
        } else {
            Route::Custom(string_of(&name))
        }
    }
}

// ---------------------------------------------------------------------------
// Accounts
// ---------------------------------------------------------------------------

/// Everything needed to talk to one MDS Media account.
///
/// Construct via [`crate::MdsClient::builder`].
#[derive(Debug)]
pub struct Config {
    /// Gateway endpoint. Defaults to [`DEFAULT_BASE_URL`]; override only for a
    /// dedicated-IP or staging endpoint.
    pub base_url: String,
    /// Account username (numeric account id on most MDS deployments).
    pub username: String,
    /// Account API key.
    pub api_key: String,
    /// Approved 6-character sender/header, e.g. `SENDER`.
    pub sender_id: String,
    /// DLT route.
    pub route: Route,
    /// DLT template id (`TID`). Required by most Indian operators.
    pub template_id: Option<String>,
    /// DLT principal entity id (`PEID`).
    pub entity_id: Option<String>,
    /// Country code prepended to bare local numbers, e.g. your country
    /// dialling code as a digit string.
    /// `None` sends the number exactly as given (after cleaning separators). A
    /// leading `+` or `00` is honoured either way: see [`Config::normalize`].
    pub default_country_code: Option<String>,
}

/// The model of a [`Config`].
pub struct ConfigView {
    pub base_url: Seq<char>,
    pub username: Seq<char>,
    pub api_key: Seq<char>,
    pub sender_id: Seq<char>,
    pub route: RouteView,
    pub template_id: Option<Seq<char>>,
    pub entity_id: Option<Seq<char>>,
    pub default_country_code: Option<Seq<char>>,
}

impl View for Config {
    type V = ConfigView;

    open spec fn view(&self) -> ConfigView {
        ConfigView {
            base_url: self.base_url@,
            username: self.username@,
            api_key: self.api_key@,
            sender_id: self.sender_id@,
            route: self.route@,
            template_id: opt_text(self.template_id),
            entity_id: opt_text(self.entity_id),
            default_country_code: opt_text(self.default_country_code),
        }
    }
}

/// An account with nothing set but the endpoint.
pub open spec fn empty_config() -> ConfigView {
    ConfigView {
        base_url: DEFAULT_BASE_URL@,
        username: Seq::empty(),
        api_key: Seq::empty(),
        sender_id: Seq::empty(),
        route: RouteView::Transactional,
        template_id: None,
        entity_id: None,
        default_country_code: None,
    }
}

impl Clone for Config {
    fn clone(&self) -> (r: Self)
        ensures
            r == *self,
    {
        Config {
            base_url: self.base_url.clone(),
            username: self.username.clone(),
            api_key: self.api_key.clone(),
            sender_id: self.sender_id.clone(),
            route: self.route.clone(),
            template_id: copy_opt(&self.template_id),
            entity_id: copy_opt(&self.entity_id),
            default_country_code: copy_opt(&self.default_country_code),
        }
    }
}

impl Default for Config {
    fn default() -> (r: Self)
        ensures
            r@ == empty_config(),
    {
        Config {
            base_url: DEFAULT_BASE_URL.to_string(),
            username: String::new(),
            api_key: String::new(),
            sender_id: String::new(),
            route: Route::Transactional,
            template_id: None,
            entity_id: None,
            default_country_code: None,
        }
    }
}

/// The settings of an account as they were given, by environment variables or
/// by flags; any may be missing.
#[derive(Debug)]
pub struct Settings {
    /// `MDS_BASE_URL`
    pub base_url: Option<String>,
    /// `MDS_USERNAME`
    pub username: Option<String>,
    /// `MDS_API_KEY`
    pub api_key: Option<String>,
    /// `MDS_SENDER_ID`
    pub sender_id: Option<String>,
    /// `MDS_ROUTE`
    pub route: Option<String>,
    /// `MDS_TEMPLATE_ID`
    pub template_id: Option<String>,
    /// `MDS_ENTITY_ID`
    pub entity_id: Option<String>,
    /// `MDS_COUNTRY_CODE`
    pub country_code: Option<String>,
}

/// The value where it holds more than white space.
pub open spec fn filled(value: Option<String>) -> Option<Seq<char>> {
    match value {
        Some(v) if !blank(v@) => Some(v@),
        _ => None,
    }
}

/// The account that the environment describes, or the variable that has to be
/// set for it.
pub open spec fn environment_config(env: Settings) -> std::result::Result<
    ConfigView,
    Seq<char>,
> {
    if filled(env.username) is None {
        Err("MDS_USERNAME"@)
    } else if filled(env.api_key) is None {
        Err("MDS_API_KEY"@)
    } else if filled(env.sender_id) is None {
        Err("MDS_SENDER_ID"@)
    } else {
        Ok(
            ConfigView {
                base_url: match filled(env.base_url) {
                    Some(url) => url,
                    None => DEFAULT_BASE_URL@,
                },
                username: filled(env.username)->Some_0,
                api_key: filled(env.api_key)->Some_0,
                sender_id: filled(env.sender_id)->Some_0,
                route: match filled(env.route) {
                    Some(route) => route_named(route),
                    None => RouteView::Transactional,
                },
                template_id: filled(env.template_id),
                entity_id: filled(env.entity_id),
                default_country_code: filled(env.country_code),
            },
        )
    }
}

/// The value where it holds more than white space.
fn take_filled(value: &Option<String>) -> (r: Option<String>)
    ensures
        opt_text(r) == filled(*value),
{
    match value {
        Some(v) => if is_blank(&chars_of(v)) {
            None
        } else {
            Some(v.clone())
        },
        None => None,
    }
}

/// The first setting without which no message can be sent.
pub open spec fn missing_field(config: ConfigView) -> Option<Seq<char>> {
    if blank(config.username) {
        Some("username"@)
    } else if blank(config.api_key) {
        Some("api_key"@)
    } else if blank(config.sender_id) {
        Some("sender_id"@)
    } else if blank(config.route.text()) {
        Some("route"@)
    } else {
        None
    }
}

impl ConfigView {
    /// The endpoint that is called: the configured one, trimmed, or the default
    /// where that is blank.
    pub open spec fn effective_base_url(self) -> Seq<char> {
        if blank(self.base_url) {
            DEFAULT_BASE_URL@
        } else {
            trimmed(self.base_url)
        }
    }
}

impl Config {
    /// Reads every field from environment variables:
    ///
    /// | variable | required |
    /// |---|---|
    /// | `MDS_USERNAME`, `MDS_API_KEY`, `MDS_SENDER_ID` | yes |
    /// | `MDS_BASE_URL` | no, defaults to [`DEFAULT_BASE_URL`] |
    /// | `MDS_ROUTE`, `MDS_TEMPLATE_ID`, `MDS_ENTITY_ID`, `MDS_COUNTRY_CODE` | no |
    ///
    /// A variable that holds only white space counts as not set.
    pub fn from_env(env: &Settings) -> (r: Result<Config>)
        ensures
            match r {
                Ok(config) => environment_config(*env) == Ok::<ConfigView, Seq<char>>(config@),
                Err(e) => e matches Error::MissingConfig(key) && environment_config(*env) == Err::<
                    ConfigView,
                    Seq<char>,
                >(key@),
            },
    {
        let username = match take_filled(&env.username) {
            Some(v) => v,
            None => return Err(Error::MissingConfig("MDS_USERNAME")),
        };
        let api_key = match take_filled(&env.api_key) {
            Some(v) => v,
            None => return Err(Error::MissingConfig("MDS_API_KEY")),
        };
        let sender_id = match take_filled(&env.sender_id) {
            Some(v) => v,
            None => return Err(Error::MissingConfig("MDS_SENDER_ID")),
        };
        let base_url = match take_filled(&env.base_url) {
            Some(v) => v,
            None => DEFAULT_BASE_URL.to_string(),
        };
        let route = match take_filled(&env.route) {
            Some(v) => Route::from(v.as_str()),
            None => Route::Transactional,
        };
        Ok(
            Config {
                base_url,
                username,
                api_key,
                sender_id,
                route,
                template_id: take_filled(&env.template_id),
                entity_id: take_filled(&env.entity_id),
                default_country_code: take_filled(&env.country_code),
            },
        )
    }

    /// Checks that nothing is missing without which no message can be sent.
    pub fn validate(&self) -> (r: Result<()>)
        ensures
            match r {
                Ok(_) => missing_field(self@) is None,
                Err(e) => e matches Error::MissingConfig(field) && missing_field(self@) == Some(
                    field@,
                ),
            },
    {
        if is_blank(&chars_of(&self.username)) {
            return Err(Error::MissingConfig("username"));
        }
        if is_blank(&chars_of(&self.api_key)) {
            return Err(Error::MissingConfig("api_key"));
        }
        if is_blank(&chars_of(&self.sender_id)) {
            return Err(Error::MissingConfig("sender_id"));
        }
        if is_blank(&chars_of(self.route.as_str())) {
            return Err(Error::MissingConfig("route"));
        }
        Ok(())
    }

    /// The endpoint that will actually be called: the configured `base_url`,
    /// or [`DEFAULT_BASE_URL`] when it was left blank.
    pub fn effective_base_url(&self) -> (r: &str)
        ensures
            r@ == self@.effective_base_url(),
    {
        proof {
            lemma_blank_iff_trimmed_empty(self.base_url@);
        }
        let trimmed_url = trim_str(&self.base_url);
        if trimmed_url.is_empty() {
            DEFAULT_BASE_URL
        } else {
            trimmed_url
        }
    }
}

// ---------------------------------------------------------------------------
// Recipient numbers
// ---------------------------------------------------------------------------

/// The number carries its country code: it starts with `+` or `00`.
pub open spec fn international(number: Seq<char>) -> bool {
    ||| number.len() > 0 && number[0] == '+'
    ||| number.len() > 1 && number[0] == '0' && number[1] == '0'
}

/// The characters that may stand between the digits of a number.
pub open spec fn number_separators() -> Seq<char> {
    seq!['+', '-', ' ', '(', ')', '.', '\u{a0}']
}

/// Nothing but digits and what may stand between them.
pub open spec fn number_shaped(number: Seq<char>) -> bool {
    forall|i: int|
        0 <= i < number.len() ==> ascii_digit(#[trigger] number[i])
            || number_separators().contains(number[i])
}

/// `s` without the pairs of zeros that it starts with.
pub open spec fn without_zero_pairs(s: Seq<char>) -> Seq<char>
    decreases s.len(),
{
    if s.len() > 1 && s[0] == '0' && s[1] == '0' {
        without_zero_pairs(s.skip(2))
    } else {
        s
    }
}

/// The digits of the country code that bare local numbers get; empty where
/// they get none.
pub open spec fn country_digits(country_code: Option<Seq<char>>) -> Seq<char> {
    match country_code {
        Some(cc) => kept(cc, digits()),
        None => Seq::empty(),
    }
}

/// The digits that a well-shaped number stands for. An international prefix
/// goes; a number without one gets the country code, unless it starts with it.
pub open spec fn full_digits(country: Seq<char>, number: Seq<char>) -> Seq<char> {
    let own = kept(number, digits());
    if international(number) {
        without_zero_pairs(own)
    } else if starts_with(own, country) {
        own
    } else {
        country + own
    }
}

/// What a recipient number is normalized to, or why it is refused.
pub open spec fn normalized_number(
    country_code: Option<Seq<char>>,
    raw: Seq<char>,
) -> std::result::Result<Seq<char>, Seq<char>> {
    let number = trimmed(raw);
    let full = full_digits(country_digits(country_code), number);
    if number.len() == 0 {
        Err("empty"@)
    } else if !number_shaped(number) {
        Err("contains non-numeric characters"@)
    } else if full.len() < 10 || full.len() > 15 {
        Err("must be 10-15 digits after normalization"@)
    } else {
        Ok(full)
    }
}

/// Whether `number` holds nothing but digits and what may stand between them.
fn is_number_shaped(number: &[char]) -> (r: bool)
    ensures
        r == number_shaped(number@),
{
    let set: [char; 7] = ['+', '-', ' ', '(', ')', '.', '\u{a0}'];
    assert(set@ =~= number_separators());
    let mut i: usize = 0;
    while i < number.len()
        invariant
            i <= number@.len(),
            set@ == number_separators(),
            forall|j: int|
                0 <= j < i ==> ascii_digit(#[trigger] number@[j])
                    || number_separators().contains(number@[j]),
        decreases number@.len() - i,
    {
        let c = number[i];
        if !is_ascii_digit(c) && !holds(&set, c) {
            assert(!(ascii_digit(number@[i as int]) || number_separators().contains(
                number@[i as int],
            )));
            return false;
        }
        i += 1;
    }
    true
}

/// `s` without the pairs of zeros that it starts with.
fn drop_zero_pairs(s: &[char]) -> (r: &[char])
    ensures
        r@ == without_zero_pairs(s@),
{
    let n: usize = s.len();
    let mut i: usize = 0;
    assert(s@.skip(0) =~= s@);
    while n - i > 1 && s[i] == '0' && s[i + 1] == '0'
        invariant
            i <= n,
            n == s@.len(),
            without_zero_pairs(s@) == without_zero_pairs(s@.skip(i as int)),
        decreases n - i,
    {
        assert(s@.skip(i as int).skip(2) =~= s@.skip(i + 2));
        i += 2;
    }
    assert(s@.subrange(i as int, n as int) =~= s@.skip(i as int));
    slice_subrange(s, i, n)
}

/// The error for a number that is refused.
fn refuse(raw: &str, reason: &'static str) -> (r: Error)
    ensures
        r matches Error::InvalidNumber { number, reason: why } && number@ == raw@ && why@
            == reason@,
{
    Error::InvalidNumber { number: raw.to_string(), reason }
}

impl Config {
    /// Normalises a recipient number: strips separators, honours a leading `+`
    /// or `00`, and applies `default_country_code` to bare local numbers.
    ///
    /// Exposed so callers (and the CLI) can validate a list of numbers without
    /// sending anything.
    pub fn normalize(&self, raw: &str) -> (r: Result<String>)
        ensures
            match r {
                Ok(number) => normalized_number(self@.default_country_code, raw@) == Ok::<
                    Seq<char>,
                    Seq<char>,
                >(number@),
                Err(e) => e matches Error::InvalidNumber { number, reason } && number@ == raw@
                    && normalized_number(self@.default_country_code, raw@) == Err::<
                    Seq<char>,
                    Seq<char>,
                >(reason@),
            },
    {
        self.normalize_number(raw)
    }

    /// The normalization behind [`Config::normalize`].
    pub fn normalize_number(&self, raw: &str) -> (r: Result<String>)
        ensures
            match r {
                Ok(number) => normalized_number(self@.default_country_code, raw@) == Ok::<
                    Seq<char>,
                    Seq<char>,
                >(number@),
                Err(e) => e matches Error::InvalidNumber { number, reason } && number@ == raw@
                    && normalized_number(self@.default_country_code, raw@) == Err::<
                    Seq<char>,
                    Seq<char>,
                >(reason@),
            },
    {
        let chars = chars_of(raw);
        let number = trim(&chars);
        if number.len() == 0 {
            return Err(refuse(raw, "empty"));
        }
        if !is_number_shaped(number) {
            return Err(refuse(raw, "contains non-numeric characters"));
        }
        let country = match &self.default_country_code {
            Some(cc) => keep_digits(&chars_of(cc)),
            None => Vec::new(),
        };
        let own = keep_digits(number);
        let had_prefix = number[0] == '+' || (number.len() > 1 && number[0] == '0' && number[1]
            == '0');
        let mut full = String::new();
        if had_prefix {
            push_chars(&mut full, drop_zero_pairs(&own));
        } else {
            if !is_at(&own, &country, 0) {
                push_chars(&mut full, &country);
            }
            push_chars(&mut full, &own);
        }
        assert(full@ =~= full_digits(country@, number@));
        let n: usize = chars_of(&full).len();
        if n < 10 || n > 15 {
            return Err(refuse(raw, "must be 10-15 digits after normalization"));
        }
        Ok(full)
    }
}

// ---------------------------------------------------------------------------
// Retries
// ---------------------------------------------------------------------------

/// How the client retries transient failures.
///
/// Delays grow geometrically and carry deterministic per-attempt jitter, so a
/// fleet of senders that all trip on the same gateway blip does not retry in
/// lockstep.
#[derive(Debug, Clone, Copy, PartialEq, Eq)]
pub struct RetryPolicy {
    /// Retries *after* the first try. `0` disables retrying.
    pub max_retries: u32,
    /// Delay before the first retry.
    pub initial_backoff: Duration,
    /// Upper bound on any single delay, jitter included.
    pub max_backoff: Duration,
    /// Geometric growth factor, as a percentage (200 = double each time).
    pub multiplier_pct: u32,
    /// Random spread applied to each delay, as a percentage (0 = none).
    pub jitter_pct: u32,
}

impl Default for RetryPolicy {
    fn default() -> (r: Self)
        ensures
            r.max_retries == 3,
            duration_nanos(r.initial_backoff) == 200_000_000,
            duration_nanos(r.max_backoff) == 5_000_000_000,
            r.multiplier_pct == 200,
            r.jitter_pct == 25,
    {
        RetryPolicy {
            max_retries: 3,
            initial_backoff: Duration::from_millis(200),
            max_backoff: Duration::from_millis(5_000),
            multiplier_pct: 200,
            jitter_pct: 25,
        }
    }
}

/// The low 64 bits of `n`.
pub open spec fn low_bits(n: nat) -> nat {
    n % 0x1_0000_0000_0000_0000
}

/// `a` times `b`, or the largest 64-bit number where that is more.
pub open spec fn capped_product(a: nat, b: nat) -> nat {
    if a * b <= u64::MAX {
        a * b
    } else {
        u64::MAX as nat
    }
}

/// One step of growth, by `factor` percent.
pub open spec fn grown_once(millis: nat, factor: nat) -> nat {
    capped_product(millis, factor) / 100
}

/// `steps` steps of growth, fewer where `cap` is reached before.
pub open spec fn grown(millis: nat, factor: nat, cap: nat, steps: nat) -> nat
    decreases steps,
{
    if steps == 0 {
        millis
    } else {
        let next = grown_once(millis, factor);
        if next >= cap {
            next
        } else {
            grown(next, factor, cap, (steps - 1) as nat)
        }
    }
}

/// A number between 0 and 2^64 - 1, spread evenly over seeds and attempts
/// (splitmix64).
pub open spec fn scattered(seed: u64, attempt: u32) -> u64 {
    let x0 = seed.wrapping_add(attempt as u64).wrapping_mul(0x9E37_79B9_7F4A_7C15);
    let x1 = (x0 ^ (x0 >> 30)).wrapping_mul(0xBF58_476D_1CE4_E5B9);
    let x2 = (x1 ^ (x1 >> 27)).wrapping_mul(0x94D0_49BB_1331_11EB);
    x2 ^ (x2 >> 31)
}

impl RetryPolicy {
    /// The longest delay, in milliseconds.
    pub open spec fn cap(self) -> nat {
        low_bits(duration_millis(self.max_backoff))
    }

    /// The delay to start from, in milliseconds: at least one.
    pub open spec fn start(self) -> nat {
        let millis = duration_millis(self.initial_backoff);
        low_bits(
            if millis == 0 {
                1
            } else {
                millis
            },
        )
    }

    /// The percentage by which delays grow: at least 100, so that they never
    /// shrink.
    pub open spec fn factor(self) -> nat {
        if self.multiplier_pct < 100 {
            100
        } else {
            self.multiplier_pct as nat
        }
    }

    /// The delay before retry `attempt`, in milliseconds, before any jitter.
    pub open spec fn nominal_millis(self, attempt: u32) -> nat
        recommends
            attempt > 0,
    {
        let millis = grown(self.start(), self.factor(), self.cap(), (attempt - 1) as nat);
        if millis < self.cap() {
            millis
        } else {
            self.cap()
        }
    }

    /// How far jitter can move the delay before retry `attempt`, either way, in
    /// milliseconds.
    pub open spec fn spread_millis(self, attempt: u32) -> nat {
        let share = if self.jitter_pct < 100 {
            self.jitter_pct as nat
        } else {
            100
        };
        capped_product(self.nominal_millis(attempt), share) / 100
    }

    /// The delay before retry `attempt`, in milliseconds: the nominal one,
    /// moved by jitter within the spread, at least 1 and at most the cap.
    pub open spec fn backoff_millis(self, attempt: u32, seed: u64) -> nat {
        if attempt == 0 {
            0
        } else {
            let spread = self.spread_millis(attempt);
            let moved = self.nominal_millis(attempt) + scattered(seed, attempt) as nat % (spread * 2
                + 1) - spread;
            let least = if moved < 1 {
                1
            } else {
                moved
            };
            if least < self.cap() {
                least as nat
            } else {
                self.cap()
            }
        }
    }

    /// A policy that never retries.
    pub fn none() -> (r: Self)
        ensures
            r.max_retries == 0,
            duration_nanos(r.initial_backoff) == 200_000_000,
            duration_nanos(r.max_backoff) == 5_000_000_000,
            r.multiplier_pct == 200,
            r.jitter_pct == 25,
    {
        let mut policy = RetryPolicy::default();
        policy.max_retries = 0;
        policy
    }

    /// Delay before `attempt` (1 = first retry).
    pub fn backoff_for(&self, attempt: u32, seed: u64) -> (r: Duration)
        ensures
            duration_nanos(r) == self.backoff_millis(attempt, seed) * 1_000_000,
    {
        if attempt == 0 {
            return Duration::from_millis(0);
        }
        let cap: u64 = low_u64(whole_millis(self.max_backoff));
        let whole: u128 = whole_millis(self.initial_backoff);
        let start: u64 = low_u64(
            if whole == 0 {
                1
            } else {
                whole
            },
        );
        let factor: u64 = if self.multiplier_pct < 100 {
            100
        } else {
            self.multiplier_pct as u64
        };
        let share: u64 = if self.jitter_pct < 100 {
            self.jitter_pct as u64
        } else {
            100
        };
        let reached: u64 = grow(start, factor, cap, attempt - 1);
        let nominal: u64 = if reached < cap {
            reached
        } else {
            cap
        };
        let spread: u64 = multiply_capped(nominal, share) / 100;
        let offset: u64 = scatter(seed, attempt) % (spread * 2 + 1);
        let high: u128 = nominal as u128 + offset as u128;
        let moved: u128 = if high > spread as u128 {
            high - spread as u128
        } else {
            0
        };
        let least: u128 = if moved < 1 {
            1
        } else {
            moved
        };
        let millis: u64 = if least < cap as u128 {
            least as u64
        } else {
            cap
        };
        Duration::from_millis(millis)
    }
}

/// The low 64 bits of `n`.
fn low_u64(n: u128) -> (r: u64)
    ensures
        r == low_bits(n as nat),
{
    assert((n as u64) as u128 == n % 0x1_0000_0000_0000_0000u128) by (bit_vector);
    #[verifier::truncate]
    (n as u64)
}

/// `a` times `b`, or the largest number where that is more.
fn multiply_capped(a: u64, b: u64) -> (r: u64)
    ensures
        r == capped_product(a as nat, b as nat),
{
    match a.checked_mul(b) {
        Some(product) => product,
        None => u64::MAX,
    }
}

/// Grows a delay step by step, until `cap` is reached.
fn grow(start: u64, factor: u64, cap: u64, steps: u32) -> (r: u64)
    ensures
        r == grown(start as nat, factor as nat, cap as nat, steps as nat),
{
    let mut millis: u64 = start;
    let mut left: u32 = steps;
    while left > 0
        invariant
            left <= steps,
            grown(start as nat, factor as nat, cap as nat, steps as nat) == grown(
                millis as nat,
                factor as nat,
                cap as nat,
                left as nat,
            ),
        decreases left,
    {
        millis = multiply_capped(millis, factor) / 100;
        if millis >= cap {
            return millis;
        }
        left -= 1;
    }
    millis
}

/// Scatters seeds and attempts over all 64-bit numbers.
fn scatter(seed: u64, attempt: u32) -> (r: u64)
    ensures
        r == scattered(seed, attempt),
{
    let x0: u64 = seed.wrapping_add(attempt as u64).wrapping_mul(0x9E37_79B9_7F4A_7C15);
    let x1: u64 = (x0 ^ (x0 >> 30)).wrapping_mul(0xBF58_476D_1CE4_E5B9);
    let x2: u64 = (x1 ^ (x1 >> 27)).wrapping_mul(0x94D0_49BB_1331_11EB);
    x2 ^ (x2 >> 31)
}

// ---------------------------------------------------------------------------
// Laws
// ---------------------------------------------------------------------------

/// No delay is longer than `max_backoff`, whatever the attempt, the growth and
/// the jitter.
pub proof fn lemma_delay_is_bounded(policy: RetryPolicy, attempt: u32, seed: u64)
    ensures
        policy.backoff_millis(attempt, seed) * 1_000_000 <= duration_nanos(policy.max_backoff),
{
    let millis = duration_millis(policy.max_backoff);
    assert(low_bits(millis) <= millis) by (nonlinear_arith)
        requires
            low_bits(millis) == millis % 0x1_0000_0000_0000_0000,
    ;
    assert(policy.backoff_millis(attempt, seed) <= policy.cap());
}

/// Jitter moves a delay by at most the given share of it, either way. Only where
/// there is no delay to move, the shortest possible one of a millisecond can
/// take its place.
pub proof fn lemma_jitter_stays_in_band(policy: RetryPolicy, attempt: u32, seed: u64)
    requires
        attempt > 0,
    ensures
        ({
            let nominal = policy.nominal_millis(attempt);
            let spread = policy.spread_millis(attempt);
            let delay = policy.backoff_millis(attempt, seed);
            &&& spread * 100 <= nominal * policy.jitter_pct
            &&& spread <= nominal
            &&& nominal - spread <= delay
            &&& delay <= nominal + spread || (nominal == 0 && delay == 1)
        }),
{
    let nominal = policy.nominal_millis(attempt);
    let spread = policy.spread_millis(attempt);
    let share = if policy.jitter_pct < 100 {
        policy.jitter_pct as nat
    } else {
        100
    };
    assert(nominal * share <= nominal * policy.jitter_pct) by (nonlinear_arith)
        requires
            share <= policy.jitter_pct,
            nominal >= 0,
    ;
    assert(nominal * share <= nominal * 100) by (nonlinear_arith)
        requires
            share <= 100,
            nominal >= 0,
    ;
    assert(capped_product(nominal, share) <= nominal * share);
    let offset = scattered(seed, attempt) as nat % (spread * 2 + 1);
    assert(0 <= offset <= spread * 2) by (nonlinear_arith)
        requires
            offset == scattered(seed, attempt) as nat % (spread * 2 + 1),
            spread >= 0,
    ;
    assert(nominal <= policy.cap());
}

proof fn lemma_grown_again(millis: nat, factor: nat, cap: nat, steps: nat)
    requires
        factor >= 100,
        millis * factor <= u64::MAX,
        cap * factor <= u64::MAX,
    ensures
        grown(millis, factor, cap, steps) <= grown(millis, factor, cap, steps + 1) || cap <= grown(
            millis,
            factor,
            cap,
            steps + 1,
        ),
    decreases steps,
{
    let next = grown_once(millis, factor);
    assert(millis * factor >= millis * 100) by (nonlinear_arith)
        requires
            factor >= 100,
            millis >= 0,
    ;
    assert(next >= millis);
    if steps == 0 {
        assert(grown(millis, factor, cap, 1) >= next) by {
            reveal_with_fuel(grown, 2);
        }
    } else if next < cap {
        assert(next * factor <= cap * factor) by (nonlinear_arith)
            requires
                next < cap,
                factor >= 100,
        ;
        lemma_grown_again(next, factor, cap, (steps - 1) as nat);
    }
}

/// From one retry to the next, the delay before jitter never gets shorter, as
/// long as its products with the growth factor fit in 64 bits.
pub proof fn lemma_delays_grow(policy: RetryPolicy, attempt: u32)
    requires
        0 < attempt < u32::MAX,
        policy.start() * policy.factor() <= u64::MAX,
        policy.cap() * policy.factor() <= u64::MAX,
    ensures
        policy.nominal_millis(attempt) <= policy.nominal_millis((attempt + 1) as u32),
{
    lemma_grown_again(policy.start(), policy.factor(), policy.cap(), (attempt - 1) as nat);
}

proof fn lemma_kept_digits(s: Seq<char>)
    ensures
        forall|i: int| 0 <= i < kept(s, digits()).len() ==> ascii_digit(#[trigger] kept(s, digits())[i]),
    decreases s.len(),
{
    if s.len() > 0 {
        let before = kept(s.drop_last(), digits());
        lemma_kept_digits(s.drop_last());
        assert forall|i: int| 0 <= i < kept(s, digits()).len() implies ascii_digit(
            #[trigger] kept(s, digits())[i],
        ) by {
            if i < before.len() {
                assert(kept(s, digits())[i] == before[i]);
            }
        }
    }
}

proof fn lemma_without_zero_pairs_digits(s: Seq<char>)
    requires
        forall|i: int| 0 <= i < s.len() ==> ascii_digit(#[trigger] s[i]),
    ensures
        forall|i: int|
            0 <= i < without_zero_pairs(s).len() ==> ascii_digit(
                #[trigger] without_zero_pairs(s)[i],
            ),
    decreases s.len(),
{
    if s.len() > 1 && s[0] == '0' && s[1] == '0' {
        let rest = s.skip(2);
        assert forall|i: int| 0 <= i < rest.len() implies ascii_digit(#[trigger] rest[i]) by {
            assert(rest[i] == s[i + 2]);
        }
        lemma_without_zero_pairs_digits(rest);
        assert(without_zero_pairs(s) == without_zero_pairs(rest));
        assert forall|i: int| 0 <= i < without_zero_pairs(s).len() implies ascii_digit(
            #[trigger] without_zero_pairs(s)[i],
        ) by {
            assert(ascii_digit(without_zero_pairs(rest)[i]));
        }
    }
}

/// A normalized number is 10 to 15 digits and nothing else.
pub proof fn lemma_normalized_is_digits(country_code: Option<Seq<char>>, raw: Seq<char>)
    ensures
        normalized_number(country_code, raw) matches Ok(number) ==> 10 <= number.len() <= 15 && (
        forall|i: int| 0 <= i < number.len() ==> ascii_digit(#[trigger] number[i])),
{
    let number = trimmed(raw);
    lemma_kept_digits(number);
    lemma_without_zero_pairs_digits(kept(number, digits()));
    if let Some(cc) = country_code {
        lemma_kept_digits(cc);
    }
}

/// The separators in a number change nothing: two ways of writing the same
/// digits, both with an international prefix or both without, normalize alike.
pub proof fn lemma_separators_change_nothing(
    country_code: Option<Seq<char>>,
    a: Seq<char>,
    b: Seq<char>,
)
    requires
        number_shaped(trimmed(a)),
        number_shaped(trimmed(b)),
        trimmed(a).len() > 0,
        trimmed(b).len() > 0,
        international(trimmed(a)) == international(trimmed(b)),
        kept(trimmed(a), digits()) == kept(trimmed(b), digits()),
    ensures
        normalized_number(country_code, a) == normalized_number(country_code, b),
{
}

/// A normalized number that starts with the country code, and not with two
/// zeros, normalizes to itself. Without a country code every one does that does
/// not start with two zeros.
pub proof fn lemma_normalized_stays(country_code: Option<Seq<char>>, raw: Seq<char>)
    requires
        normalized_number(country_code, raw) matches Ok(number) && starts_with(
            number,
            country_digits(country_code),
        ) && !(number[0] == '0' && number[1] == '0'),
    ensures
        normalized_number(country_code, normalized_number(country_code, raw)->Ok_0)
            == normalized_number(country_code, raw),
{
    let number = normalized_number(country_code, raw)->Ok_0;
    lemma_normalized_is_digits(country_code, raw);
    assert(trimmed(number) =~= number) by {
        assert(ascii_digit(number[0]));
        assert(ascii_digit(number[number.len() - 1]));
    }
    lemma_kept_whole(number, digits());
    assert(ascii_digit(number[0]));
}

} // verus!
