//! The client: one account on one gateway, and how it is set up.

use crate::config::{
    empty_config, environment_config, missing_field, normalized_number, Config, ConfigView,
    Settings, RetryPolicy, Route, RouteView,
};
use crate::decimal::{decimal, push_decimal};
use crate::duration::duration_nanos;
use crate::endpoint::{pairs_view, parsed_url, Endpoint, UrlView};
use crate::error::{quote, quoted, span_text, write_span, Error, Result};
use crate::form::{lemma_pairs_read_back, pairs_as_bytes, read_query, Pair};
use crate::message::{Message, MessageView};
use crate::response::Response;
use crate::text::opt_text;
use std::time::Duration;
use vstd::prelude::*;

verus! {

/// Result of one send inside a batch. Carries the recipient so failures stay
/// attributable after out-of-order completion.
pub type BatchItem = (String, Result<Response>);

/// How many sends of a batch are in flight unless set otherwise.
pub const DEFAULT_CONCURRENCY: usize = 16;

/// How many idle connections are kept per host unless set otherwise.
pub const DEFAULT_POOL_PER_HOST: usize = 16;

/// How the client presents itself unless set otherwise.
pub const USER_AGENT: &'static str = "mdsmedia-rs/0.1.0";

// ---------------------------------------------------------------------------
// Settings of the HTTP connection
// ---------------------------------------------------------------------------

/// How the HTTP connection to the gateway is to be set up.
#[derive(Debug)]
pub struct HttpSettings {
    /// Total per-attempt request timeout.
    pub timeout: Duration,
    /// TCP+TLS connect timeout.
    pub connect_timeout: Duration,
    /// Idle keep-alive connections held per gateway host.
    pub pool_max_idle_per_host: usize,
    pub pool_idle_timeout: Duration,
    pub user_agent: String,
}

/// The model of [`HttpSettings`].
pub struct HttpView {
    pub timeout: Duration,
    pub connect_timeout: Duration,
    pub pool_max_idle_per_host: usize,
    pub pool_idle_timeout: Duration,
    pub user_agent: Seq<char>,
}

impl View for HttpSettings {
    type V = HttpView;

    open spec fn view(&self) -> HttpView {
        HttpView {
            timeout: self.timeout,
            connect_timeout: self.connect_timeout,
            pool_max_idle_per_host: self.pool_max_idle_per_host,
            pool_idle_timeout: self.pool_idle_timeout,
            user_agent: self.user_agent@,
        }
    }
}

impl Clone for HttpSettings {
    fn clone(&self) -> (r: Self)
        ensures
            r == *self,
    {
        HttpSettings {
            timeout: self.timeout,
            connect_timeout: self.connect_timeout,
            pool_max_idle_per_host: self.pool_max_idle_per_host,
            pool_idle_timeout: self.pool_idle_timeout,
            user_agent: self.user_agent.clone(),
        }
    }
}

// ---------------------------------------------------------------------------
// The client
// ---------------------------------------------------------------------------

/// Client for the MDS Media SMS gateway: an account, the endpoint it is called
/// on, and how sends are carried out.
pub struct MdsClient {
    name: String,
    config: Config,
    endpoint: Endpoint,
    http: HttpSettings,
    retry: RetryPolicy,
    concurrency: usize,
    slow_after: Duration,
}

/// The model of an [`MdsClient`].
pub struct ClientView {
    pub name: Seq<char>,
    pub config: ConfigView,
    pub endpoint: UrlView,
    pub http: HttpView,
    pub retry: RetryPolicy,
    pub concurrency: usize,
    pub slow_after: Duration,
}

impl View for MdsClient {
    type V = ClientView;

    closed spec fn view(&self) -> ClientView {
        ClientView {
            name: self.name@,
            config: self.config@,
            endpoint: self.endpoint@,
            http: self.http@,
            retry: self.retry,
            concurrency: self.concurrency,
            slow_after: self.slow_after,
        }
    }
}

impl ClientView {
    /// Nothing is missing without which no message can be sent, the endpoint is
    /// the one configured, and at least one send can be in flight.
    pub open spec fn ready(self) -> bool {
        &&& missing_field(self.config) is None
        &&& parsed_url(self.config.effective_base_url()) == Ok::<UrlView, Seq<char>>(self.endpoint)
        &&& self.concurrency >= 1
    }

    /// `host:port` of the gateway, or the name of the client where the endpoint
    /// has no host.
    pub open spec fn endpoint_label(self) -> Seq<char> {
        self.endpoint.label(self.name)
    }
}

/// The parameters of a request, in order. What the message sets wins over the
/// account; a template id and an entity id are sent where there is one.
pub open spec fn request_pairs(config: ConfigView, message: MessageView, to: Seq<char>) -> Seq<
    Pair,
> {
    let sender = match message.sender_id {
        Some(sender) => sender,
        None => config.sender_id,
    };
    let route = match message.route {
        Some(route) => route,
        None => config.route,
    };
    let template = match message.template_id {
        Some(tid) => Some(tid),
        None => config.template_id,
    };
    let tid = match template {
        Some(tid) => seq![("TID"@, tid)],
        None => Seq::empty(),
    };
    let peid = match config.entity_id {
        Some(peid) => seq![("PEID"@, peid)],
        None => Seq::empty(),
    };
    seq![
        ("username"@, config.username),
        ("apikey"@, config.api_key),
        ("senderid"@, sender),
        ("route"@, route.text()),
        ("text"@, message.body),
        ("mobile"@, to),
    ] + tid + peid
}

/// A request for the message to `to` fits into a URL: the positions of its `?`
/// and its `#` are 32-bit numbers.
pub open spec fn request_fits(client: ClientView, message: MessageView, to: Seq<char>) -> bool {
    client.endpoint.has_room(request_pairs(client.config, message, to))
}

/// A route as `<Route as Debug>::fmt` writes it.
pub open spec fn route_debug(route: RouteView) -> Seq<char> {
    match route {
        RouteView::Transactional => "Transactional"@,
        RouteView::Promotional => "Promotional"@,
        RouteView::Custom(s) => "Custom("@ + quoted(s) + ")"@,
    }
}

fn write_route(route: &Route) -> (r: String)
    ensures
        r@ == route_debug(route@),
{
    match route {
        Route::Transactional => "Transactional".to_string(),
        Route::Promotional => "Promotional".to_string(),
        Route::Custom(s) => {
            let mut out = "Custom(".to_string();
            out.append(quote(s).as_str());
            out.append(")");
            out
        },
    }
}

impl ClientView {
    /// The client for a log: everything but the API key that tells it apart.
    pub open spec fn debug_text(self) -> Seq<char> {
        "MdsClient { name: "@ + quoted(self.name) + ", endpoint: "@ + quoted(self.endpoint.text())
            + ", username: "@ + quoted(self.config.username) + ", sender_id: "@ + quoted(
            self.config.sender_id,
        ) + ", route: "@ + route_debug(self.config.route) + ", concurrency: "@ + decimal(
            self.concurrency as nat,
        ) + ", .. }"@
    }
}

impl Clone for MdsClient {
    fn clone(&self) -> (r: Self)
        ensures
            r@ == self@,
    {
        proof {
            use_type_invariant(self);
        }
        MdsClient {
            name: self.name.clone(),
            config: self.config.clone(),
            endpoint: self.endpoint.clone(),
            http: self.http.clone(),
            retry: self.retry,
            concurrency: self.concurrency,
            slow_after: self.slow_after,
        }
    }
}

impl MdsClient {
    #[verifier::type_invariant]
    spec fn well_formed(self) -> bool {
        self@.ready()
    }

    /// Starts a builder with no fields set.
    pub fn builder() -> (r: MdsClientBuilder)
        ensures
            default_builder(r@),
    {
        MdsClientBuilder::default()
    }

    /// Builds a client from an already-assembled [`Config`], with defaults for
    /// timeouts and retries.
    pub fn from_config(config: Config) -> (r: Result<MdsClient>)
        ensures
            match r {
                Ok(client) => missing_field(config@) is None && default_client(config@, client@),
                Err(e) => build_error(config@, e),
            },
    {
        MdsClientBuilder::default().config(config).build()
    }

    /// Builds a client from `MDS_*` environment variables.
    pub fn from_env(env: &Settings) -> (r: Result<MdsClient>)
        ensures
            match environment_config(*env) {
                Ok(config) => match r {
                    Ok(client) => missing_field(config) is None && default_client(config, client@),
                    Err(e) => build_error(config, e),
                },
                Err(key) => r matches Err(Error::MissingConfig(k)) && k@ == key,
            },
    {
        match Config::from_env(env) {
            Ok(config) => MdsClient::from_config(config),
            Err(e) => Err(e),
        }
    }

    /// The account configuration in use.
    pub fn config(&self) -> (r: &Config)
        ensures
            r@ == self@.config,
            missing_field(r@) is None,
    {
        proof {
            use_type_invariant(self);
        }
        &self.config
    }

    /// This client's provider name, used in [`Response::provider`] and events.
    /// Defaults to the endpoint host when not set explicitly.
    pub fn name(&self) -> (r: &str)
        ensures
            r@ == self@.name,
    {
        self.name.as_str()
    }

    /// Default in-flight limit for a batch.
    pub fn concurrency(&self) -> (r: usize)
        ensures
            r == self@.concurrency,
            r >= 1,
    {
        proof {
            use_type_invariant(self);
        }
        self.concurrency
    }

    /// How the HTTP connection is to be set up.
    pub fn http(&self) -> (r: &HttpSettings)
        ensures
            r@ == self@.http,
    {
        &self.http
    }

    pub fn retry(&self) -> (r: RetryPolicy)
        ensures
            r == self@.retry,
    {
        self.retry
    }

    /// The time after which an accepted send counts as slow.
    pub fn slow_after(&self) -> (r: Duration)
        ensures
            r == self@.slow_after,
    {
        self.slow_after
    }

    /// `host:port` of the gateway: safe to log, unlike the full request URL,
    /// which carries the API key as a query parameter.
    pub fn endpoint_label(&self) -> (r: String)
        ensures
            r@ == self@.endpoint_label(),
    {
        self.endpoint.parts().label(&self.name)
    }

    /// Normalises a recipient number exactly as a send would, without
    /// contacting the gateway. Useful for validating a recipient list upfront.
    pub fn normalize(&self, number: &str) -> (r: Result<String>)
        ensures
            match r {
                Ok(n) => normalized_number(self@.config.default_country_code, number@) == Ok::<
                    Seq<char>,
                    Seq<char>,
                >(n@),
                Err(e) => e matches Error::InvalidNumber { number: given, reason } && given@
                    == number@ && normalized_number(self@.config.default_country_code, number@)
                    == Err::<Seq<char>, Seq<char>>(reason@),
            },
    {
        self.config.normalize(number)
    }

    /// The parameters of a request.
    fn params<'a>(&'a self, message: &'a Message, to: &'a str) -> (r: Vec<(&'a str, &'a str)>)
        ensures
            pairs_view(r@) == request_pairs(self@.config, message@, to@),
    {
        let config = &self.config;
        let sender: &'a str = match message.own_sender() {
            Some(sender) => sender.as_str(),
            None => config.sender_id.as_str(),
        };
        let route: &'a str = match message.own_route() {
            Some(route) => route.as_str(),
            None => config.route.as_str(),
        };
        let mut pairs: Vec<(&'a str, &'a str)> = Vec::new();
        pairs.push(("username", config.username.as_str()));
        pairs.push(("apikey", config.api_key.as_str()));
        pairs.push(("senderid", sender));
        pairs.push(("route", route));
        pairs.push(("text", message.body()));
        pairs.push(("mobile", to));
        match message.own_template() {
            Some(tid) => {
                pairs.push(("TID", tid.as_str()));
            },
            None => {
                if let Some(tid) = &config.template_id {
                    pairs.push(("TID", tid.as_str()));
                }
            },
        }
        if let Some(peid) = &config.entity_id {
            pairs.push(("PEID", peid.as_str()));
        }
        assert(pairs_view(pairs@) =~= request_pairs(self@.config, message@, to@));
        pairs
    }

    /// Whether the request for a message fits into a URL.
    pub fn fits(&self, message: &Message, to: &str) -> (r: bool)
        ensures
            r == request_fits(self@, message@, to@),
    {
        let pairs = self.params(message, to);
        self.endpoint.has_room(&pairs)
    }

    /// Builds the request URL. Every value goes through proper percent-encoding:
    /// an unescaped `&` or `#` in a message body would otherwise silently
    /// corrupt the query string.
    pub fn build_url(&self, message: &Message, to: &str) -> (r: String)
        requires
            request_fits(self@, message@, to@),
        ensures
            r@ == self@.endpoint.request(request_pairs(self@.config, message@, to@)),
    {
        let pairs = self.params(message, to);
        self.endpoint.request(&pairs)
    }

    /// The client for a log. Never prints the API key.
    pub fn debug_string(&self) -> (r: String)
        ensures
            r@ == self@.debug_text(),
    {
        let mut out = "MdsClient { name: ".to_string();
        out.append(quote(&self.name).as_str());
        out.append(", endpoint: ");
        out.append(quote(&self.endpoint.parts().as_text()).as_str());
        out.append(", username: ");
        out.append(quote(&self.config.username).as_str());
        out.append(", sender_id: ");
        out.append(quote(&self.config.sender_id).as_str());
        out.append(", route: ");
        out.append(write_route(&self.config.route).as_str());
        out.append(", concurrency: ");
        push_decimal(&mut out, self.concurrency as u128);
        out.append(", .. }");
        out
    }
}

// ---------------------------------------------------------------------------
// The builder
// ---------------------------------------------------------------------------

/// Builder for [`MdsClient`].
pub struct MdsClientBuilder {
    config: Config,
    retry: RetryPolicy,
    http: HttpSettings,
    concurrency: usize,
    name: Option<String>,
    slow_after: Duration,
}

/// The model of an [`MdsClientBuilder`].
pub struct BuilderView {
    pub config: ConfigView,
    pub retry: RetryPolicy,
    pub http: HttpView,
    pub concurrency: usize,
    pub name: Option<Seq<char>>,
    pub slow_after: Duration,
}

impl View for MdsClientBuilder {
    type V = BuilderView;

    closed spec fn view(&self) -> BuilderView {
        BuilderView {
            config: self.config@,
            retry: self.retry,
            http: self.http@,
            concurrency: self.concurrency,
            name: opt_text(self.name),
            slow_after: self.slow_after,
        }
    }
}

/// How delays grow unless set otherwise: from 200 milliseconds to 5 seconds,
/// doubling each time, with a quarter of jitter.
pub open spec fn default_growth(retry: RetryPolicy) -> bool {
    &&& duration_nanos(retry.initial_backoff) == 200_000_000
    &&& duration_nanos(retry.max_backoff) == 5_000_000_000
    &&& retry.multiplier_pct == 200
    &&& retry.jitter_pct == 25
}

/// How connections are made unless set otherwise: within 10 seconds, 16 of them
/// kept for 90 seconds.
pub open spec fn default_connection(http: HttpView) -> bool {
    &&& duration_nanos(http.connect_timeout) == 10_000_000_000
    &&& http.pool_max_idle_per_host == DEFAULT_POOL_PER_HOST
    &&& duration_nanos(http.pool_idle_timeout) == 90_000_000_000
    &&& http.user_agent == USER_AGENT@
}

/// The settings that a client has unless they are changed: three retries, 20
/// seconds for a request, 16 sends in flight, and slow after 5 seconds.
pub open spec fn default_builder(b: BuilderView) -> bool {
    &&& b.config == empty_config()
    &&& b.retry.max_retries == 3
    &&& default_growth(b.retry)
    &&& duration_nanos(b.http.timeout) == 20_000_000_000
    &&& default_connection(b.http)
    &&& b.concurrency == DEFAULT_CONCURRENCY
    &&& b.name is None
    &&& duration_nanos(b.slow_after) == 5_000_000_000
}

/// The client is that of an account with all else as it is by default.
pub open spec fn default_client(config: ConfigView, client: ClientView) -> bool {
    &&& built(
        BuilderView {
            config,
            retry: client.retry,
            http: client.http,
            concurrency: DEFAULT_CONCURRENCY,
            name: None,
            slow_after: client.slow_after,
        },
        client,
    )
    &&& client.retry.max_retries == 3
    &&& default_growth(client.retry)
    &&& duration_nanos(client.http.timeout) == 20_000_000_000
    &&& default_connection(client.http)
    &&& duration_nanos(client.slow_after) == 5_000_000_000
}

/// The client is what the builder describes.
pub open spec fn built(b: BuilderView, client: ClientView) -> bool {
    &&& parsed_url(b.config.effective_base_url()) == Ok::<UrlView, Seq<char>>(client.endpoint)
    &&& client.config == b.config
    &&& client.http == b.http
    &&& client.retry == b.retry
    &&& client.concurrency == b.concurrency
    &&& client.slow_after == b.slow_after
    &&& client.name == (match b.name {
        Some(name) => name,
        None => client.endpoint.host_or("mds"@),
    })
}

/// The error on which no client is built from this account: a setting is
/// missing, or its endpoint is no URL.
pub open spec fn build_error(config: ConfigView, e: Error) -> bool {
    match missing_field(config) {
        Some(field) => e matches Error::MissingConfig(f) && f@ == field,
        None => e matches Error::InvalidBaseUrl { url, source } && url@
            == config.effective_base_url() && parsed_url(config.effective_base_url()) == Err::<
            UrlView,
            Seq<char>,
        >(source@),
    }
}

impl BuilderView {
    /// The builder for a log.
    pub open spec fn debug_text(self, has_observer: bool) -> Seq<char> {
        "MdsClientBuilder { name: "@ + (match self.name {
            Some(name) => "Some("@ + quoted(name) + ")"@,
            None => "None"@,
        }) + ", timeout: "@ + span_text(duration_nanos(self.http.timeout)) + ", concurrency: "@
            + decimal(self.concurrency as nat) + ", has_observer: "@ + truth(has_observer)
            + ", .. }"@
    }
}

/// A truth value as text.
pub open spec fn truth(b: bool) -> Seq<char> {
    if b {
        "true"@
    } else {
        "false"@
    }
}

/// A truth value as text.
pub(crate) fn write_truth(b: bool) -> (r: &'static str)
    ensures
        r@ == truth(b),
{
    if b {
        "true"
    } else {
        "false"
    }
}

impl Default for MdsClientBuilder {
    fn default() -> (r: Self)
        ensures
            default_builder(r@),
    {
        MdsClientBuilder {
            config: Config::default(),
            retry: RetryPolicy::default(),
            http: HttpSettings {
                timeout: Duration::from_millis(20_000),
                connect_timeout: Duration::from_millis(10_000),
                pool_max_idle_per_host: DEFAULT_POOL_PER_HOST,
                pool_idle_timeout: Duration::from_millis(90_000),
                user_agent: USER_AGENT.to_string(),
            },
            concurrency: DEFAULT_CONCURRENCY,
            name: None,
            slow_after: Duration::from_millis(5_000),
        }
    }
}

impl MdsClientBuilder {
    #[verifier::type_invariant]
    spec fn well_formed(self) -> bool {
        self.concurrency >= 1
    }

    /// Names this provider, e.g. `"mds1"`. Surfaces in [`Response::provider`]
    /// and in every [`crate::Event`]. Defaults to the endpoint host.
    pub fn name(self, name: &str) -> (r: Self)
        ensures
            r@ == (BuilderView { name: Some(name@), ..self@ }),
    {
        proof {
            use_type_invariant(&self);
        }
        MdsClientBuilder { name: Some(name.to_string()), ..self }
    }

    /// Emits [`crate::Event::Slow`] for sends exceeding this. Default 5s.
    pub fn slow_after(self, threshold: Duration) -> (r: Self)
        ensures
            r@ == (BuilderView { slow_after: threshold, ..self@ }),
    {
        proof {
            use_type_invariant(&self);
        }
        MdsClientBuilder { slow_after: threshold, ..self }
    }

    /// Replaces the whole account config at once.
    pub fn config(self, config: Config) -> (r: Self)
        ensures
            r@ == (BuilderView { config: config@, ..self@ }),
    {
        proof {
            use_type_invariant(&self);
        }
        MdsClientBuilder { config, ..self }
    }

    /// Overrides the gateway endpoint. Optional: defaults to
    /// [`crate::DEFAULT_BASE_URL`]; set this only for a dedicated-IP or
    /// staging endpoint.
    pub fn base_url(self, url: &str) -> (r: Self)
        ensures
            r@ == (BuilderView {
                config: ConfigView { base_url: url@, ..self@.config },
                ..self@
            }),
    {
        let config = Config { base_url: url.to_string(), ..self.config.clone() };
        self.config(config)
    }

    pub fn username(self, username: &str) -> (r: Self)
        ensures
            r@ == (BuilderView {
                config: ConfigView { username: username@, ..self@.config },
                ..self@
            }),
    {
        let config = Config { username: username.to_string(), ..self.config.clone() };
        self.config(config)
    }

    pub fn api_key(self, key: &str) -> (r: Self)
        ensures
            r@ == (BuilderView {
                config: ConfigView { api_key: key@, ..self@.config },
                ..self@
            }),
    {
        let config = Config { api_key: key.to_string(), ..self.config.clone() };
        self.config(config)
    }

    pub fn sender_id(self, sender: &str) -> (r: Self)
        ensures
            r@ == (BuilderView {
                config: ConfigView { sender_id: sender@, ..self@.config },
                ..self@
            }),
    {
        let config = Config { sender_id: sender.to_string(), ..self.config.clone() };
        self.config(config)
    }

    pub fn route(self, route: Route) -> (r: Self)
        ensures
            r@ == (BuilderView {
                config: ConfigView { route: route@, ..self@.config },
                ..self@
            }),
    {
        let config = Config { route, ..self.config.clone() };
        self.config(config)
    }

    /// DLT template id (`TID`).
    pub fn template_id(self, tid: &str) -> (r: Self)
        ensures
            r@ == (BuilderView {
                config: ConfigView { template_id: Some(tid@), ..self@.config },
                ..self@
            }),
    {
        let config = Config { template_id: Some(tid.to_string()), ..self.config.clone() };
        self.config(config)
    }

    /// DLT principal entity id (`PEID`).
    pub fn entity_id(self, peid: &str) -> (r: Self)
        ensures
            r@ == (BuilderView {
                config: ConfigView { entity_id: Some(peid@), ..self@.config },
                ..self@
            }),
    {
        let config = Config { entity_id: Some(peid.to_string()), ..self.config.clone() };
        self.config(config)
    }

    /// Country code prepended to bare local numbers, e.g. your country
    /// dialling code as a digit string.
    pub fn default_country_code(self, cc: &str) -> (r: Self)
        ensures
            r@ == (BuilderView {
                config: ConfigView { default_country_code: Some(cc@), ..self@.config },
                ..self@
            }),
    {
        let config = Config { default_country_code: Some(cc.to_string()), ..self.config.clone() };
        self.config(config)
    }

    pub fn retry(self, policy: RetryPolicy) -> (r: Self)
        ensures
            r@ == (BuilderView { retry: policy, ..self@ }),
    {
        proof {
            use_type_invariant(&self);
        }
        MdsClientBuilder { retry: policy, ..self }
    }

    /// Total per-attempt request timeout. Default 20s.
    pub fn timeout(self, timeout: Duration) -> (r: Self)
        ensures
            r@ == (BuilderView { http: HttpView { timeout, ..self@.http }, ..self@ }),
    {
        proof {
            use_type_invariant(&self);
        }
        let http = HttpSettings { timeout, ..self.http.clone() };
        MdsClientBuilder { http, ..self }
    }

    /// TCP+TLS connect timeout. Default 10s.
    pub fn connect_timeout(self, timeout: Duration) -> (r: Self)
        ensures
            r@ == (BuilderView {
                http: HttpView { connect_timeout: timeout, ..self@.http },
                ..self@
            }),
    {
        proof {
            use_type_invariant(&self);
        }
        let http = HttpSettings { connect_timeout: timeout, ..self.http.clone() };
        MdsClientBuilder { http, ..self }
    }

    /// Idle keep-alive connections held per gateway host. Default 16.
    pub fn pool_max_idle_per_host(self, n: usize) -> (r: Self)
        ensures
            r@ == (BuilderView {
                http: HttpView { pool_max_idle_per_host: n, ..self@.http },
                ..self@
            }),
    {
        proof {
            use_type_invariant(&self);
        }
        let http = HttpSettings { pool_max_idle_per_host: n, ..self.http.clone() };
        MdsClientBuilder { http, ..self }
    }

    pub fn pool_idle_timeout(self, timeout: Duration) -> (r: Self)
        ensures
            r@ == (BuilderView {
                http: HttpView { pool_idle_timeout: timeout, ..self@.http },
                ..self@
            }),
    {
        proof {
            use_type_invariant(&self);
        }
        let http = HttpSettings { pool_idle_timeout: timeout, ..self.http.clone() };
        MdsClientBuilder { http, ..self }
    }

    /// Default in-flight sends for a batch: at least one. Default 16.
    pub fn concurrency(self, n: usize) -> (r: Self)
        ensures
            r@ == (BuilderView {
                concurrency: if n == 0 {
                    1
                } else {
                    n
                },
                ..self@
            }),
    {
        let concurrency: usize = if n == 0 {
            1
        } else {
            n
        };
        MdsClientBuilder { concurrency, ..self }
    }

    pub fn user_agent(self, ua: &str) -> (r: Self)
        ensures
            r@ == (BuilderView { http: HttpView { user_agent: ua@, ..self@.http }, ..self@ }),
    {
        proof {
            use_type_invariant(&self);
        }
        let http = HttpSettings { user_agent: ua.to_string(), ..self.http.clone() };
        MdsClientBuilder { http, ..self }
    }

    /// Validates the config and constructs the client.
    pub fn build(self) -> (r: Result<MdsClient>)
        ensures
            match r {
                Ok(client) => missing_field(self@.config) is None && built(self@, client@),
                Err(e) => build_error(self@.config, e),
            },
    {
        proof {
            use_type_invariant(&self);
        }
        match self.config.validate() {
            Ok(_) => {},
            Err(e) => return Err(e),
        }
        let endpoint = match Endpoint::parse(self.config.effective_base_url()) {
            Ok(endpoint) => endpoint,
            Err(source) => {
                let url = self.config.effective_base_url().to_string();
                return Err(Error::InvalidBaseUrl { url, source });
            },
        };
        let name = match &self.name {
            Some(name) => name.clone(),
            None => endpoint.parts().host_or("mds"),
        };
        Ok(
            MdsClient {
                name,
                config: self.config.clone(),
                endpoint,
                http: self.http.clone(),
                retry: self.retry,
                concurrency: self.concurrency,
                slow_after: self.slow_after,
            },
        )
    }

    /// The builder for a log.
    pub fn debug_string(&self, has_observer: bool) -> (r: String)
        ensures
            r@ == self@.debug_text(has_observer),
    {
        let mut out = "MdsClientBuilder { name: ".to_string();
        match &self.name {
            Some(name) => {
                let mut some = "Some(".to_string();
                some.append(quote(name).as_str());
                some.append(")");
                out.append(some.as_str());
            },
            None => {
                out.append("None");
            },
        }
        out.append(", timeout: ");
        out.append(write_span(self.http.timeout).as_str());
        out.append(", concurrency: ");
        push_decimal(&mut out, self.concurrency as u128);
        out.append(", has_observer: ");
        out.append(write_truth(has_observer));
        out.append(", .. }");
        out
    }
}

// ---------------------------------------------------------------------------
// Laws
// ---------------------------------------------------------------------------

/// The gateway reads from a request exactly what the client put into it, byte
/// for byte: the credentials, the sender, the route, the text, the number and
/// the template and entity ids, in this order, behind whatever the endpoint's
/// own query says. No `&`, `#` or `%` in a message can cut it short.
pub proof fn lemma_gateway_reads_what_was_sent(
    client: ClientView,
    message: MessageView,
    to: Seq<char>,
)
    ensures
        ({
            let pairs = request_pairs(client.config, message, to);
            &&& client.endpoint.request(pairs) == client.endpoint.stem + seq!['?']
                + client.endpoint.request_query(pairs) + client.endpoint.fragment
            &&& read_query(client.endpoint.request_query(pairs)) == read_query(
                client.endpoint.own_query(),
            ) + pairs_as_bytes(pairs)
            &&& pairs[4] == ("text"@, message.body)
            &&& pairs[5] == ("mobile"@, to)
        }),
{
    lemma_pairs_read_back(
        client.endpoint.own_query(),
        request_pairs(client.config, message, to),
    );
}

} // verus!
