//! Error types of the MDS Media client.

use crate::decimal::{decimal, push_decimal};
use crate::duration::duration_nanos;
use std::time::Duration;
use vstd::prelude::*;

verus! {

/// What is known of a failed HTTP exchange. The request URL is never part of
/// it: that URL carries the API key in its query string.
#[derive(Debug, Clone, PartialEq, Eq)]
pub struct TransportFault {
    /// The exchange ran out of time.
    pub timeout: bool,
    /// No connection could be made.
    pub connect: bool,
    /// The request could not be sent.
    pub request: bool,
    /// What the HTTP client says of it, without the URL.
    pub detail: String,
}

/// Errors returned by [`crate::MdsClient`].
#[derive(Debug)]
#[non_exhaustive]
pub enum Error {
    /// A required credential or setting was missing when building the client.
    MissingConfig(&'static str),
    /// `base_url` could not be parsed as a URL.
    InvalidBaseUrl { url: String, source: String },
    /// The recipient number failed local validation, before any network call.
    InvalidNumber { number: String, reason: &'static str },
    /// The message body was empty or exceeded the configured maximum length.
    InvalidMessage(&'static str),
    /// Building the underlying HTTP client failed.
    HttpClientBuild(String),
    /// Transport-level failure: DNS, connect, TLS, or timeout. `endpoint` names
    /// the host.
    Transport { endpoint: String, elapsed: Duration, source: TransportFault },
    /// The gateway answered, but with a non-2xx HTTP status.
    HttpStatus { status: u16, body: String },
    /// The gateway answered 2xx but the payload signalled a failure
    /// (e.g. `ERROR: Invalid API Key`).
    Rejected { reason: String, raw: String },
    /// The blocking wrapper could not start its runtime.
    Runtime(String),
    /// Every provider in a [`crate::FailoverClient`] failed. Carries each
    /// provider's own error, so the cause is not flattened to the last one.
    AllProvidersFailed(Vec<ProviderFailure>),
    /// Every retry attempt was exhausted. Carries the final underlying error.
    RetriesExhausted { attempts: u32, source: Box<Error> },
}

/// One provider's failure inside [`Error::AllProvidersFailed`].
#[derive(Debug)]
pub struct ProviderFailure {
    pub provider: String,
    pub error: Error,
}

/// Convenience alias.
pub type Result<T> = std::result::Result<T, Error>;

/// The statuses that ask for another try: too many requests, and faults of the
/// server.
pub open spec fn retryable_status(status: u16) -> bool {
    status == 429 || status >= 500
}

/// The statuses that refuse the credentials.
pub open spec fn refused_status(status: u16) -> bool {
    status == 401 || status == 403
}

impl Error {
    /// Another try has a realistic chance of succeeding.
    pub open spec fn retryable(self) -> bool
        decreases self,
    {
        match self {
            Error::Transport { .. } => true,
            Error::HttpStatus { status, .. } => retryable_status(status),
            Error::RetriesExhausted { source, .. } => source.retryable(),
            Error::AllProvidersFailed(failures) => exists|i: int|
                0 <= i < failures@.len() && (#[trigger] failures@[i]).error.retryable(),
            _ => false,
        }
    }

    /// An operator has to look at the configuration or the credentials.
    pub open spec fn fatal(self) -> bool
        decreases self,
    {
        match self {
            Error::MissingConfig(_) => true,
            Error::InvalidBaseUrl { .. } => true,
            Error::HttpClientBuild(_) => true,
            Error::Rejected { .. } => true,
            Error::HttpStatus { status, .. } => refused_status(status),
            Error::AllProvidersFailed(failures) => failures@.len() > 0 && forall|i: int|
                0 <= i < failures@.len() ==> (#[trigger] failures@[i]).error.fatal(),
            _ => false,
        }
    }

    /// Whether retrying this error has a realistic chance of succeeding.
    ///
    /// Transport failures and 5xx / 429 responses are retryable. Validation
    /// errors and gateway rejections (bad credentials, bad template) are not:
    /// retrying those just burns quota.
    pub fn is_retryable(&self) -> (r: bool)
        ensures
            r == self.retryable(),
        decreases self,
    {
        match self {
            Error::Transport { .. } => true,
            Error::HttpStatus { status, .. } => *status == 429 || *status >= 500,
            Error::RetriesExhausted { source, .. } => source.is_retryable(),
            Error::AllProvidersFailed(failures) => {
                let mut i: usize = 0;
                while i < failures.len()
                    invariant
                        i <= failures@.len(),
                        *self == Error::AllProvidersFailed(*failures),
                        forall|j: int|
                            0 <= j < i ==> !(#[trigger] failures@[j]).error.retryable(),
                    decreases failures@.len() - i,
                {
                    assert(decreases_to!(*self => self->AllProvidersFailed_0));
                    assert(decreases_to!(*failures => failures@));
                    assert(decreases_to!(failures@ => failures@[i as int]));
                    assert(decreases_to!(failures@[i as int] => failures@[i as int].error));
                    if failures[i].error.is_retryable() {
                        assert(failures@[i as int].error.retryable());
                        return true;
                    }
                    i += 1;
                }
                false
            },
            _ => false,
        }
    }

    /// Whether the failure is a permanent configuration/credential problem
    /// that an operator needs to look at. Useful for deciding when to page.
    /// A chain of providers is fatal only when no provider could have worked.
    pub fn is_fatal(&self) -> (r: bool)
        ensures
            r == self.fatal(),
        decreases self,
    {
        match self {
            Error::MissingConfig(_) => true,
            Error::InvalidBaseUrl { .. } => true,
            Error::HttpClientBuild(_) => true,
            Error::Rejected { .. } => true,
            Error::HttpStatus { status, .. } => *status == 401 || *status == 403,
            Error::AllProvidersFailed(failures) => {
                let mut i: usize = 0;
                while i < failures.len()
                    invariant
                        i <= failures@.len(),
                        *self == Error::AllProvidersFailed(*failures),
                        forall|j: int| 0 <= j < i ==> (#[trigger] failures@[j]).error.fatal(),
                    decreases failures@.len() - i,
                {
                    assert(decreases_to!(*self => self->AllProvidersFailed_0));
                    assert(decreases_to!(*failures => failures@));
                    assert(decreases_to!(failures@ => failures@[i as int]));
                    assert(decreases_to!(failures@[i as int] => failures@[i as int].error));
                    if !failures[i].error.is_fatal() {
                        assert(!failures@[i as int].error.fatal());
                        return false;
                    }
                    i += 1;
                }
                failures.len() > 0
            },
            _ => false,
        }
    }
}

// ---------------------------------------------------------------------------
// Messages
// ---------------------------------------------------------------------------

/// `text` between double quotes, escaped as `<str as Debug>::fmt` writes it.
pub uninterp spec fn quoted(text: Seq<char>) -> Seq<char>;

/// `<str as Debug>::fmt`. What it writes is a function of the text alone, and
/// is named [`quoted`].
#[verifier::external_body]
pub(crate) fn quote(text: &str) -> (r: String)
    ensures
        r@ == quoted(text@),
{
    format!("{text:?}")
}

/// A span of `nanos` nanoseconds as `<Duration as Debug>::fmt` writes it.
pub uninterp spec fn span_text(nanos: nat) -> Seq<char>;

/// `<Duration as Debug>::fmt`. What it writes is a function of the length of
/// the span alone, and is named [`span_text`].
#[verifier::external_body]
pub(crate) fn write_span(span: Duration) -> (r: String)
    ensures
        r@ == span_text(duration_nanos(span)),
{
    format!("{span:?}")
}

impl Error {
    /// The message of the error.
    pub open spec fn text(self) -> Seq<char>
        decreases self, 0nat,
    {
        match self {
            Error::MissingConfig(field) => "missing configuration field: "@ + field@,
            Error::InvalidBaseUrl { url, source } => "invalid base_url "@ + quoted(url@) + ": "@
                + source@,
            Error::InvalidNumber { number, reason } => "invalid phone number "@ + quoted(number@)
                + ": "@ + reason@,
            Error::InvalidMessage(reason) => "invalid message: "@ + reason@,
            Error::HttpClientBuild(source) => "failed to build HTTP client: "@ + source@,
            Error::Transport { endpoint, elapsed, source } => "transport error contacting "@
                + endpoint@ + " after "@ + span_text(duration_nanos(elapsed)) + ": "@
                + source.detail@,
            Error::HttpStatus { status, body } => "gateway returned HTTP "@ + decimal(status as nat)
                + ": "@ + body@,
            Error::Rejected { reason, raw } => "gateway rejected the message: "@ + reason@
                + " (raw: "@ + raw@ + ")"@,
            Error::Runtime(source) => "failed to start the blocking runtime: "@ + source@,
            Error::AllProvidersFailed(failures) => "all "@ + decimal(failures@.len())
                + " provider(s) failed: "@ + summary(failures@, failures@.len()),
            Error::RetriesExhausted { attempts, source } => "giving up after "@ + decimal(
                attempts as nat,
            ) + " attempt(s): "@ + source.text(),
        }
    }
}

/// The first `n` failures, each as `provider: message`, separated by `; `.
pub open spec fn summary(failures: Seq<ProviderFailure>, n: nat) -> Seq<char>
    decreases failures, n,
{
    if n == 0 || n > failures.len() {
        Seq::empty()
    } else {
        let failure = failures[n - 1];
        let own = failure.provider@ + ": "@ + failure.error.text();
        if n == 1 {
            own
        } else {
            summary(failures, (n - 1) as nat) + "; "@ + own
        }
    }
}

impl ProviderFailure {
    /// The failure as `provider: message`.
    pub open spec fn text(self) -> Seq<char> {
        self.provider@ + ": "@ + self.error.text()
    }

    /// The failure as `provider: message`.
    pub fn to_string(&self) -> (r: String)
        ensures
            r@ == self.text(),
        decreases *self, 0nat,
    {
        assert(decreases_to!(*self => self.error));
        let mut out = self.provider.clone();
        out.append(": ");
        out.append(self.error.to_string().as_str());
        out
    }
}

impl Error {
    /// The message of the error.
    pub fn to_string(&self) -> (r: String)
        ensures
            r@ == self.text(),
        decreases *self, 0nat,
    {
        match self {
            Error::MissingConfig(field) => {
                let mut out = "missing configuration field: ".to_string();
                out.append(field);
                out
            },
            Error::InvalidBaseUrl { url, source } => {
                let mut out = "invalid base_url ".to_string();
                out.append(quote(url).as_str());
                out.append(": ");
                out.append(source.as_str());
                out
            },
            Error::InvalidNumber { number, reason } => {
                let mut out = "invalid phone number ".to_string();
                out.append(quote(number).as_str());
                out.append(": ");
                out.append(reason);
                out
            },
            Error::InvalidMessage(reason) => {
                let mut out = "invalid message: ".to_string();
                out.append(reason);
                out
            },
            Error::HttpClientBuild(source) => {
                let mut out = "failed to build HTTP client: ".to_string();
                out.append(source.as_str());
                out
            },
            Error::Transport { endpoint, elapsed, source } => {
                let mut out = "transport error contacting ".to_string();
                out.append(endpoint.as_str());
                out.append(" after ");
                out.append(write_span(*elapsed).as_str());
                out.append(": ");
                out.append(source.detail.as_str());
                out
            },
            Error::HttpStatus { status, body } => {
                let mut out = "gateway returned HTTP ".to_string();
                push_decimal(&mut out, *status as u128);
                out.append(": ");
                out.append(body.as_str());
                out
            },
            Error::Rejected { reason, raw } => {
                let mut out = "gateway rejected the message: ".to_string();
                out.append(reason.as_str());
                out.append(" (raw: ");
                out.append(raw.as_str());
                out.append(")");
                out
            },
            Error::Runtime(source) => {
                let mut out = "failed to start the blocking runtime: ".to_string();
                out.append(source.as_str());
                out
            },
            Error::AllProvidersFailed(failures) => {
                let mut out = "all ".to_string();
                push_decimal(&mut out, failures.len() as u128);
                out.append(" provider(s) failed: ");
                assert(decreases_to!(*self => self->AllProvidersFailed_0));
                assert(decreases_to!(*failures => failures@));
                out.append(summarize(failures).as_str());
                out
            },
            Error::RetriesExhausted { attempts, source } => {
                let mut out = "giving up after ".to_string();
                push_decimal(&mut out, *attempts as u128);
                out.append(" attempt(s): ");
                assert(decreases_to!(*self => self->RetriesExhausted_source));
                out.append(source.to_string().as_str());
                out
            },
        }
    }
}

/// Each failure as `provider: message`, separated by `; `.
fn summarize(failures: &Vec<ProviderFailure>) -> (r: String)
    ensures
        r@ == summary(failures@, failures@.len()),
    decreases failures@, 0nat,
{
    let mut out = String::new();
    let mut i: usize = 0;
    while i < failures.len()
        invariant
            i <= failures@.len(),
            out@ == summary(failures@, i as nat),
        decreases failures@.len() - i,
    {
        let ghost before = out@;
        assert(decreases_to!(failures@ => failures@[i as int]));
        let own = failures[i].to_string();
        if i > 0 {
            out.append("; ");
        }
        out.append(own.as_str());
        assert(out@ =~= summary(failures@, (i + 1) as nat));
        i += 1;
    }
    out
}

// ---------------------------------------------------------------------------
// Laws
// ---------------------------------------------------------------------------

/// No error is both worth another try and a matter for an operator.
pub proof fn lemma_retryable_is_not_fatal(error: Error)
    ensures
        !(error.retryable() && error.fatal()),
    decreases error,
{
    match error {
        Error::RetriesExhausted { source, .. } => {
            lemma_retryable_is_not_fatal(*source);
        },
        Error::AllProvidersFailed(failures) => {
            if error.retryable() {
                let i = choose|i: int|
                    0 <= i < failures@.len() && (#[trigger] failures@[i]).error.retryable();
                assert(decreases_to!(error => error->AllProvidersFailed_0));
                assert(decreases_to!(failures => failures@));
                assert(decreases_to!(failures@ => failures@[i]));
                assert(decreases_to!(failures@[i] => failures@[i].error));
                lemma_retryable_is_not_fatal(failures@[i].error);
            }
        },
        _ => {},
    }
}

/// Validation errors and gateway rejections are never worth another try, with
/// or without the retries that went before.
pub proof fn lemma_considered_answers_are_final(error: Error, attempts: u32)
    requires
        error is MissingConfig || error is InvalidBaseUrl || error is InvalidNumber
            || error is InvalidMessage || error is Rejected,
    ensures
        !error.retryable(),
        !(Error::RetriesExhausted { attempts, source: Box::new(error) }).retryable(),
{
    reveal_with_fuel(Error::retryable, 2);
}

/// Transport failures, 429 and all of 500 and above are worth another try, and
/// so is what retries or a chain of providers made of one; nothing else is.
pub proof fn lemma_what_is_worth_another_try(error: Error)
    ensures
        error.retryable() == match error {
            Error::Transport { .. } => true,
            Error::HttpStatus { status, .. } => status == 429 || status >= 500,
            Error::RetriesExhausted { source, .. } => source.retryable(),
            Error::AllProvidersFailed(failures) => !(forall|i: int|
                0 <= i < failures@.len() ==> !(#[trigger] failures@[i]).error.retryable()),
            Error::MissingConfig(_) => false,
            Error::InvalidBaseUrl { .. } => false,
            Error::InvalidNumber { .. } => false,
            Error::InvalidMessage(_) => false,
            Error::HttpClientBuild(_) => false,
            Error::Rejected { .. } => false,
            Error::Runtime(_) => false,
        },
{
}

/// An operator has to look at a missing setting, a base URL that is none, an
/// HTTP client that cannot be built, a rejection, refused credentials, and a
/// chain all of whose providers failed so; at nothing else.
pub proof fn lemma_what_an_operator_has_to_look_at(error: Error)
    ensures
        error.fatal() == match error {
            Error::MissingConfig(_) => true,
            Error::InvalidBaseUrl { .. } => true,
            Error::HttpClientBuild(_) => true,
            Error::Rejected { .. } => true,
            Error::HttpStatus { status, .. } => status == 401 || status == 403,
            Error::AllProvidersFailed(failures) => failures@.len() > 0 && !(exists|i: int|
                0 <= i < failures@.len() && !(#[trigger] failures@[i]).error.fatal()),
            Error::Transport { .. } => false,
            Error::InvalidNumber { .. } => false,
            Error::InvalidMessage(_) => false,
            Error::Runtime(_) => false,
            Error::RetriesExhausted { .. } => false,
        },
{
}

} // verus!
