//! One send, from the message to its outcome.
//!
//! A [`Submission`] decides; it does not wait and does not talk to the gateway.
//! Its owner issues the request when told to, hands back what came of it, and
//! sleeps for the delay that a retry asks for.

use crate::bytes::{byte_len, truncate, truncated};
use crate::client::{request_fits, request_pairs, ClientView, MdsClient};
use crate::config::{lemma_delay_is_bounded, normalized_number, ConfigView, RetryPolicy};
use crate::duration::duration_nanos;
use crate::error::{retryable_status, Error, Result, TransportFault};
use crate::json::json_document;
use crate::message::{body_fault, Message, MessageView};
use crate::observer::Event;
use crate::response::{parse_body, verdict, Parsed, ParsedView, Response};
use crate::text::{copy_opt, opt_text, trimmed};
use std::time::Duration;
use vstd::prelude::*;
use vstd::utf8::encode_utf8;

verus! {

/// How much of the body of an HTTP error is kept, in bytes.
pub const MAX_ERROR_BODY: usize = 512;

// ---------------------------------------------------------------------------
// Seeds
// ---------------------------------------------------------------------------

/// A hash of bytes in the manner of FNV-1a: each byte in turn is mixed into the
/// hash, which is then multiplied by a constant.
pub open spec fn hashed(bytes: Seq<u8>) -> u64
    decreases bytes.len(),
{
    if bytes.len() == 0 {
        0xcbf2_9ce4_8422_2325
    } else {
        (hashed(bytes.drop_last()) ^ bytes.last() as u64).wrapping_mul(0x1000_0000_01b3)
    }
}

/// Stable per-recipient seed, so retry jitter differs between recipients but
/// stays reproducible for a given one.
pub fn seed_from(s: &str) -> (r: u64)
    ensures
        r == hashed(encode_utf8(s@)),
{
    let bytes = s.as_bytes();
    let mut hash: u64 = 0xcbf2_9ce4_8422_2325;
    let mut i: usize = 0;
    while i < bytes.len()
        invariant
            i <= bytes@.len(),
            hash == hashed(bytes@.take(i as int)),
        decreases bytes@.len() - i,
    {
        assert(bytes@.take(i + 1).drop_last() =~= bytes@.take(i as int));
        hash = (hash ^ bytes[i] as u64).wrapping_mul(0x1000_0000_01b3);
        i += 1;
    }
    assert(bytes@.take(i as int) =~= bytes@);
    hash
}

// ---------------------------------------------------------------------------
// Replies
// ---------------------------------------------------------------------------

/// What came of a request.
#[derive(Debug)]
pub enum Reply {
    /// The gateway answered.
    Answered { status: u16, body: String },
    /// The exchange failed.
    Broken(TransportFault),
}

impl Reply {
    /// The gateway answered with a 2xx status.
    pub open spec fn delivered(self) -> bool {
        self matches Reply::Answered { status, .. } && 200 <= status < 300
    }

    /// The request failed, and may succeed the next time.
    pub open spec fn transient(self) -> bool {
        match self {
            Reply::Answered { status, .. } => retryable_status(status),
            Reply::Broken(_) => true,
        }
    }

    /// What a 2xx answer says; a request without an answer was not refused.
    pub open spec fn verdict(self) -> ParsedView {
        match self {
            Reply::Answered { body, .. } => verdict(body@, json_document(trimmed(body@))),
            Reply::Broken(_) => ParsedView::Accepted { message_id: None },
        }
    }

    /// `error` is what a request that failed, after `elapsed` and at the
    /// endpoint so labelled, is reported as.
    pub open spec fn reported_as(self, label: Seq<char>, elapsed: Duration, error: Error) -> bool {
        match self {
            Reply::Answered { status, body } => error matches Error::HttpStatus {
                status: s,
                body: kept,
            } && s == status && kept@ == truncated(body@, MAX_ERROR_BODY as nat),
            Reply::Broken(fault) => error matches Error::Transport { endpoint, elapsed: e, source }
                && endpoint@ == label && e == elapsed && source == fault,
        }
    }
}

// ---------------------------------------------------------------------------
// Submissions
// ---------------------------------------------------------------------------

/// Where a submission stands.
#[derive(Debug, Clone, Copy, PartialEq, Eq, Structural)]
pub enum Phase {
    /// The next request can be issued.
    Ready,
    /// A request is under way.
    Waiting,
    /// The send is over.
    Over,
}

/// A message on its way to one recipient.
pub struct Submission {
    provider: String,
    to: String,
    url: String,
    label: String,
    reference: Option<String>,
    retry: RetryPolicy,
    slow_after: Duration,
    seed: u64,
    attempt: u32,
    phase: Phase,
}

/// The model of a [`Submission`].
pub struct SubmissionView {
    /// The name of the client.
    pub provider: Seq<char>,
    /// The normalized recipient.
    pub to: Seq<char>,
    /// The request.
    pub url: Seq<char>,
    /// `host:port` of the gateway.
    pub label: Seq<char>,
    pub reference: Option<Seq<char>>,
    pub retry: RetryPolicy,
    pub slow_after: Duration,
    pub seed: u64,
    /// How many requests were issued.
    pub attempt: u32,
    pub phase: Phase,
}

impl View for Submission {
    type V = SubmissionView;

    closed spec fn view(&self) -> SubmissionView {
        SubmissionView {
            provider: self.provider@,
            to: self.to@,
            url: self.url@,
            label: self.label@,
            reference: opt_text(self.reference),
            retry: self.retry,
            slow_after: self.slow_after,
            seed: self.seed,
            attempt: self.attempt,
            phase: self.phase,
        }
    }
}

/// The submission that a client makes of a message to the normalized number
/// `to`.
pub open spec fn prepared(client: ClientView, message: MessageView, to: Seq<char>) -> SubmissionView {
    SubmissionView {
        provider: client.name,
        to,
        url: client.endpoint.request(request_pairs(client.config, message, to)),
        label: client.endpoint_label(),
        reference: message.reference,
        retry: client.retry,
        slow_after: client.slow_after,
        seed: hashed(encode_utf8(to)),
        attempt: 0,
        phase: Phase::Ready,
    }
}

impl SubmissionView {
    /// The submission once its next request is issued.
    pub open spec fn begun(self) -> SubmissionView {
        SubmissionView {
            attempt: (self.attempt + 1) as u32,
            phase: Phase::Waiting,
            ..self
        }
    }

    /// The submission once it took a reply by this step.
    pub open spec fn concluded(self, step: Step) -> SubmissionView {
        SubmissionView {
            phase: if step is Retry {
                Phase::Ready
            } else {
                Phase::Over
            },
            ..self
        }
    }

    /// The event says that the request at hand is about to be issued.
    pub open spec fn announces(self, event: Event<'_>) -> bool {
        event matches Event::Attempt { provider, to, attempt } && provider@ == self.provider && to@
            == self.to && attempt == self.attempt
    }
}

/// How a step of a submission ends.
#[derive(Debug)]
pub enum Step {
    /// The gateway accepted the message; `slow` if that took too long.
    Accepted { response: Response, slow: bool },
    /// The send failed for good.
    Failed { error: Error },
    /// The request failed, and is to be issued again after `delay`.
    Retry { error: Error, delay: Duration },
}

/// The kinds of steps.
pub enum StepKind {
    Accepted,
    Rejected,
    GaveUp,
    Retry,
}

/// The kind of step that a reply to request number `attempt` leads to. Only a
/// transient failure is retried, and only so many times.
pub open spec fn step_kind(reply: Reply, attempt: u32, max_retries: u32) -> StepKind {
    if reply.delivered() {
        if reply.verdict() is Accepted {
            StepKind::Accepted
        } else {
            StepKind::Rejected
        }
    } else if reply.transient() && attempt <= max_retries {
        StepKind::Retry
    } else {
        StepKind::GaveUp
    }
}

impl SubmissionView {
    /// `step` is how a submission ends to which the gateway answered with a 2xx
    /// status: with what the answer says, and the answer as it came.
    pub open spec fn settles(
        self,
        status: u16,
        body: Seq<char>,
        parsed: ParsedView,
        total: Duration,
        step: Step,
    ) -> bool {
        match parsed {
            ParsedView::Accepted { message_id } => {
                &&& step matches Step::Accepted { response, slow }
                &&& response.provider@ == self.provider
                &&& opt_text(response.message_id) == message_id
                &&& response.to@ == self.to
                &&& response.status == status
                &&& response.raw@ == body
                &&& response.elapsed == total
                &&& response.attempts == self.attempt
                &&& opt_text(response.reference) == self.reference
                &&& slow == (duration_nanos(total) > duration_nanos(self.slow_after))
            },
            ParsedView::Rejected { reason } => {
                &&& step matches Step::Failed { error: Error::Rejected { reason: why, raw } }
                &&& why@ == reason
                &&& raw@ == body
            },
        }
    }

    /// `error` is what is reported of a request that failed and is not issued
    /// again: its own error, inside [`Error::RetriesExhausted`] if it is a
    /// transient one that the retries did not outlast.
    pub open spec fn given_up_with(self, reply: Reply, elapsed: Duration, error: Error) -> bool {
        if self.attempt > 1 && reply.transient() {
            error matches Error::RetriesExhausted { attempts, source } && attempts == self.attempt
                && reply.reported_as(self.label, elapsed, *source)
        } else {
            reply.reported_as(self.label, elapsed, error)
        }
    }

    /// `step` is how the submission takes a reply that came `elapsed` after the
    /// request, and `total` after the send was started.
    pub open spec fn takes(
        self,
        reply: Reply,
        elapsed: Duration,
        total: Duration,
        step: Step,
    ) -> bool {
        match step_kind(reply, self.attempt, self.retry.max_retries) {
            StepKind::Accepted | StepKind::Rejected => reply matches Reply::Answered { status, body }
                && self.settles(status, body@, reply.verdict(), total, step),
            StepKind::GaveUp => step matches Step::Failed { error } && self.given_up_with(
                reply,
                elapsed,
                error,
            ),
            StepKind::Retry => step matches Step::Retry { error, delay } && reply.reported_as(
                self.label,
                elapsed,
                error,
            ) && duration_nanos(delay) == self.retry.backoff_millis(self.attempt, self.seed)
                * 1_000_000,
        }
    }
}

/// The request that a client makes of a message fits into a URL. A message whose
/// body or number is refused needs no request.
pub open spec fn room_for(client: ClientView, message: MessageView) -> bool {
    body_fault(message.body) is None ==> (normalized_number(
        client.config.default_country_code,
        message.to,
    ) matches Ok(to) ==> request_fits(client, message, to))
}

impl MdsClient {
    /// Whether the request for a message fits into a URL. A message whose body or
    /// number is refused needs no request.
    pub fn has_room_for(&self, message: &Message) -> (r: bool)
        ensures
            r == room_for(self@, message@),
    {
        if message.validate().is_err() {
            return true;
        }
        match self.normalize(message.recipient()) {
            Ok(to) => self.fits(message, &to),
            Err(_) => true,
        }
    }

    /// Validates a message and makes its submission, before anything is sent.
    ///
    /// A body that is empty or too long fails first, then a number that cannot
    /// be normalized.
    pub fn prepare(&self, message: &Message) -> (r: Result<Submission>)
        requires
            room_for(self@, message@),
        ensures
            match r {
                Ok(submission) => body_fault(message@.body) is None && normalized_number(
                    self@.config.default_country_code,
                    message@.to,
                ) is Ok && submission@ == prepared(
                    self@,
                    message@,
                    normalized_number(self@.config.default_country_code, message@.to)->Ok_0,
                ),
                Err(e) => match body_fault(message@.body) {
                    Some(fault) => e matches Error::InvalidMessage(reason) && reason@ == fault,
                    None => e matches Error::InvalidNumber { number, reason } && number@
                        == message@.to && normalized_number(
                        self@.config.default_country_code,
                        message@.to,
                    ) == Err::<Seq<char>, Seq<char>>(reason@),
                },
            },
    {
        match message.validate() {
            Ok(_) => {},
            Err(e) => return Err(e),
        }
        let to = match self.config().normalize_number(message.recipient()) {
            Ok(to) => to,
            Err(e) => return Err(e),
        };
        let url = self.build_url(message, &to);
        let seed: u64 = seed_from(&to);
        Ok(
            Submission {
                provider: self.name().to_string(),
                to,
                url,
                label: self.endpoint_label(),
                reference: copy_opt(message.tag()),
                retry: self.retry(),
                slow_after: self.slow_after(),
                seed,
                attempt: 0,
                phase: Phase::Ready,
            },
        )
    }
}

/// Turns the reply to a request into the status and body of a 2xx answer, or
/// the error that the request is reported as.
pub fn judge_reply(reply: Reply, label: &str, elapsed: Duration) -> (r: Result<(u16, String)>)
    ensures
        match r {
            Ok((status, body)) => reply.delivered() && reply == (Reply::Answered { status, body }),
            Err(error) => !reply.delivered() && reply.reported_as(label@, elapsed, error),
        },
{
    match reply {
        Reply::Answered { status, body } => {
            if 200 <= status && status < 300 {
                Ok((status, body))
            } else {
                Err(Error::HttpStatus { status, body: truncate(&body, MAX_ERROR_BODY) })
            }
        },
        Reply::Broken(source) => {
            Err(Error::Transport { endpoint: label.to_string(), elapsed, source })
        },
    }
}

impl Submission {
    /// A submission ready for its next request has retries left, and one that
    /// waits has made no more requests than it may.
    #[verifier::type_invariant]
    spec fn well_formed(self) -> bool {
        &&& self.phase == Phase::Ready ==> self.attempt <= self.retry.max_retries
        &&& self.phase == Phase::Waiting ==> 1 <= self.attempt <= self.retry.max_retries + 1
    }

    pub fn phase(&self) -> (r: Phase)
        ensures
            r == self@.phase,
    {
        self.phase
    }

    /// How many requests were issued.
    pub fn attempt(&self) -> (r: u32)
        ensures
            r == self@.attempt,
    {
        self.attempt
    }

    /// The normalized recipient.
    pub fn to(&self) -> (r: &str)
        ensures
            r@ == self@.to,
    {
        self.to.as_str()
    }

    /// The request to issue. It carries the API key: do not log it.
    pub fn url(&self) -> (r: &str)
        ensures
            r@ == self@.url,
    {
        self.url.as_str()
    }

    /// Notes that the next request is about to be issued.
    pub fn begin(&mut self)
        requires
            old(self)@.phase == Phase::Ready,
            old(self)@.attempt < u32::MAX,
        ensures
            final(self)@ == old(self)@.begun(),
    {
        proof {
            use_type_invariant(&*self);
        }
        // No promise is made on the attempts of a submission that is over.
        self.phase = Phase::Over;
        self.attempt += 1;
        self.phase = Phase::Waiting;
    }

    /// The event for the request under way.
    pub fn attempt_event(&self) -> (r: Event<'_>)
        ensures
            self@.announces(r),
    {
        Event::Attempt {
            provider: self.provider.as_str(),
            to: self.to.as_str(),
            attempt: self.attempt,
        }
    }

    /// Ends the send with what a 2xx answer says, `total` after it was started.
    pub fn settle(&self, status: u16, body: String, parsed: Parsed, total: Duration) -> (r: Step)
        ensures
            self@.settles(status, body@, parsed@, total, r),
    {
        match parsed {
            Parsed::Accepted { message_id } => {
                let slow = total.as_nanos() > self.slow_after.as_nanos();
                let response = Response {
                    provider: self.provider.clone(),
                    message_id,
                    to: self.to.clone(),
                    status,
                    raw: body,
                    elapsed: total,
                    attempts: self.attempt,
                    reference: copy_opt(&self.reference),
                };
                Step::Accepted { response, slow }
            },
            Parsed::Rejected { reason } => {
                Step::Failed { error: Error::Rejected { reason, raw: body } }
            },
        }
    }

    /// Takes the reply to the request under way, which came `elapsed` after it
    /// was issued and `total` after the send was started.
    ///
    /// A rejection is the gateway's considered answer, and ends the send at
    /// once. A transient failure is retried as long as the policy allows.
    pub fn conclude(&mut self, reply: Reply, elapsed: Duration, total: Duration) -> (r: Step)
        requires
            old(self)@.phase == Phase::Waiting,
        ensures
            old(self)@.takes(reply, elapsed, total, r),
            final(self)@ == old(self)@.concluded(r),
    {
        proof {
            use_type_invariant(&*self);
        }
        let ghost given = reply;
        match judge_reply(reply, self.label.as_str(), elapsed) {
            Ok((status, body)) => {
                self.phase = Phase::Over;
                let parsed = parse_body(&body);
                self.settle(status, body, parsed, total)
            },
            Err(error) => {
                let transient = error.is_retryable();
                assert(transient == given.transient());
                if transient && self.attempt <= self.retry.max_retries {
                    let delay = self.retry.backoff_for(self.attempt, self.seed);
                    self.phase = Phase::Ready;
                    Step::Retry { error, delay }
                } else if transient && self.attempt > 1 {
                    self.phase = Phase::Over;
                    Step::Failed {
                        error: Error::RetriesExhausted {
                            attempts: self.attempt,
                            source: Box::new(error),
                        },
                    }
                } else {
                    self.phase = Phase::Over;
                    Step::Failed { error }
                }
            },
        }
    }

    /// The events that a step gives rise to, in order.
    pub fn step_events<'a>(&'a self, step: &'a Step) -> (r: Vec<Event<'a>>)
        ensures
            reports(self@, *step, r@),
    {
        let mut events: Vec<Event<'a>> = Vec::new();
        let provider = self.provider.as_str();
        let to = self.to.as_str();
        match step {
            Step::Accepted { response, slow } => {
                if *slow {
                    events.push(Event::Slow { provider, to, elapsed: response.elapsed });
                }
                events.push(Event::Accepted { provider, response });
            },
            Step::Failed { error } => {
                events.push(Event::Failed { provider, to, error });
            },
            Step::Retry { error, delay } => {
                events.push(
                    Event::Retrying { provider, to, attempt: self.attempt, delay: *delay, error },
                );
            },
        }
        events
    }
}

/// The events are those of the step: the acceptance, after a warning if it was
/// slow; the failure; or the retry.
pub open spec fn reports(submission: SubmissionView, step: Step, events: Seq<Event<'_>>) -> bool {
    match step {
        Step::Accepted { response, slow } => {
            &&& events.len() == (if slow {
                2int
            } else {
                1int
            })
            &&& slow ==> (events[0] matches Event::Slow { provider, to, elapsed } && provider@
                == submission.provider && to@ == submission.to && elapsed == response.elapsed)
            &&& events.last() matches Event::Accepted { provider, response: r } && provider@
                == submission.provider && *r == response
        },
        Step::Failed { error } => {
            &&& events.len() == 1
            &&& events[0] matches Event::Failed { provider, to, error: e } && provider@
                == submission.provider && to@ == submission.to && *e == error
        },
        Step::Retry { error, delay } => {
            &&& events.len() == 1
            &&& events[0] matches Event::Retrying { provider, to, attempt, delay: d, error: e }
                && provider@ == submission.provider && to@ == submission.to && attempt
                == submission.attempt && d == delay && *e == error
        },
    }
}

// ---------------------------------------------------------------------------
// Laws
// ---------------------------------------------------------------------------

/// A rejection is never retried, however many retries are left.
pub proof fn lemma_rejections_are_not_retried(reply: Reply, attempt: u32, max_retries: u32)
    requires
        reply.delivered(),
        reply.verdict() is Rejected,
    ensures
        step_kind(reply, attempt, max_retries) is Rejected,
{
}

/// A step that ends the send is reported by exactly one event that says so, the
/// last one; a retry by none.
pub proof fn lemma_one_final_event(submission: SubmissionView, step: Step, events: Seq<Event<'_>>)
    requires
        reports(submission, step, events),
    ensures
        step is Retry ==> (forall|i: int|
            0 <= i < events.len() ==> !(#[trigger] events[i]).terminal()),
        !(step is Retry) ==> events.len() > 0 && (forall|i: int|
            0 <= i < events.len() ==> ((#[trigger] events[i]).terminal() <==> i == events.len()
                - 1)),
{
}

/// The error of a send speaks of exhausted retries exactly when there were some
/// and none is left: the request failed in a way that another try might not
/// have, it was not the first, and the policy allows no other. It names the
/// number of requests. Any other failure comes back as it is.
pub proof fn lemma_exhausted_means_no_retry_is_left(
    submission: SubmissionView,
    reply: Reply,
    elapsed: Duration,
    total: Duration,
    step: Step,
)
    requires
        submission.takes(reply, elapsed, total, step),
    ensures
        step matches Step::Failed { error } ==> (error is RetriesExhausted <==> {
            &&& !reply.delivered()
            &&& reply.transient()
            &&& submission.attempt > 1
            &&& submission.attempt > submission.retry.max_retries
        }),
        step matches Step::Failed { error: Error::RetriesExhausted { attempts, .. } } ==> attempts
            == submission.attempt,
{
}

// ---------------------------------------------------------------------------
// Whole sends
// ---------------------------------------------------------------------------

/// One request of a send: the event that announces it, the reply and when it
/// came, the step that it led to, and the events that report the step.
pub struct Round<'a> {
    pub announced: Event<'a>,
    pub reply: Reply,
    pub elapsed: Duration,
    pub total: Duration,
    pub step: Step,
    pub reported: Seq<Event<'a>>,
}

/// The rounds are those of a whole send, from a submission that is ready to the
/// step that ends it: [`Submission::begin`], [`Submission::attempt_event`],
/// [`Submission::conclude`] and [`Submission::step_events`] in turn, again after
/// each retry.
pub open spec fn whole_send(submission: SubmissionView, rounds: Seq<Round<'_>>) -> bool
    decreases rounds.len(),
{
    &&& rounds.len() > 0
    &&& submission.phase == Phase::Ready
    &&& submission.attempt < u32::MAX
    &&& {
        let round = rounds[0];
        let waiting = submission.begun();
        let after = waiting.concluded(round.step);
        &&& waiting.announces(round.announced)
        &&& waiting.takes(round.reply, round.elapsed, round.total, round.step)
        &&& reports(after, round.step, round.reported)
        &&& if round.step is Retry {
            whole_send(after, rounds.drop_first())
        } else {
            rounds.len() == 1
        }
    }
}

/// All events of a send, in order.
pub open spec fn all_events<'a>(rounds: Seq<Round<'a>>) -> Seq<Event<'a>>
    decreases rounds.len(),
{
    if rounds.len() == 0 {
        Seq::empty()
    } else {
        seq![rounds[0].announced] + rounds[0].reported + all_events(rounds.drop_first())
    }
}

/// The event at place `k` of a send whose first request is number `first`, up to
/// the last request: requests and retries take turns.
pub open spec fn numbered(event: Event<'_>, k: int, first: int) -> bool {
    if k % 2 == 0 {
        event matches Event::Attempt { attempt, .. } && attempt == first + k / 2
    } else {
        event matches Event::Retrying { attempt, .. } && attempt == first + k / 2
    }
}

/// The events of a send of `n` requests, the first of them number `first`, that
/// ends with `last`: each request is announced, each but the last is followed
/// by the retry, and the last by exactly one event that ends the send, perhaps
/// after a warning that it was slow. All come from `provider`.
pub open spec fn lifecycle(
    events: Seq<Event<'_>>,
    first: int,
    n: int,
    last: Step,
    provider: Seq<char>,
) -> bool {
    let slow: int = if last matches Step::Accepted { slow, .. } && slow {
        1
    } else {
        0
    };
    &&& events.len() == 2 * n + slow
    &&& forall|k: int| 0 <= k < 2 * n - 1 ==> numbered(#[trigger] events[k], k, first)
    &&& slow == 1 ==> events[2 * n - 1] is Slow
    &&& match last {
        Step::Accepted { response, .. } => events.last() matches Event::Accepted { response: r, .. }
            && *r == response,
        Step::Failed { error } => events.last() matches Event::Failed { error: e, .. } && *e
            == error,
        Step::Retry { .. } => false,
    }
    &&& forall|i: int|
        0 <= i < events.len() ==> ((#[trigger] events[i]).terminal() <==> i == events.len() - 1)
    &&& forall|i: int| 0 <= i < events.len() ==> (#[trigger] events[i]).origin() == provider
}

proof fn lemma_lifecycle_extends(
    announced: Event<'_>,
    retrying: Event<'_>,
    tail: Seq<Event<'_>>,
    first: int,
    n: int,
    last: Step,
    provider: Seq<char>,
)
    requires
        n > 0,
        lifecycle(tail, first + 1, n, last, provider),
        numbered(announced, 0, first),
        numbered(retrying, 1, first),
        announced.origin() == provider,
        retrying.origin() == provider,
    ensures
        lifecycle(seq![announced, retrying] + tail, first, n + 1, last, provider),
{
    let events = seq![announced, retrying] + tail;
    assert forall|k: int| 0 <= k < 2 * (n + 1) - 1 implies numbered(
        #[trigger] events[k],
        k,
        first,
    ) by {
        if k > 1 {
            assert(events[k] == tail[k - 2]);
            assert(numbered(tail[k - 2], k - 2, first + 1));
        }
    }
    assert forall|k: int| 0 <= k < events.len() implies ((#[trigger] events[k]).terminal() <==> k
        == events.len() - 1) && events[k].origin() == provider by {
        if k > 1 {
            assert(events[k] == tail[k - 2]);
        }
    }
    assert(events.last() == tail.last());
    assert(events[2 * (n + 1) - 1] == tail[2 * n - 1]);
}

proof fn lemma_retry_is_allowed(
    submission: SubmissionView,
    reply: Reply,
    elapsed: Duration,
    total: Duration,
    step: Step,
)
    requires
        submission.takes(reply, elapsed, total, step),
        step is Retry,
    ensures
        submission.attempt <= submission.retry.max_retries,
{
}

proof fn lemma_lifecycle_ends(
    submission: SubmissionView,
    announced: Event<'_>,
    step: Step,
    reported: Seq<Event<'_>>,
)
    requires
        submission.announces(announced),
        reports(submission, step, reported),
        !(step is Retry),
    ensures
        lifecycle(
            seq![announced] + reported,
            submission.attempt as int,
            1,
            step,
            submission.provider,
        ),
{
    let events = seq![announced] + reported;
    assert(events.last() == reported.last());
    assert forall|k: int| 0 <= k < events.len() implies ((#[trigger] events[k]).terminal() <==> k
        == events.len() - 1) && events[k].origin() == submission.provider by {
        if k > 0 {
            assert(events[k] == reported[k - 1]);
        }
    }
}

/// What holds of the first round of a send.
proof fn lemma_first_round(submission: SubmissionView, rounds: Seq<Round<'_>>)
    requires
        whole_send(submission, rounds),
        submission.attempt <= submission.retry.max_retries,
    ensures
        rounds.len() > 0,
        ({
            let round = rounds[0];
            let rest = rounds.drop_first();
            let waiting = submission.begun();
            let after = waiting.concluded(round.step);
            &&& waiting.attempt == submission.attempt + 1
            &&& waiting.announces(round.announced)
            &&& reports(after, round.step, round.reported)
            &&& if round.step is Retry {
                whole_send(after, rest) && waiting.attempt <= submission.retry.max_retries
            } else {
                rest.len() == 0
            }
        }),
{
    let round = rounds[0];
    if round.step is Retry {
        lemma_retry_is_allowed(
            submission.begun(),
            round.reply,
            round.elapsed,
            round.total,
            round.step,
        );
    }
}

spec fn ends_once(rounds: Seq<Round<'_>>) -> bool {
    forall|i: int|
        0 <= i < rounds.len() ==> ((#[trigger] rounds[i]).step is Retry <==> i < rounds.len() - 1)
}

proof fn lemma_lifecycle_from(submission: SubmissionView, rounds: Seq<Round<'_>>)
    requires
        whole_send(submission, rounds),
        submission.attempt <= submission.retry.max_retries,
    ensures
        rounds.len() > 0,
        rounds.len() + submission.attempt <= submission.retry.max_retries + 1,
        lifecycle(
            all_events(rounds),
            submission.attempt + 1,
            rounds.len() as int,
            rounds.last().step,
            submission.provider,
        ),
        ends_once(rounds),
    decreases rounds.len(),
{
    lemma_first_round(submission, rounds);
    let round = rounds[0];
    let rest = rounds.drop_first();
    let after = submission.begun().concluded(round.step);
    let head = seq![round.announced] + round.reported;
    if round.step is Retry {
        lemma_lifecycle_from(after, rest);
        lemma_lifecycle_extends(
            round.announced,
            round.reported[0],
            all_events(rest),
            submission.attempt + 1,
            rest.len() as int,
            rest.last().step,
            submission.provider,
        );
        assert(head =~= seq![round.announced, round.reported[0]]);
        assert(rest.last() == rounds.last());
        assert forall|i: int| 0 <= i < rounds.len() implies ((#[trigger] rounds[i]).step is Retry
            <==> i < rounds.len() - 1) by {
            if i > 0 {
                assert(rounds[i] == rest[i - 1]);
            }
        }
    } else {
        assert(all_events(rest) =~= Seq::empty());
        assert(all_events(rounds) =~= head);
        lemma_lifecycle_ends(after, round.announced, round.step, round.reported);
    }
}

/// Whatever the gateway replies, a send issues at least one request and at most
/// one more than the policy has retries. Its events run: request 1, retry 1,
/// request 2, and so on to the last request, and then exactly one that ends the
/// send, `Failed` with the error that it comes to or `Accepted` with the
/// response, which a `Slow` may precede. Every event carries the name of the
/// client.
pub proof fn lemma_a_send_reports_its_lifecycle(
    client: ClientView,
    message: MessageView,
    to: Seq<char>,
    rounds: Seq<Round<'_>>,
)
    requires
        whole_send(prepared(client, message, to), rounds),
    ensures
        1 <= rounds.len() <= client.retry.max_retries + 1,
        lifecycle(
            all_events(rounds),
            1,
            rounds.len() as int,
            rounds.last().step,
            client.name,
        ),
        forall|i: int|
            0 <= i < rounds.len() ==> ((#[trigger] rounds[i]).step is Retry <==> i < rounds.len()
                - 1),
{
    lemma_lifecycle_from(prepared(client, message, to), rounds);
}

// ---------------------------------------------------------------------------
// The API key
// ---------------------------------------------------------------------------

/// Two clients are the same but for their API key.
pub open spec fn same_but_for_key(a: ClientView, b: ClientView) -> bool {
    b == ClientView {
        config: ConfigView { api_key: b.config.api_key, ..a.config },
        ..a
    }
}

/// The API key shows in the request and nowhere else: neither the log line of a
/// client nor anything that a submission answers or reports depends on it.
pub proof fn lemma_key_shows_in_the_request_only(
    a: ClientView,
    b: ClientView,
    message: MessageView,
    to: Seq<char>,
)
    requires
        same_but_for_key(a, b),
    ensures
        a.debug_text() == b.debug_text(),
        prepared(b, message, to) == (SubmissionView {
            url: prepared(b, message, to).url,
            ..prepared(a, message, to)
        }),
{
}

/// What a submission makes of a reply, and the events that it reports, do not
/// depend on the request, and so not on the API key in it.
pub proof fn lemma_outcome_is_independent_of_the_request(
    submission: SubmissionView,
    url: Seq<char>,
    reply: Reply,
    elapsed: Duration,
    total: Duration,
    step: Step,
    events: Seq<Event<'_>>,
)
    ensures
        (SubmissionView { url, ..submission }).takes(reply, elapsed, total, step)
            == submission.takes(reply, elapsed, total, step),
        reports(SubmissionView { url, ..submission }, step, events) == reports(
            submission,
            step,
            events,
        ),
{
}

// ---------------------------------------------------------------------------
// What is retried
// ---------------------------------------------------------------------------

/// A failure that may pass: no answer at all, whatever the reason, or one with
/// status 429 or 500 and above.
pub open spec fn fleeting(reply: Reply) -> bool {
    match reply {
        Reply::Broken(_) => true,
        Reply::Answered { status, .. } => status == 429 || status >= 500,
    }
}

/// As long as retries are left, every failure that may pass is retried, and
/// nothing else is.
pub proof fn lemma_fleeting_failures_are_retried(
    submission: SubmissionView,
    reply: Reply,
    elapsed: Duration,
    total: Duration,
    step: Step,
)
    requires
        submission.takes(reply, elapsed, total, step),
    ensures
        step is Retry <==> fleeting(reply) && submission.attempt <= submission.retry.max_retries,
        step is Accepted ==> (reply matches Reply::Answered { status, .. } && 200 <= status <= 299),
{
}

/// The error of a retry or of a failed request names what went wrong: the fault
/// itself, or the status of the answer and the start of its body.
pub proof fn lemma_an_error_names_what_went_wrong(
    submission: SubmissionView,
    reply: Reply,
    elapsed: Duration,
    total: Duration,
    step: Step,
)
    requires
        submission.takes(reply, elapsed, total, step),
        reply matches Reply::Answered { status, .. } ==> !(200 <= status <= 299),
    ensures
        ({
            let error = match step {
                Step::Retry { error, .. } => error,
                Step::Failed { error: Error::RetriesExhausted { source, .. } } => *source,
                Step::Failed { error } => error,
                Step::Accepted { .. } => arbitrary(),
            };
            &&& !(step is Accepted)
            &&& match reply {
                Reply::Broken(fault) => error matches Error::Transport {
                    endpoint,
                    elapsed: e,
                    source,
                } && source == fault && e == elapsed && endpoint@ == submission.label,
                Reply::Answered { status, body } => error matches Error::HttpStatus {
                    status: s,
                    body: kept,
                } && s == status && (byte_len(body@) <= 512 ==> kept@ == body@),
            }
        }),
{
}

/// Of a 2xx answer nothing is retried: what it says ends the send. An acceptance
/// hands back who sent what to whom, the answer as it came, how long it took and
/// how many requests it needed; a rejection its reason and the answer.
pub proof fn lemma_an_answer_ends_the_send(
    submission: SubmissionView,
    reply: Reply,
    elapsed: Duration,
    total: Duration,
    step: Step,
)
    requires
        submission.takes(reply, elapsed, total, step),
        reply matches Reply::Answered { status, .. } && 200 <= status <= 299,
    ensures
        reply matches Reply::Answered { status, body } && (match verdict(
            body@,
            json_document(trimmed(body@)),
        ) {
            ParsedView::Accepted { message_id } => step matches Step::Accepted { response, slow }
                && response.provider@ == submission.provider && response.to@ == submission.to
                && opt_text(response.message_id) == message_id && response.status == status
                && response.raw@ == body@ && response.elapsed == total && response.attempts
                == submission.attempt && opt_text(response.reference) == submission.reference && (
            slow <==> duration_nanos(submission.slow_after) < duration_nanos(total)),
            ParsedView::Rejected { reason } => step matches Step::Failed {
                error: Error::Rejected { reason: why, raw },
            } && why@ == reason && raw@ == body@,
        }),
{
}

/// A send goes on exactly as long as it fails in ways that may pass and retries
/// are left. So one that fails only in such ways issues one request more than
/// it has retries, no failed send that ends with such a failure has issued
/// fewer, and any other reply ends the send at once.
pub proof fn lemma_a_send_does_not_give_up_early(
    client: ClientView,
    message: MessageView,
    to: Seq<char>,
    rounds: Seq<Round<'_>>,
)
    requires
        whole_send(prepared(client, message, to), rounds),
    ensures
        forall|i: int| 0 <= i < rounds.len() - 1 ==> fleeting((#[trigger] rounds[i]).reply),
        fleeting(rounds.last().reply) ==> rounds.len() == client.retry.max_retries + 1
            && rounds.last().step is Failed,
        (rounds.last().step matches Step::Failed { error } && (error is Transport
            || error is RetriesExhausted)) ==> rounds.len() == client.retry.max_retries + 1,
{
    lemma_rounds_go_on(prepared(client, message, to), rounds);
}

proof fn lemma_rounds_go_on(submission: SubmissionView, rounds: Seq<Round<'_>>)
    requires
        whole_send(submission, rounds),
        submission.attempt <= submission.retry.max_retries,
    ensures
        forall|i: int| 0 <= i < rounds.len() - 1 ==> fleeting((#[trigger] rounds[i]).reply),
        fleeting(rounds.last().reply) ==> rounds.len() + submission.attempt
            == submission.retry.max_retries + 1 && rounds.last().step is Failed,
        (rounds.last().step matches Step::Failed { error } && (error is Transport
            || error is RetriesExhausted)) ==> fleeting(rounds.last().reply),
    decreases rounds.len(),
{
    lemma_first_round(submission, rounds);
    let round = rounds[0];
    let rest = rounds.drop_first();
    let waiting = submission.begun();
    lemma_fleeting_failures_are_retried(
        waiting,
        round.reply,
        round.elapsed,
        round.total,
        round.step,
    );
    if round.step is Retry {
        lemma_rounds_go_on(waiting.concluded(round.step), rest);
        assert(rest.last() == rounds.last());
        assert forall|i: int| 0 <= i < rounds.len() - 1 implies fleeting(
            (#[trigger] rounds[i]).reply,
        ) by {
            if i > 0 {
                assert(rounds[i] == rest[i - 1]);
            }
        }
    } else {
        assert(rounds.len() == 1);
        lemma_final_failures(waiting, round.reply, round.elapsed, round.total, round.step);
    }
}

proof fn lemma_final_failures(
    submission: SubmissionView,
    reply: Reply,
    elapsed: Duration,
    total: Duration,
    step: Step,
)
    requires
        submission.takes(reply, elapsed, total, step),
    ensures
        (step matches Step::Failed { error } && (error is Transport || error is RetriesExhausted))
            ==> fleeting(reply),
        fleeting(reply) && !(step is Retry) ==> step is Failed,
{
}

/// The submission of a message is the client's own: it carries the client's
/// name, policy and threshold, the number it goes to and the message's tag, asks
/// the client's endpoint for just that number, and starts before the first
/// request.
pub proof fn lemma_a_submission_starts_afresh(
    client: ClientView,
    message: MessageView,
    to: Seq<char>,
)
    ensures
        ({
            let submission = prepared(client, message, to);
            &&& submission.provider == client.name
            &&& submission.to == to
            &&& submission.reference == message.reference
            &&& submission.url == client.endpoint.request(
                request_pairs(client.config, message, submission.to),
            )
            &&& submission.label == client.endpoint_label()
            &&& submission.seed == hashed(encode_utf8(submission.to))
            &&& submission.retry == client.retry
            &&& submission.slow_after == client.slow_after
            &&& submission.attempt == 0
            &&& submission.phase == Phase::Ready
            &&& submission.begun().attempt == 1
        }),
{
}

/// What is reported of a step: an acceptance by one event with the response, and
/// before it, if it was slow, a warning with the time it took; a failure by one
/// event with the error; a retry by one event with the request that failed, why,
/// and how long is waited. All name the provider, and the number but for the
/// acceptance, whose response holds it.
pub proof fn lemma_what_is_reported_of_a_step(
    submission: SubmissionView,
    step: Step,
    events: Seq<Event<'_>>,
)
    requires
        reports(submission, step, events),
    ensures
        forall|i: int|
            0 <= i < events.len() ==> (#[trigger] events[i]).origin() == submission.provider,
        step matches Step::Accepted { response, slow } ==> {
            &&& slow ==> events.len() == 2
            &&& !slow ==> events.len() == 1
            &&& slow ==> (events[0] matches Event::Slow { to, elapsed, .. } && to@ == submission.to
                && elapsed == response.elapsed)
            &&& events[events.len() - 1] matches Event::Accepted { response: shown, .. } && *shown
                == response
        },
        step matches Step::Failed { error } ==> {
            &&& events.len() == 1
            &&& events[0] matches Event::Failed { to, error: shown, .. } && to@ == submission.to
                && *shown == error
        },
        step matches Step::Retry { error, delay } ==> {
            &&& events.len() == 1
            &&& events[0] matches Event::Retrying { to, attempt, delay: shown, error: why, .. }
                && to@ == submission.to && attempt == submission.attempt && shown == delay && *why
                == error
        },
{
}

/// What is reported of a request is who asks, for whom, and its number.
pub proof fn lemma_what_is_reported_of_a_request(submission: SubmissionView, event: Event<'_>)
    requires
        submission.announces(event),
    ensures
        event.origin() == submission.provider,
        event matches Event::Attempt { to, attempt, .. } && to@ == submission.to && attempt
            == submission.attempt,
{
}

/// A step changes nothing about a submission but where it stands: a retry makes
/// it ready for its next request, which counts one more, anything else ends it.
pub proof fn lemma_what_a_step_leaves(submission: SubmissionView, step: Step)
    requires
        submission.attempt < u32::MAX,
    ensures
        ({
            let next = submission.concluded(step);
            &&& next.phase == Phase::Ready <==> step is Retry
            &&& next.phase == Phase::Over <==> !(step is Retry)
            &&& next == (SubmissionView { phase: next.phase, ..submission })
            &&& next.begun().attempt == submission.attempt + 1
            &&& next.begun() == (SubmissionView {
                phase: Phase::Waiting,
                attempt: next.begun().attempt,
                ..submission
            })
        }),
{
}

/// Every delay that a send asks for is within the bounds of its policy.
pub proof fn lemma_a_retry_waits_within_bounds(
    submission: SubmissionView,
    reply: Reply,
    elapsed: Duration,
    total: Duration,
    step: Step,
)
    requires
        submission.takes(reply, elapsed, total, step),
        1 <= submission.attempt,
        1_000_000 <= duration_nanos(submission.retry.max_backoff),
        duration_nanos(submission.retry.max_backoff) < 0x1_0000_0000_0000_0000,
    ensures
        step matches Step::Retry { delay, .. } ==> 1_000_000 <= duration_nanos(delay)
            <= duration_nanos(submission.retry.max_backoff),
{
    lemma_delay_is_bounded(submission.retry, submission.attempt, submission.seed);
}

} // verus!
