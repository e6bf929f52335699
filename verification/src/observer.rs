//! What a send reports while it is under way.
//!
//! The library deliberately does not log, alert, or email: it reports what
//! happened and lets the caller decide.

use crate::error::Error;
use crate::response::Response;
use std::time::Duration;
use vstd::prelude::*;

verus! {

/// Something that happened during a send.
///
/// Events borrow rather than allocate, so an observer that ignores most
/// variants costs almost nothing.
#[derive(Debug)]
#[non_exhaustive]
pub enum Event<'a> {
    /// A request is about to be issued. `attempt` is 1-based.
    Attempt { provider: &'a str, to: &'a str, attempt: u32 },
    /// A transient failure will be retried after `delay`.
    Retrying {
        provider: &'a str,
        to: &'a str,
        attempt: u32,
        delay: Duration,
        error: &'a Error,
    },
    /// The gateway accepted the message.
    Accepted { provider: &'a str, response: &'a Response },
    /// The send failed and will not be retried on this provider.
    Failed { provider: &'a str, to: &'a str, error: &'a Error },
    /// A send succeeded but took longer than the configured threshold.
    /// Lets callers warn on degraded delivery without the transport
    /// deciding what "too slow" means.
    Slow { provider: &'a str, to: &'a str, elapsed: Duration },
    /// A [`crate::FailoverClient`] is moving to the next provider.
    FailingOver { from: &'a str, to_provider: &'a str, to: &'a str, error: &'a Error },
}

impl<'a> Event<'a> {
    /// The provider the event originated from.
    pub open spec fn origin(self) -> Seq<char> {
        match self {
            Event::Attempt { provider, .. } => provider@,
            Event::Retrying { provider, .. } => provider@,
            Event::Accepted { provider, .. } => provider@,
            Event::Failed { provider, .. } => provider@,
            Event::Slow { provider, .. } => provider@,
            Event::FailingOver { from, .. } => from@,
        }
    }

    /// The send is over.
    pub open spec fn terminal(self) -> bool {
        self is Accepted || self is Failed
    }

    /// The provider the event originated from.
    pub fn provider(&self) -> (r: &str)
        ensures
            r@ == self.origin(),
    {
        match self {
            Event::Attempt { provider, .. } => provider,
            Event::Retrying { provider, .. } => provider,
            Event::Accepted { provider, .. } => provider,
            Event::Failed { provider, .. } => provider,
            Event::Slow { provider, .. } => provider,
            Event::FailingOver { from, .. } => from,
        }
    }

    /// Whether this event represents something an operator should see.
    pub fn is_problem(&self) -> (r: bool)
        ensures
            r == (self is Retrying || self is Failed || self is Slow || self is FailingOver),
    {
        match self {
            Event::Retrying { .. } => true,
            Event::Failed { .. } => true,
            Event::Slow { .. } => true,
            Event::FailingOver { .. } => true,
            _ => false,
        }
    }
}

/// An event names the provider it is about; a failover the one that is left.
pub proof fn lemma_whom_an_event_names(event: Event<'_>)
    ensures
        event matches Event::Attempt { provider, .. } ==> event.origin() == provider@,
        event matches Event::Retrying { provider, .. } ==> event.origin() == provider@,
        event matches Event::Accepted { provider, .. } ==> event.origin() == provider@,
        event matches Event::Failed { provider, .. } ==> event.origin() == provider@,
        event matches Event::Slow { provider, .. } ==> event.origin() == provider@,
        event matches Event::FailingOver { from, .. } ==> event.origin() == from@,
        event is Accepted || event is Failed <==> event.terminal(),
{
}

} // verus!
