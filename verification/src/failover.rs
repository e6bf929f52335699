//! Ordered failover across several provider accounts.
//!
//! MDS accounts are commonly provisioned in pairs: a canonical HTTPS host and a
//! dedicated IP over plain HTTP. Integrations typically select one at startup
//! and never reconsider. When the selected endpoint is down, every message
//! fails while a healthy account sits idle. A [`FailoverClient`] moves on.

use crate::client::{truth, write_truth, ClientView, MdsClient};
use crate::error::{quote, quoted, Error, ProviderFailure, Result};
use crate::message::Message;
use crate::observer::Event;
use crate::response::Response;
use crate::text::str_texts;
use vstd::prelude::*;

verus! {

/// The failure on one provider might not happen on another.
///
/// Recipient and body problems are deterministic: the number is malformed or
/// the text is too long no matter who carries it. Everything else (transport,
/// 5xx, exhausted retries, and gateway rejections, which are usually
/// credential- or DLT-template-specific) is worth trying elsewhere.
pub open spec fn worth_failing_over(error: Error) -> bool {
    !(error is InvalidNumber || error is InvalidMessage || error is MissingConfig)
}

/// Whether a failure on one provider might succeed on another.
pub fn is_worth_failing_over(error: &Error) -> (r: bool)
    ensures
        r == worth_failing_over(*error),
{
    match error {
        Error::InvalidNumber { .. } => false,
        Error::InvalidMessage(_) => false,
        Error::MissingConfig(_) => false,
        _ => true,
    }
}

/// A list of providers in priority order, of which the next is asked only when
/// a failure could plausibly be provider-specific.
pub struct FailoverClient {
    providers: Vec<MdsClient>,
}

/// The providers of a list.
pub open spec fn clients_view(clients: Seq<MdsClient>) -> Seq<ClientView> {
    Seq::new(clients.len(), |i: int| clients[i]@)
}

/// The names of providers.
pub open spec fn names(chain: Seq<ClientView>) -> Seq<Seq<char>> {
    Seq::new(chain.len(), |i: int| chain[i].name)
}

impl View for FailoverClient {
    type V = Seq<ClientView>;

    closed spec fn view(&self) -> Seq<ClientView> {
        clients_view(self.providers@)
    }
}

/// The first `n` names, quoted and separated by commas.
pub open spec fn quoted_list(list: Seq<Seq<char>>, n: nat) -> Seq<char>
    decreases n,
{
    if n == 0 {
        Seq::empty()
    } else if n == 1 {
        quoted(list[0])
    } else {
        quoted_list(list, (n - 1) as nat) + ", "@ + quoted(list[n - 1])
    }
}

/// A chain for a log.
pub open spec fn chain_debug_text(chain: Seq<ClientView>, has_observer: bool) -> Seq<char> {
    "FailoverClient { providers: ["@ + quoted_list(names(chain), chain.len())
        + "], has_observer: "@ + truth(has_observer) + " }"@
}

impl Clone for FailoverClient {
    fn clone(&self) -> (r: Self)
        ensures
            r@ == self@,
    {
        proof {
            use_type_invariant(self);
        }
        let mut providers: Vec<MdsClient> = Vec::new();
        let mut i: usize = 0;
        while i < self.providers.len()
            invariant
                i <= self.providers@.len(),
                providers@.len() == i,
                forall|j: int| 0 <= j < i ==> (#[trigger] providers@[j])@ == self.providers@[j]@,
            decreases self.providers@.len() - i,
        {
            providers.push(self.providers[i].clone());
            i += 1;
        }
        assert(clients_view(providers@) =~= clients_view(self.providers@));
        FailoverClient { providers }
    }
}

impl FailoverClient {
    #[verifier::type_invariant]
    spec fn well_formed(self) -> bool {
        self.providers@.len() > 0
    }

    /// Builds a failover chain. Providers are tried in the order given.
    ///
    /// Returns [`Error::MissingConfig`] if the list is empty: a chain with no
    /// providers can only ever fail, and failing at construction is better
    /// than at 3am.
    pub fn new(providers: Vec<MdsClient>) -> (r: Result<FailoverClient>)
        ensures
            match r {
                Ok(chain) => providers@.len() > 0 && chain@ == clients_view(providers@),
                Err(e) => providers@.len() == 0 && (e matches Error::MissingConfig(field) && field@
                    == "providers"@),
            },
    {
        if providers.len() == 0 {
            return Err(Error::MissingConfig("providers"));
        }
        Ok(FailoverClient { providers })
    }

    /// Provider names, in priority order.
    pub fn provider_names(&self) -> (r: Vec<&str>)
        ensures
            str_texts(r@) == names(self@),
    {
        let mut list: Vec<&str> = Vec::new();
        let mut i: usize = 0;
        while i < self.providers.len()
            invariant
                i <= self.providers@.len(),
                list@.len() == i,
                forall|j: int| 0 <= j < i ==> (#[trigger] list@[j])@ == self.providers@[j]@.name,
            decreases self.providers@.len() - i,
        {
            list.push(self.providers[i].name());
            i += 1;
        }
        assert(str_texts(list@) =~= names(self@));
        list
    }

    /// The provider tried first.
    pub fn primary(&self) -> (r: &MdsClient)
        ensures
            self@.len() > 0,
            r@ == self@[0],
    {
        proof {
            use_type_invariant(self);
        }
        &self.providers[0]
    }

    /// How many providers there are.
    pub fn size(&self) -> (r: usize)
        ensures
            r == self@.len(),
            r > 0,
    {
        proof {
            use_type_invariant(self);
        }
        self.providers.len()
    }

    /// Starts with the first provider.
    pub fn relay(&self) -> (r: Relay<'_>)
        ensures
            r@ == RelayView::start(self@),
    {
        proof {
            use_type_invariant(self);
        }
        Relay { chain: self, index: 0, failures: Vec::new() }
    }

    /// The chain for a log.
    pub fn debug_string(&self, has_observer: bool) -> (r: String)
        ensures
            r@ == chain_debug_text(self@, has_observer),
    {
        let list = self.provider_names();
        let ghost all = names(self@);
        let mut joined = String::new();
        let mut i: usize = 0;
        while i < list.len()
            invariant
                i <= list@.len(),
                str_texts(list@) == all,
                joined@ == quoted_list(all, i as nat),
            decreases list@.len() - i,
        {
            assert(all[i as int] == list@[i as int]@);
            if i > 0 {
                joined.append(", ");
            }
            joined.append(quote(list[i]).as_str());
            assert(joined@ =~= quoted_list(all, (i + 1) as nat));
            i += 1;
        }
        assert(str_texts(list@).len() == names(self@).len());
        let mut out = "FailoverClient { providers: [".to_string();
        out.append(joined.as_str());
        out.append("], has_observer: ");
        out.append(write_truth(has_observer));
        out.append(" }");
        out
    }
}

// ---------------------------------------------------------------------------
// One message along the chain
// ---------------------------------------------------------------------------

/// A message on its way along a chain of providers.
pub struct Relay<'a> {
    chain: &'a FailoverClient,
    index: usize,
    failures: Vec<ProviderFailure>,
}

/// The model of a [`Relay`].
pub struct RelayView {
    pub chain: Seq<ClientView>,
    /// The provider whose turn it is.
    pub index: int,
    /// What came of the providers before it.
    pub failures: Seq<ProviderFailure>,
}

impl<'a> View for Relay<'a> {
    type V = RelayView;

    closed spec fn view(&self) -> RelayView {
        RelayView { chain: self.chain@, index: self.index as int, failures: self.failures@ }
    }
}

/// The failures are those of the first providers of the chain, in order.
pub open spec fn in_order(chain: Seq<ClientView>, failures: Seq<ProviderFailure>) -> bool {
    &&& failures.len() <= chain.len()
    &&& forall|i: int|
        0 <= i < failures.len() ==> (#[trigger] failures[i]).provider@ == chain[i].name
}

impl RelayView {
    /// A message that is about to be handed to the first provider.
    pub open spec fn start(chain: Seq<ClientView>) -> RelayView {
        RelayView { chain, index: 0, failures: Seq::empty() }
    }

    /// `failures` are those so far and the one at hand.
    pub open spec fn with_failure(self, error: Error, failures: Seq<ProviderFailure>) -> bool {
        &&& failures.len() == self.failures.len() + 1
        &&& failures.drop_last() == self.failures
        &&& failures.last().provider@ == self.chain[self.index].name
        &&& failures.last().error == error
    }

    /// After this result the next provider is asked.
    pub open spec fn passes_on(self, result: Result<Response>) -> bool {
        result matches Err(error) && worth_failing_over(error) && self.index + 1
            < self.chain.len()
    }

    /// `next` is the message at the next provider, with this failure noted.
    pub open spec fn moves_to(self, error: Error, next: RelayView) -> bool {
        &&& next.chain == self.chain
        &&& next.index == self.index + 1
        &&& self.with_failure(error, next.failures)
    }

    /// With this result the send is over, and comes to `outcome`: the response,
    /// the error itself where the first provider shows that all would fail, or
    /// else every failure there was.
    pub open spec fn ends_with(self, result: Result<Response>, outcome: Result<Response>) -> bool {
        match result {
            Ok(_) => outcome == result,
            Err(error) => if !worth_failing_over(error) && self.index == 0 {
                outcome == result
            } else {
                outcome matches Err(Error::AllProvidersFailed(failures)) && self.with_failure(
                    error,
                    failures@,
                ) && in_order(self.chain, failures@)
            },
        }
    }

    /// The event for the move to the provider at hand.
    pub open spec fn announces(self, to: Seq<char>, event: Event) -> bool {
        event matches Event::FailingOver { from, to_provider, to: shown, error } && from@
            == self.chain[self.index - 1].name && to_provider@ == self.chain[self.index].name
            && shown@ == to && *error == self.failures.last().error
    }
}

/// What becomes of a message after a provider was asked.
pub enum Hop<'a> {
    /// The send is over.
    Done(Result<Response>),
    /// The next provider is to be asked.
    Next(Relay<'a>),
}

impl<'a> Relay<'a> {
    /// Every provider before the one at hand failed, in a way that made it worth
    /// asking the next.
    #[verifier::type_invariant]
    spec fn well_formed(self) -> bool {
        &&& self.index < self.chain@.len()
        &&& self.failures@.len() == self.index
        &&& in_order(self.chain@, self.failures@)
        &&& forall|i: int|
            0 <= i < self.failures@.len() ==> worth_failing_over(
                (#[trigger] self.failures@[i]).error,
            )
    }

    /// The provider to ask.
    pub fn provider(&self) -> (r: &'a MdsClient)
        ensures
            0 <= self@.index < self@.chain.len(),
            r@ == self@.chain[self@.index],
    {
        proof {
            use_type_invariant(self);
        }
        &self.chain.providers[self.index]
    }

    /// The event for the move to the provider at hand, if the message was
    /// passed on to it.
    pub fn hop_event<'b>(&'b self, message: &'b Message) -> (r: Option<Event<'b>>)
        ensures
            match r {
                Some(event) => self@.index > 0 && self@.announces(message@.to, event),
                None => self@.index == 0,
            },
    {
        proof {
            use_type_invariant(self);
        }
        if self.index == 0 {
            return None;
        }
        let last: usize = self.index - 1;
        Some(
            Event::FailingOver {
                from: self.chain.providers[last].name(),
                to_provider: self.chain.providers[self.index].name(),
                to: message.recipient(),
                error: &self.failures[last].error,
            },
        )
    }

    /// Takes what came of the provider at hand.
    ///
    /// An acceptance ends the send. So does a failure that would be the same
    /// everywhere, and the failure of the last provider. Any other failure is
    /// noted, and the next provider is asked.
    pub fn conclude(self, result: Result<Response>) -> (r: Hop<'a>)
        ensures
            match r {
                Hop::Next(next) => self@.passes_on(result) && self@.moves_to(
                    result->Err_0,
                    next@,
                ),
                Hop::Done(outcome) => !self@.passes_on(result) && self@.ends_with(result, outcome),
            },
    {
        proof {
            use_type_invariant(&self);
        }
        match result {
            Ok(response) => Hop::Done(Ok(response)),
            Err(error) => {
                let worth = is_worth_failing_over(&error);
                let n: usize = self.chain.providers.len();
                if !worth && self.index == 0 {
                    return Hop::Done(Err(error));
                }
                let ghost before = self.failures@;
                let ghost chain = self.chain@;
                let ghost index = self.index as int;
                let failed = ProviderFailure {
                    provider: self.chain.providers[self.index].name().to_string(),
                    error,
                };
                let mut failures = self.failures;
                failures.push(failed);
                assert(failures@.drop_last() =~= before);
                assert(in_order(chain, failures@)) by {
                    assert forall|i: int| 0 <= i < failures@.len() implies (
                    #[trigger] failures@[i]).provider@ == chain[i].name by {
                        if i < index {
                            assert(failures@[i] == before[i]);
                        }
                    }
                }
                if worth && self.index + 1 < n {
                    assert forall|i: int| 0 <= i < failures@.len() implies worth_failing_over(
                        (#[trigger] failures@[i]).error,
                    ) by {
                        if i < index {
                            assert(failures@[i] == before[i]);
                        }
                    }
                    Hop::Next(Relay { chain: self.chain, index: self.index + 1, failures })
                } else {
                    Hop::Done(Err(Error::AllProvidersFailed(failures)))
                }
            },
        }
    }
}

// ---------------------------------------------------------------------------
// Laws
// ---------------------------------------------------------------------------

/// From the `k`-th provider that was asked the message went on to the next.
pub open spec fn went_on(
    relays: Seq<RelayView>,
    results: Seq<Result<Response>>,
    k: int,
) -> bool {
    relays[k].passes_on(results[k]) && relays[k].moves_to(results[k]->Err_0, relays[k + 1])
}

/// A message on its whole way along a chain: where it stood each time that a
/// provider was asked, what came of asking it, and how the send ended.
pub open spec fn walk(
    chain: Seq<ClientView>,
    relays: Seq<RelayView>,
    results: Seq<Result<Response>>,
    outcome: Result<Response>,
) -> bool {
    &&& relays.len() == results.len()
    &&& relays.len() > 0
    &&& relays[0] == RelayView::start(chain)
    &&& forall|k: int| 0 <= k < relays.len() - 1 ==> #[trigger] went_on(relays, results, k)
    &&& !relays.last().passes_on(results.last())
    &&& relays.last().ends_with(results.last(), outcome)
}

/// The failures are those of the first providers of the chain, each with the
/// error that asking it gave.
pub open spec fn failures_of(
    chain: Seq<ClientView>,
    results: Seq<Result<Response>>,
    failures: Seq<ProviderFailure>,
) -> bool {
    forall|i: int|
        0 <= i < failures.len() ==> (#[trigger] failures[i]).provider@ == chain[i].name
            && results[i] == Err::<Response, Error>(failures[i].error)
}

proof fn lemma_one_more_failure(
    relay: RelayView,
    results: Seq<Result<Response>>,
    error: Error,
    failures: Seq<ProviderFailure>,
)
    requires
        relay.failures.len() == relay.index,
        failures_of(relay.chain, results, relay.failures),
        results[relay.index] == Err::<Response, Error>(error),
        relay.with_failure(error, failures),
    ensures
        failures_of(relay.chain, results, failures),
{
    assert forall|i: int| 0 <= i < failures.len() implies (#[trigger] failures[i]).provider@
        == relay.chain[i].name && results[i] == Err::<Response, Error>(failures[i].error) by {
        if i < relay.index {
            assert(failures.drop_last()[i] == failures[i]);
            assert(relay.failures[i] == failures[i]);
        }
    }
}

proof fn lemma_walk_at(
    chain: Seq<ClientView>,
    relays: Seq<RelayView>,
    results: Seq<Result<Response>>,
    outcome: Result<Response>,
    k: int,
)
    requires
        walk(chain, relays, results, outcome),
        chain.len() > 0,
        0 <= k < relays.len(),
    ensures
        relays[k].chain == chain,
        relays[k].index == k,
        k < chain.len(),
        relays[k].failures.len() == k,
        failures_of(chain, results, relays[k].failures),
    decreases k,
{
    if k > 0 {
        lemma_walk_at(chain, relays, results, outcome, k - 1);
        assert(went_on(relays, results, k - 1));
        lemma_one_more_failure(
            relays[k - 1],
            results,
            results[k - 1]->Err_0,
            relays[k].failures,
        );
    }
}

/// A send along a chain asks the providers in order, none of them twice, and
/// each after the first only because the one before failed in a way that
/// another might not. It stops short of the last provider only with an
/// acceptance or with a failure that all would share. An acceptance is handed
/// back as it is, and so is a failure of the first provider that all would
/// share. Otherwise the error names every provider that was asked, in order,
/// each with the error that it gave.
pub proof fn lemma_providers_are_asked_in_order(
    chain: Seq<ClientView>,
    relays: Seq<RelayView>,
    results: Seq<Result<Response>>,
    outcome: Result<Response>,
)
    requires
        chain.len() > 0,
        walk(chain, relays, results, outcome),
    ensures
        results.len() <= chain.len(),
        forall|k: int|
            0 <= k < relays.len() ==> (#[trigger] relays[k]).chain == chain && relays[k].index
                == k,
        forall|k: int|
            0 <= k < results.len() - 1 ==> (#[trigger] results[k] matches Err(e)
                && worth_failing_over(e)),
        results.len() < chain.len() ==> (results.last() matches Err(e) ==> !worth_failing_over(e)),
        match results.last() {
            Ok(_) => outcome == results.last(),
            Err(e) => if results.len() == 1 && !worth_failing_over(e) {
                outcome == results.last()
            } else {
                outcome matches Err(Error::AllProvidersFailed(failures)) && failures@.len()
                    == results.len() && failures_of(chain, results, failures@)
            },
        },
{
    assert forall|k: int| 0 <= k < relays.len() implies (#[trigger] relays[k]).chain == chain
        && relays[k].index == k && k < chain.len() by {
        lemma_walk_at(chain, relays, results, outcome, k);
    }
    assert forall|k: int| 0 <= k < results.len() - 1 implies (#[trigger] results[k] matches Err(e)
        && worth_failing_over(e)) by {
        assert(went_on(relays, results, k));
    }
    let last = relays.len() - 1;
    lemma_walk_at(chain, relays, results, outcome, last);
    if let Err(Error::AllProvidersFailed(failures)) = outcome {
        if results.last() is Err && !(results.len() == 1 && !worth_failing_over(
            results.last()->Err_0,
        )) {
            lemma_one_more_failure(relays[last], results, results[last]->Err_0, failures@);
        }
    }
}

/// Each move along a chain is announced with the names of the provider that
/// failed and of the one asked next, and with the error that the first gave.
pub proof fn lemma_moves_are_announced(
    chain: Seq<ClientView>,
    relays: Seq<RelayView>,
    results: Seq<Result<Response>>,
    outcome: Result<Response>,
    k: int,
    to: Seq<char>,
    event: Event,
)
    requires
        chain.len() > 0,
        walk(chain, relays, results, outcome),
        0 < k < relays.len(),
        relays[k].announces(to, event),
    ensures
        event matches Event::FailingOver { from, to_provider, to: shown, error } && from@
            == chain[k - 1].name && to_provider@ == chain[k].name && shown@ == to && results[k - 1]
            == Err::<Response, Error>(*error),
{
    lemma_walk_at(chain, relays, results, outcome, k);
    assert(relays[k].failures.last() == relays[k].failures[k - 1]);
}

/// A message that the first provider refuses before it is sent is not passed
/// on, and its error comes back as it is.
pub proof fn lemma_bad_messages_are_not_passed_on(
    chain: Seq<ClientView>,
    relays: Seq<RelayView>,
    results: Seq<Result<Response>>,
    outcome: Result<Response>,
)
    requires
        walk(chain, relays, results, outcome),
        results[0] matches Err(e) && (e is InvalidNumber || e is InvalidMessage),
    ensures
        results.len() == 1,
        outcome == results[0],
{
    if results.len() > 1 {
        assert(went_on(relays, results, 0));
    }
}

/// Whatever is wrong with a provider, the next one is asked: every failure but
/// a refused number, a refused message and a missing setting leads on, from
/// every provider that is not the last. These three, and an acceptance, end the
/// send where it stands.
pub proof fn lemma_only_refusals_end_the_chain_early(relay: RelayView, result: Result<Response>)
    requires
        0 <= relay.index,
        relay.index + 1 < relay.chain.len(),
    ensures
        relay.passes_on(result) <==> match result {
            Ok(_) => false,
            Err(Error::InvalidNumber { .. }) => false,
            Err(Error::InvalidMessage(_)) => false,
            Err(Error::MissingConfig(_)) => false,
            Err(_) => true,
        },
        result matches Err(e) && (e is Transport || e is HttpStatus || e is Rejected
            || e is RetriesExhausted) ==> relay.passes_on(result),
{
}

/// The last provider ends the send.
pub proof fn lemma_the_last_provider_ends_the_send(relay: RelayView, result: Result<Response>)
    requires
        relay.index + 1 == relay.chain.len(),
    ensures
        !relay.passes_on(result),
{
}

/// A send along a chain stops short of the last provider only with an
/// acceptance, a refused number, a refused message or a missing setting, and
/// every provider before the last one asked failed in some other way.
pub proof fn lemma_a_chain_is_walked_to_its_end(
    chain: Seq<ClientView>,
    relays: Seq<RelayView>,
    results: Seq<Result<Response>>,
    outcome: Result<Response>,
)
    requires
        chain.len() > 0,
        walk(chain, relays, results, outcome),
    ensures
        results.len() <= chain.len(),
        results.len() < chain.len() ==> (results.last() is Ok || results.last()->Err_0 is InvalidNumber
            || results.last()->Err_0 is InvalidMessage || results.last()->Err_0 is MissingConfig),
        forall|k: int|
            0 <= k < results.len() - 1 ==> ((#[trigger] results[k]) matches Err(e) && !(
            e is InvalidNumber || e is InvalidMessage || e is MissingConfig)),
        results.last() is Ok ==> outcome == results.last(),
        results.last() is Err ==> outcome is Err,
{
    lemma_providers_are_asked_in_order(chain, relays, results, outcome);
}

/// The names of a chain are those of its providers, in order.
pub proof fn lemma_names_are_in_order(chain: Seq<ClientView>)
    ensures
        names(chain).len() == chain.len(),
        forall|i: int| 0 <= i < chain.len() ==> #[trigger] names(chain)[i] == chain[i].name,
{
}

} // verus!
