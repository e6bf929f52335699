//! A batch of sends under a limit on how many are in flight.
//!
//! Like [`crate::Submission`], a [`Batch`] decides and does not wait: its owner
//! starts the sends it is told to start, and hands back the outcome of each.

use crate::client::BatchItem;
use crate::error::Result;
use crate::message::Message;
use crate::response::Response;
use vstd::prelude::*;

verus! {

/// Which sends of a batch were started, and the outcomes so far.
pub struct Batch<T> {
    limit: usize,
    /// Sends are started in order: those before this one were.
    started: usize,
    running: usize,
    slots: Vec<Option<T>>,
}

/// The model of a [`Batch`].
pub struct BatchView<T> {
    /// How many sends may be in flight.
    pub limit: nat,
    /// How many sends were started.
    pub started: nat,
    /// The outcome of each send, in input order; `None` where there is none yet.
    pub slots: Seq<Option<T>>,
}

/// How many of the first `n` slots are empty.
pub open spec fn empty_slots<T>(slots: Seq<Option<T>>, n: nat) -> nat
    decreases n,
{
    if n == 0 {
        0
    } else if slots[n - 1] is None {
        empty_slots(slots, (n - 1) as nat) + 1
    } else {
        empty_slots(slots, (n - 1) as nat)
    }
}

impl<T> BatchView<T> {
    /// The send was started, and has no outcome yet.
    pub open spec fn in_flight(self, i: int) -> bool {
        0 <= i < self.started && self.slots[i] is None
    }

    /// How many sends are in flight.
    pub open spec fn running(self) -> nat {
        empty_slots(self.slots, self.started)
    }

    /// Every send has its outcome.
    pub open spec fn complete(self) -> bool {
        forall|i: int| 0 <= i < self.slots.len() ==> (#[trigger] self.slots[i]) is Some
    }

    /// A batch of `total` sends, none of them started.
    pub open spec fn fresh(total: nat, concurrency: nat) -> BatchView<T> {
        BatchView {
            limit: in_flight_limit(total, concurrency),
            started: 0,
            slots: Seq::new(total, |i: int| None),
        }
    }

    /// A send is left to start, and the limit allows it.
    pub open spec fn may_start(self) -> bool {
        self.started < self.slots.len() && self.running() < self.limit
    }

    /// The batch with its next send in flight.
    pub open spec fn with_next_started(self) -> BatchView<T> {
        BatchView { started: self.started + 1, ..self }
    }

    /// The batch with the outcome of a send noted.
    pub open spec fn with_outcome(self, i: int, item: T) -> BatchView<T> {
        BatchView { slots: self.slots.update(i, Some(item)), ..self }
    }
}

/// How many sends of a batch may be in flight: as many as asked for, but at
/// least one, and no more than there are.
pub open spec fn in_flight_limit(total: nat, concurrency: nat) -> nat {
    let wanted = if concurrency == 0 {
        1
    } else {
        concurrency
    };
    if wanted < total {
        wanted
    } else {
        total
    }
}

impl<T> View for Batch<T> {
    type V = BatchView<T>;

    closed spec fn view(&self) -> BatchView<T> {
        BatchView { limit: self.limit as nat, started: self.started as nat, slots: self.slots@ }
    }
}

/// Filling a slot leaves one less empty.
proof fn lemma_fill_slot<T>(slots: Seq<Option<T>>, n: nat, i: int, item: T)
    requires
        n <= slots.len(),
        0 <= i < slots.len(),
        slots[i] is None,
    ensures
        empty_slots(slots.update(i, Some(item)), n) == (if i < n {
            empty_slots(slots, n) - 1
        } else {
            empty_slots(slots, n) as int
        }),
    decreases n,
{
    if n > 0 {
        lemma_fill_slot(slots, (n - 1) as nat, i, item);
    }
}

/// A slot that is empty counts.
proof fn lemma_empty_slot_counts<T>(slots: Seq<Option<T>>, n: nat, i: int)
    requires
        0 <= i < n <= slots.len(),
        slots[i] is None,
    ensures
        empty_slots(slots, n) >= 1,
    decreases n,
{
    if i < n - 1 {
        lemma_empty_slot_counts(slots, (n - 1) as nat, i);
    }
}

/// Where no slot is empty, every one is filled.
proof fn lemma_none_empty<T>(slots: Seq<Option<T>>, n: nat)
    requires
        n <= slots.len(),
        empty_slots(slots, n) == 0,
    ensures
        forall|i: int| 0 <= i < n ==> (#[trigger] slots[i]) is Some,
    decreases n,
{
    if n > 0 {
        lemma_none_empty(slots, (n - 1) as nat);
    }
}

/// The outcomes in the first `n` slots, in order.
pub open spec fn outcomes<T>(slots: Seq<Option<T>>, n: nat) -> Seq<T>
    decreases n,
{
    if n == 0 {
        Seq::empty()
    } else {
        match slots[n - 1] {
            Some(item) => outcomes(slots, (n - 1) as nat).push(item),
            None => outcomes(slots, (n - 1) as nat),
        }
    }
}

/// The item of a batch for a message and what came of it.
pub open spec fn item_of(message: Message, outcome: Result<Response>, item: BatchItem) -> bool {
    item.0@ == message@.to && item.1 == outcome
}

/// Pairs the recipient of a message, as it was given, with what came of the
/// send.
pub fn batch_item(message: &Message, outcome: Result<Response>) -> (r: BatchItem)
    ensures
        item_of(*message, outcome, r),
{
    (message.recipient().to_string(), outcome)
}

impl<T> Batch<T> {
    #[verifier::type_invariant]
    spec fn well_formed(self) -> bool {
        &&& self.started <= self.slots@.len()
        &&& self.running == empty_slots(self.slots@, self.started as nat)
        &&& self.running <= self.limit
        &&& self.slots@.len() > 0 ==> self.limit > 0
        &&& forall|i: int|
            self.started <= i < self.slots@.len() ==> (#[trigger] self.slots@[i]) is None
    }

    /// A batch of `total` sends, none of them started yet.
    pub fn new(total: usize, concurrency: usize) -> (r: Batch<T>)
        ensures
            r@ == BatchView::<T>::fresh(total as nat, concurrency as nat),
    {
        let wanted: usize = if concurrency == 0 {
            1
        } else {
            concurrency
        };
        let limit: usize = if wanted < total {
            wanted
        } else {
            total
        };
        let mut slots: Vec<Option<T>> = Vec::new();
        let mut i: usize = 0;
        while i < total
            invariant
                i <= total,
                slots@.len() == i,
                forall|j: int| 0 <= j < i ==> (#[trigger] slots@[j]) is None,
            decreases total - i,
        {
            slots.push(None);
            i += 1;
        }
        assert(slots@ =~= BatchView::<T>::fresh(total as nat, concurrency as nat).slots);
        Batch { limit, started: 0, running: 0, slots }
    }

    /// A batch without sends.
    fn empty() -> (r: Batch<T>)
        ensures
            r@.slots.len() == 0,
    {
        Batch { limit: 0, started: 0, running: 0, slots: Vec::new() }
    }

    /// The next send to start, if one is left and the limit allows it.
    pub fn start(&mut self) -> (r: Option<usize>)
        ensures
            match r {
                Some(i) => {
                    &&& old(self)@.may_start()
                    &&& i == old(self)@.started
                    &&& final(self)@ == old(self)@.with_next_started()
                    &&& final(self)@.running() == old(self)@.running() + 1
                },
                None => {
                    &&& !old(self)@.may_start()
                    &&& old(self)@.running() == 0 ==> old(self)@.complete()
                    &&& final(self)@ == old(self)@
                },
            },
    {
        proof {
            use_type_invariant(&*self);
        }
        if self.started == self.slots.len() || self.running == self.limit {
            proof {
                if self@.running() == 0 && self.slots@.len() > 0 {
                    lemma_none_empty(self.slots@, self.slots@.len());
                }
            }
            return None;
        }
        let i: usize = self.started;
        assert(self.slots@[i as int] is None);
        let mut batch = Batch::empty();
        std::mem::swap(&mut batch, self);
        *self = Batch {
            limit: batch.limit,
            started: batch.started + 1,
            running: batch.running + 1,
            slots: batch.slots,
        };
        Some(i)
    }

    /// Notes the outcome of a send that is in flight.
    pub fn finish(&mut self, i: usize, item: T)
        requires
            old(self)@.in_flight(i as int),
        ensures
            final(self)@ == old(self)@.with_outcome(i as int, item),
            final(self)@.running() == old(self)@.running() - 1,
    {
        proof {
            use_type_invariant(&*self);
            lemma_fill_slot(self.slots@, self.started as nat, i as int, item);
            lemma_empty_slot_counts(self.slots@, self.started as nat, i as int);
        }
        let mut batch = Batch::empty();
        std::mem::swap(&mut batch, self);
        let mut slots = batch.slots;
        slots.set(i, Some(item));
        *self = Batch {
            limit: batch.limit,
            started: batch.started,
            running: batch.running - 1,
            slots,
        };
    }

    /// The outcomes, in input order.
    pub fn into_results(self) -> (r: Vec<T>)
        ensures
            r@ == outcomes(self@.slots, self@.slots.len()),
    {
        let mut items: Vec<T> = Vec::new();
        let ghost all = self.slots@;
        for slot in it: self.slots
            invariant
                it.seq() == all,
                items@ == outcomes(all, it.index() as nat),
        {
            if let Some(item) = slot {
                items.push(item);
            }
        }
        items
    }
}

// ---------------------------------------------------------------------------
// Laws
// ---------------------------------------------------------------------------

/// A complete batch has one outcome per send, in input order.
pub proof fn lemma_one_outcome_per_send<T>(batch: BatchView<T>)
    requires
        batch.complete(),
    ensures
        outcomes(batch.slots, batch.slots.len()).len() == batch.slots.len(),
        forall|i: int|
            0 <= i < batch.slots.len() ==> Some(
                #[trigger] outcomes(batch.slots, batch.slots.len())[i],
            ) == batch.slots[i],
{
    lemma_outcomes_of_filled(batch.slots, batch.slots.len());
}

proof fn lemma_outcomes_of_filled<T>(slots: Seq<Option<T>>, n: nat)
    requires
        n <= slots.len(),
        forall|i: int| 0 <= i < n ==> (#[trigger] slots[i]) is Some,
    ensures
        outcomes(slots, n).len() == n,
        forall|i: int| 0 <= i < n ==> Some(#[trigger] outcomes(slots, n)[i]) == slots[i],
    decreases n,
{
    if n > 0 {
        lemma_outcomes_of_filled(slots, (n - 1) as nat);
        let before = outcomes(slots, (n - 1) as nat);
        assert(slots[n - 1] is Some);
        assert forall|i: int| 0 <= i < n implies Some(#[trigger] outcomes(slots, n)[i])
            == slots[i] by {
            if i < n - 1 {
                assert(outcomes(slots, n)[i] == before[i]);
            }
        }
    }
}

/// The outcome of one send changes no other: whatever comes of it, each send
/// keeps the outcome it has and can still get one.
pub proof fn lemma_sends_are_independent<T>(batch: BatchView<T>, i: int, item: T, j: int)
    requires
        batch.in_flight(i),
        0 <= j < batch.slots.len(),
        i != j,
        batch.started <= batch.slots.len(),
    ensures
        ({
            let next = batch.with_outcome(i, item);
            &&& next.slots[j] == batch.slots[j]
            &&& next.in_flight(j) == batch.in_flight(j)
            &&& next.slots[i] == Some(item)
        }),
{
}

// ---------------------------------------------------------------------------
// A whole run
// ---------------------------------------------------------------------------

/// One thing that happens to a batch.
pub enum BatchStep<T> {
    /// Its next send is started.
    Start,
    /// A send comes to its end.
    Finish(int, T),
}

impl<T> BatchView<T> {
    /// The step can be taken.
    pub open spec fn takes(self, step: BatchStep<T>) -> bool {
        match step {
            BatchStep::Start => self.may_start(),
            BatchStep::Finish(i, _) => self.in_flight(i),
        }
    }

    /// The batch behind the step.
    pub open spec fn after(self, step: BatchStep<T>) -> BatchView<T> {
        match step {
            BatchStep::Start => self.with_next_started(),
            BatchStep::Finish(i, item) => self.with_outcome(i, item),
        }
    }
}

/// A batch of `total` sends behind the steps.
pub open spec fn batch_after<T>(
    total: nat,
    concurrency: nat,
    steps: Seq<BatchStep<T>>,
) -> BatchView<T>
    decreases steps.len(),
{
    if steps.len() == 0 {
        BatchView::fresh(total, concurrency)
    } else {
        batch_after(total, concurrency, steps.drop_last()).after(steps.last())
    }
}

/// Each of the steps can be taken where its turn comes.
pub open spec fn batch_run<T>(total: nat, concurrency: nat, steps: Seq<BatchStep<T>>) -> bool
    decreases steps.len(),
{
    steps.len() > 0 ==> {
        &&& batch_run(total, concurrency, steps.drop_last())
        &&& batch_after(total, concurrency, steps.drop_last()).takes(steps.last())
    }
}

/// What holds of a batch behind every run.
spec fn kept_by_run<T>(
    total: nat,
    concurrency: nat,
    steps: Seq<BatchStep<T>>,
    batch: BatchView<T>,
) -> bool {
    &&& batch.limit == in_flight_limit(total, concurrency)
    &&& batch.slots.len() == total
    &&& batch.started <= total
    &&& batch.running() <= batch.limit
    &&& forall|i: int| batch.started <= i < total ==> (#[trigger] batch.slots[i]) is None
    &&& forall|i: int|
        0 <= i < total && (#[trigger] batch.slots[i]) is Some ==> steps.contains(
            BatchStep::Finish(i, batch.slots[i]->Some_0),
        )
    &&& forall|k: int|
        0 <= k < steps.len() ==> ((#[trigger] steps[k]) matches BatchStep::Finish(i, item) ==> 0
            <= i < total && batch.slots[i] == Some(item))
}

proof fn lemma_step_keeps<T>(
    total: nat,
    concurrency: nat,
    steps: Seq<BatchStep<T>>,
    batch: BatchView<T>,
    step: BatchStep<T>,
)
    requires
        kept_by_run(total, concurrency, steps, batch),
        batch.takes(step),
    ensures
        kept_by_run(total, concurrency, steps.push(step), batch.after(step)),
{
    let next = batch.after(step);
    let more = steps.push(step);
    match step {
        BatchStep::Start => {
            assert(batch.slots[batch.started as int] is None);
        },
        BatchStep::Finish(i, item) => {
            lemma_fill_slot(batch.slots, batch.started, i, item);
        },
    }
    assert forall|i: int| 0 <= i < total && (#[trigger] next.slots[i]) is Some implies more.contains(
        BatchStep::Finish(i, next.slots[i]->Some_0),
    ) by {
        if step is Finish && step->Finish_0 == i {
            assert(more[steps.len() as int] == BatchStep::Finish(i, next.slots[i]->Some_0));
        } else {
            assert(next.slots[i] == batch.slots[i]);
            let wanted = BatchStep::Finish(i, batch.slots[i]->Some_0);
            let k = choose|k: int| 0 <= k < steps.len() && steps[k] == wanted;
            assert(more[k] == wanted);
        }
    }
    assert forall|k: int| 0 <= k < more.len() implies ((#[trigger] more[k]) matches BatchStep::Finish(
        i,
        item,
    ) ==> 0 <= i < total && next.slots[i] == Some(item)) by {
        if k < steps.len() {
            assert(more[k] == steps[k]);
        }
    }
}

proof fn lemma_run_keeps<T>(total: nat, concurrency: nat, steps: Seq<BatchStep<T>>)
    requires
        batch_run(total, concurrency, steps),
    ensures
        kept_by_run(total, concurrency, steps, batch_after(total, concurrency, steps)),
    decreases steps.len(),
{
    if steps.len() > 0 {
        let before = steps.drop_last();
        lemma_run_keeps(total, concurrency, before);
        lemma_step_keeps(
            total,
            concurrency,
            before,
            batch_after(total, concurrency, before),
            steps.last(),
        );
        assert(before.push(steps.last()) =~= steps);
    }
}

proof fn lemma_run_of_prefix<T>(total: nat, concurrency: nat, steps: Seq<BatchStep<T>>, k: int)
    requires
        batch_run(total, concurrency, steps),
        0 <= k <= steps.len(),
    ensures
        batch_run(total, concurrency, steps.take(k)),
    decreases steps.len(),
{
    if k == steps.len() {
        assert(steps.take(k) =~= steps);
    } else {
        lemma_run_of_prefix(total, concurrency, steps.drop_last(), k);
        assert(steps.drop_last().take(k) =~= steps.take(k));
    }
}

/// However many sends a batch has and in whatever order they come to their end,
/// no more are in flight at any time than were asked for, where asking for none
/// means one. A batch in which nothing is in flight and nothing more may start
/// is complete. And a complete batch gives one outcome per send, in input order:
/// for each send exactly the one that it ended with.
pub proof fn lemma_a_batch_gives_each_outcome_in_order<T>(
    total: nat,
    concurrency: nat,
    steps: Seq<BatchStep<T>>,
)
    requires
        batch_run(total, concurrency, steps),
    ensures
        forall|k: int|
            0 <= k <= steps.len() ==> (#[trigger] batch_after(
                total,
                concurrency,
                steps.take(k),
            )).running() <= (if concurrency == 0 {
                1
            } else {
                concurrency
            }),
        ({
            let batch = batch_after(total, concurrency, steps);
            let results = outcomes(batch.slots, batch.slots.len());
            &&& batch.running() == 0 && !batch.may_start() ==> batch.complete()
            &&& batch.complete() ==> {
                &&& results.len() == total
                &&& forall|i: int|
                    0 <= i < total ==> steps.contains(
                        BatchStep::Finish(i, #[trigger] results[i]),
                    )
                &&& forall|k: int|
                    0 <= k < steps.len() ==> ((#[trigger] steps[k]) matches BatchStep::Finish(
                        i,
                        item,
                    ) ==> 0 <= i < total && results[i] == item)
            }
        }),
{
    assert forall|k: int| 0 <= k <= steps.len() implies (#[trigger] batch_after(
        total,
        concurrency,
        steps.take(k),
    )).running() <= (if concurrency == 0 {
        1
    } else {
        concurrency
    }) by {
        lemma_run_of_prefix(total, concurrency, steps, k);
        lemma_run_keeps(total, concurrency, steps.take(k));
    }
    lemma_run_keeps(total, concurrency, steps);
    let batch = batch_after(total, concurrency, steps);
    if batch.running() == 0 && !batch.may_start() {
        lemma_none_empty(batch.slots, batch.started);
    }
    if batch.complete() {
        lemma_one_outcome_per_send(batch);
    }
}

/// In a batch of messages, the results are the recipients as given, each with
/// the outcome of its own message, in the order of the messages.
pub proof fn lemma_a_batch_pairs_messages_with_outcomes(
    messages: Seq<Message>,
    ends: Seq<Result<Response>>,
    concurrency: nat,
    steps: Seq<BatchStep<BatchItem>>,
)
    requires
        ends.len() == messages.len(),
        batch_run(messages.len(), concurrency, steps),
        batch_after(messages.len(), concurrency, steps).complete(),
        forall|k: int|
            0 <= k < steps.len() ==> ((#[trigger] steps[k]) matches BatchStep::Finish(i, item)
                ==> item_of(messages[i], ends[i], item)),
    ensures
        ({
            let batch = batch_after(messages.len(), concurrency, steps);
            let results = outcomes(batch.slots, batch.slots.len());
            &&& results.len() == messages.len()
            &&& forall|i: int|
                0 <= i < messages.len() ==> (#[trigger] results[i]).0@ == messages[i]@.to
                    && results[i].1 == ends[i]
        }),
{
    lemma_a_batch_gives_each_outcome_in_order(messages.len(), concurrency, steps);
    let batch = batch_after(messages.len(), concurrency, steps);
    let results = outcomes(batch.slots, batch.slots.len());
    assert forall|i: int| 0 <= i < messages.len() implies (#[trigger] results[i]).0@
        == messages[i]@.to && results[i].1 == ends[i] by {
        let wanted = BatchStep::Finish(i, results[i]);
        let k = choose|k: int| 0 <= k < steps.len() && steps[k] == wanted;
        assert(steps[k] == wanted);
    }
}

/// As many sends are in flight as were asked for, as long as there are enough:
/// the next send may start exactly when one is left and fewer are in flight than
/// were asked for, where asking for none means one.
pub proof fn lemma_a_batch_uses_its_limit<T>(
    total: nat,
    concurrency: nat,
    steps: Seq<BatchStep<T>>,
)
    requires
        batch_run(total, concurrency, steps),
    ensures
        ({
            let batch = batch_after(total, concurrency, steps);
            let wanted: nat = if concurrency == 0 {
                1
            } else {
                concurrency
            };
            &&& batch.slots.len() == total
            &&& batch.may_start() <==> batch.started < total && batch.running() < wanted
            &&& batch.running() <= batch.started
        }),
{
    lemma_run_keeps(total, concurrency, steps);
    let batch = batch_after(total, concurrency, steps);
    lemma_empty_slots_bounded(batch.slots, batch.started);
}

proof fn lemma_empty_slots_bounded<T>(slots: Seq<Option<T>>, n: nat)
    ensures
        empty_slots(slots, n) <= n,
    decreases n,
{
    if n > 0 {
        lemma_empty_slots_bounded(slots, (n - 1) as nat);
    }
}

/// How many sends are in flight: those that were started and have not come to
/// their end, counted over the steps of the run.
pub proof fn lemma_in_flight_is_started_less_finished<T>(
    total: nat,
    concurrency: nat,
    steps: Seq<BatchStep<T>>,
)
    requires
        batch_run(total, concurrency, steps),
    ensures
        ({
            let batch = batch_after(total, concurrency, steps);
            let starts = steps.filter(|step: BatchStep<T>| step is Start).len();
            let ends = steps.filter(|step: BatchStep<T>| step is Finish).len();
            &&& batch.started == starts
            &&& batch.running() + ends == starts
        }),
    decreases steps.len(),
{
    reveal(Seq::filter);
    if steps.len() > 0 {
        let before = steps.drop_last();
        let batch = batch_after(total, concurrency, before);
        lemma_in_flight_is_started_less_finished(total, concurrency, before);
        lemma_run_keeps(total, concurrency, before);
        match steps.last() {
            BatchStep::Start => {
                assert(batch.slots[batch.started as int] is None);
            },
            BatchStep::Finish(i, item) => {
                lemma_fill_slot(batch.slots, batch.started, i, item);
            },
        }
    }
}

/// The result of a send comes with the number that the message was given, whatever
/// it was normalized to.
pub proof fn lemma_an_item_names_its_recipient(
    message: Message,
    outcome: Result<Response>,
    item: BatchItem,
)
    requires
        item_of(message, outcome, item),
    ensures
        item.0@ == message@.to,
        item.1 == outcome,
{
}

} // verus!
