//! The combinators as state machines over the outcomes of submitted tasks.
//!
//! A batch is what a combinator leaves behind once its tasks are submitted:
//! the tickets it waits for and what has arrived so far. Each outcome that
//! arrives is fed to the batch, which either goes on waiting or finishes with
//! the combinator's result. The batch is consumed by every step, so that a
//! finished batch cannot be fed again.
use crate::task_executor::{TaskExecutorError, TaskResult};
use crate::worker_pool::WorkerPoolError;
use vstd::prelude::*;

verus! {

/// A caller's wait for one submitted task: the ticket under which the result
/// will be delivered, and how long to wait for it (`None`: without limit).
#[derive(Debug, Clone, Copy, PartialEq, Eq, Structural)]
pub struct Waiter {
    pub ticket: u64,
    pub limit_ms: Option<u64>,
}

/// The error that an outcome stands for in a fail-fast batch, if it is one:
/// the error of a wait that failed, or the evaluator's message for a task
/// that was evaluated and failed.
pub open spec fn failure_of(outcome: Result<TaskResult, TaskExecutorError>) -> Option<
    TaskExecutorError,
> {
    match outcome {
        Err(e) => Some(e),
        Ok(result) => match result.error {
            Some(message) => Some(
                TaskExecutorError::WorkerPool(WorkerPoolError::TaskFailed(message)),
            ),
            None => None,
        },
    }
}

/// Tells a success from a failure, as a fail-fast batch sees them.
pub fn fail_fast(outcome: Result<TaskResult, TaskExecutorError>) -> (r: Result<
    TaskResult,
    TaskExecutorError,
>)
    ensures
        match failure_of(outcome) {
            Some(e) => r == Err::<TaskResult, TaskExecutorError>(e),
            None => r == outcome && r.is_ok(),
        },
{
    match outcome {
        Err(e) => Err(e),
        Ok(result) => {
            if result.error.is_some() {
                let TaskResult { id: _, result: _, duration_ms: _, error } = result;
                Err(TaskExecutorError::WorkerPool(WorkerPoolError::TaskFailed(error.unwrap())))
            } else {
                Ok(result)
            }
        },
    }
}

/// An outcome together with the ticket under which it arrived.
pub struct Arrival {
    pub ticket: u64,
    pub outcome: Result<TaskResult, TaskExecutorError>,
}

/// The mathematical value of the tickets of a batch: consecutive tickets
/// starting at `first_ticket`, one per task, each with its wait limit.
pub struct SubmittedView {
    pub first_ticket: u64,
    pub limits: Seq<Option<u64>>,
}

impl SubmittedView {
    /// A batch has at least one task, and its tickets are numbers that exist.
    pub open spec fn wf(self) -> bool {
        self.limits.len() >= 1 && self.first_ticket + self.limits.len() <= u64::MAX
    }

    /// Whether a ticket belongs to the batch.
    pub open spec fn holds(self, ticket: u64) -> bool {
        self.first_ticket <= ticket < self.first_ticket + self.limits.len()
    }

    /// The position, in the order of submission, of the task with a ticket.
    pub open spec fn index_of(self, ticket: u64) -> int {
        ticket - self.first_ticket
    }

    /// The wait for the task at a position.
    pub open spec fn waiter(self, index: int) -> Waiter {
        Waiter { ticket: (self.first_ticket + index) as u64, limit_ms: self.limits[index] }
    }
}

/// The tickets of a batch of submitted tasks.
#[derive(Debug)]
pub struct Submitted {
    first_ticket: u64,
    limits: Vec<Option<u64>>,
}

impl View for Submitted {
    type V = SubmittedView;

    closed spec fn view(&self) -> SubmittedView {
        SubmittedView { first_ticket: self.first_ticket, limits: self.limits@ }
    }
}

impl Submitted {
    /// The tickets of a batch whose first ticket and wait limits are given.
    pub(crate) fn new(first_ticket: u64, limits: Vec<Option<u64>>) -> (s: Submitted)
        ensures
            s@ == (SubmittedView { first_ticket, limits: limits@ }),
    {
        Submitted { first_ticket, limits }
    }

    /// The number of tasks in the batch.
    pub fn len(&self) -> (n: usize)
        ensures
            n == self@.limits.len(),
    {
        self.limits.len()
    }

    /// The position of the task with a ticket, if the ticket belongs to the
    /// batch.
    pub fn index_of(&self, ticket: u64) -> (r: Option<usize>)
        ensures
            match r {
                Some(index) => self@.holds(ticket) && index == self@.index_of(ticket),
                None => !self@.holds(ticket),
            },
    {
        if ticket < self.first_ticket {
            return None;
        }
        let offset: u64 = ticket - self.first_ticket;
        if offset < self.limits.len() as u64 {
            Some(offset as usize)
        } else {
            None
        }
    }

    /// The wait for the task at a position, if there is such a task.
    pub fn waiter(&self, index: usize) -> (r: Option<Waiter>)
        requires
            self@.wf(),
        ensures
            index < self@.limits.len() ==> r == Some(self@.waiter(index as int)),
            index >= self@.limits.len() ==> r.is_none(),
    {
        if index < self.limits.len() {
            Some(Waiter { ticket: self.first_ticket + index as u64, limit_ms: self.limits[index] })
        } else {
            None
        }
    }
}

/// The number of empty places in a sequence of optional results.
pub open spec fn count_missing(slots: Seq<Option<TaskResult>>) -> nat
    decreases slots.len(),
{
    if slots.len() == 0 {
        0
    } else {
        count_missing(slots.drop_last()) + if slots.last().is_none() {
            1nat
        } else {
            0nat
        }
    }
}

/// Filling an empty place leaves one empty place fewer.
pub proof fn lemma_fill_counts_down(slots: Seq<Option<TaskResult>>, index: int, result: TaskResult)
    requires
        0 <= index < slots.len(),
        slots[index].is_none(),
    ensures
        count_missing(slots) >= 1,
        count_missing(slots.update(index, Some(result))) == count_missing(slots) - 1,
    decreases slots.len(),
{
    let filled = slots.update(index, Some(result));
    if index == slots.len() - 1 {
        assert(filled.drop_last() =~= slots.drop_last());
    } else {
        lemma_fill_counts_down(slots.drop_last(), index, result);
        assert(filled.drop_last() =~= slots.drop_last().update(index, Some(result)));
    }
}

/// No place is empty exactly when the count of empty places is zero, and the
/// count never exceeds the length.
pub proof fn lemma_missing_none(slots: Seq<Option<TaskResult>>)
    ensures
        count_missing(slots) <= slots.len(),
        count_missing(slots) == 0 <==> (forall|i: int|
            0 <= i < slots.len() ==> (#[trigger] slots[i]).is_some()),
        (forall|i: int| 0 <= i < slots.len() ==> (#[trigger] slots[i]).is_none())
            ==> count_missing(slots) == slots.len(),
    decreases slots.len(),
{
    if slots.len() > 0 {
        lemma_missing_none(slots.drop_last());
        assert forall|i: int| 0 <= i < slots.drop_last().len() implies slots.drop_last()[i]
            == slots[i] by {}
        if count_missing(slots) == 0 {
            assert forall|i: int| 0 <= i < slots.len() implies (#[trigger] slots[i]).is_some() by {
                if i < slots.len() - 1 {
                    assert(slots.drop_last()[i].is_some());
                }
            }
        }
        if forall|i: int| 0 <= i < slots.len() ==> (#[trigger] slots[i]).is_some() {
            assert(slots.last().is_some());
            assert forall|i: int| 0 <= i < slots.drop_last().len() implies (
            #[trigger] slots.drop_last()[i]).is_some() by {
                assert(slots[i].is_some());
            }
        }
        if forall|i: int| 0 <= i < slots.len() ==> (#[trigger] slots[i]).is_none() {
            assert(slots.last().is_none());
            assert forall|i: int| 0 <= i < slots.drop_last().len() implies (
            #[trigger] slots.drop_last()[i]).is_none() by {
                assert(slots[i].is_none());
            }
        }
    }
}

/// The results that stand in a sequence of filled places.
pub open spec fn gathered(slots: Seq<Option<TaskResult>>) -> Seq<TaskResult> {
    Seq::new(slots.len(), |i: int| slots[i].unwrap())
}

/// Takes the results out of their places, in order.
fn gather(slots: Vec<Option<TaskResult>>) -> (results: Vec<TaskResult>)
    requires
        forall|i: int| 0 <= i < slots@.len() ==> (#[trigger] slots@[i]).is_some(),
    ensures
        results@ == gathered(slots@),
{
    let ghost all = slots@;
    let mut rest = slots;
    let mut reversed: Vec<TaskResult> = Vec::new();
    while rest.len() > 0
        invariant
            rest@.len() + reversed@.len() == all.len(),
            rest@ == all.subrange(0, rest@.len() as int),
            forall|i: int| 0 <= i < all.len() ==> (#[trigger] all[i]).is_some(),
            forall|k: int|
                0 <= k < reversed@.len() ==> #[trigger] reversed@[k] == all[all.len() - 1
                    - k].unwrap(),
        decreases rest@.len(),
    {
        let ghost before = rest@;
        let last = rest.pop();
        proof {
            assert(last == Some(before[before.len() - 1]));
            assert(before[before.len() - 1] == all[before.len() - 1]);
            assert(all[before.len() - 1].is_some());
            assert(rest@ =~= all.subrange(0, rest@.len() as int));
        }
        reversed.push(last.unwrap().unwrap());
    }
    let ghost turned = reversed@;
    let mut results: Vec<TaskResult> = Vec::new();
    while reversed.len() > 0
        invariant
            turned.len() == all.len(),
            reversed@.len() + results@.len() == all.len(),
            reversed@ == turned.subrange(0, reversed@.len() as int),
            forall|k: int|
                0 <= k < turned.len() ==> #[trigger] turned[k] == all[all.len() - 1 - k].unwrap(),
            forall|i: int| 0 <= i < results@.len() ==> #[trigger] results@[i] == all[i].unwrap(),
        decreases reversed@.len(),
    {
        let ghost before = reversed@;
        let last = reversed.pop();
        proof {
            assert(last == Some(before[before.len() - 1]));
            assert(before[before.len() - 1] == turned[before.len() - 1]);
            assert(reversed@ =~= turned.subrange(0, reversed@.len() as int));
        }
        results.push(last.unwrap());
    }
    proof {
        assert(results@ =~= gathered(all));
    }
    results
}

/// The mathematical state of a wait-for-all batch: for each task, in the
/// order of submission, its result if it has arrived.
pub struct AllState {
    pub submitted: SubmittedView,
    pub slots: Seq<Option<TaskResult>>,
}

/// A step of a wait-for-all batch, in the model.
pub enum AllVerdict {
    /// Results are still missing.
    Waiting(AllState),
    /// The batch is over, with every result in the order of submission or
    /// with the first failure.
    Finished(Result<Seq<TaskResult>, TaskExecutorError>),
}

impl AllState {
    /// The state of a batch for which nothing has arrived.
    pub open spec fn fresh(submitted: SubmittedView) -> AllState {
        AllState { submitted, slots: Seq::new(submitted.limits.len(), |i: int| None) }
    }

    /// One place per task.
    pub open spec fn wf(self) -> bool {
        self.submitted.wf() && self.slots.len() == self.submitted.limits.len()
    }

    /// Whether the batch still waits for the task with a ticket.
    pub open spec fn expects(self, ticket: u64) -> bool {
        self.submitted.holds(ticket) && self.slots[self.submitted.index_of(ticket)].is_none()
    }

    /// Whether every result has arrived.
    pub open spec fn is_full(self) -> bool {
        forall|i: int| 0 <= i < self.slots.len() ==> (#[trigger] self.slots[i]).is_some()
    }

    /// The state with the result of the task with a ticket put in its place.
    pub open spec fn filled(self, ticket: u64, result: TaskResult) -> AllState {
        AllState {
            slots: self.slots.update(self.submitted.index_of(ticket), Some(result)),
            ..self
        }
    }

    /// What an outcome that arrives under a ticket leads to. An outcome that
    /// the batch does not wait for is ignored. The first failure ends the
    /// batch with that failure. A success takes its place, and the batch ends
    /// with all results, in the order of submission, once every place is
    /// taken.
    pub open spec fn step(self, ticket: u64, outcome: Result<TaskResult, TaskExecutorError>)
        -> AllVerdict {
        if !self.expects(ticket) {
            AllVerdict::Waiting(self)
        } else {
            match failure_of(outcome) {
                Some(e) => AllVerdict::Finished(Err(e)),
                None => {
                    let next = self.filled(ticket, outcome.unwrap());
                    if next.is_full() {
                        AllVerdict::Finished(Ok(gathered(next.slots)))
                    } else {
                        AllVerdict::Waiting(next)
                    }
                },
            }
        }
    }

    /// What a sequence of arrivals leads to, the first arrival first. Once
    /// the batch is over, later arrivals change nothing.
    pub open spec fn run(self, arrivals: Seq<Arrival>) -> AllVerdict
        decreases arrivals.len(),
    {
        if arrivals.len() == 0 {
            AllVerdict::Waiting(self)
        } else {
            match self.run(arrivals.drop_last()) {
                AllVerdict::Waiting(state) => state.step(
                    arrivals.last().ticket,
                    arrivals.last().outcome,
                ),
                AllVerdict::Finished(result) => AllVerdict::Finished(result),
            }
        }
    }
}

/// A wait-for-all batch in flight.
#[derive(Debug)]
pub struct AllBatch {
    submitted: Submitted,
    slots: Vec<Option<TaskResult>>,
    missing: usize,
}

/// What a wait-for-all batch does on an outcome.
#[derive(Debug)]
pub enum AllStep {
    /// Results are still missing: go on with this batch.
    Waiting(AllBatch),
    /// The batch is over, with this result.
    Finished(Result<Vec<TaskResult>, TaskExecutorError>),
}

impl View for AllBatch {
    type V = AllState;

    closed spec fn view(&self) -> AllState {
        AllState { submitted: self.submitted@, slots: self.slots@ }
    }
}

impl AllStep {
    /// Whether the step is the one that the model prescribes.
    pub open spec fn agrees_with(self, verdict: AllVerdict) -> bool {
        match verdict {
            AllVerdict::Waiting(state) => match self {
                AllStep::Waiting(batch) => batch.wf() && batch@ == state,
                _ => false,
            },
            AllVerdict::Finished(Ok(results)) => match self {
                AllStep::Finished(Ok(v)) => v@ == results,
                _ => false,
            },
            AllVerdict::Finished(Err(e)) => self == AllStep::Finished(Err(e)),
        }
    }
}

impl AllBatch {
    /// The count of missing results is kept in step with the places.
    pub closed spec fn counted(&self) -> bool {
        self.missing == count_missing(self.slots@) && self.missing >= 1
    }

    /// The invariant of a batch in flight.
    pub open spec fn wf(&self) -> bool {
        self@.wf() && self.counted()
    }

    /// Starts the wait for a batch of submitted tasks.
    pub(crate) fn start(submitted: Submitted) -> (batch: AllBatch)
        requires
            submitted@.wf(),
        ensures
            batch.wf(),
            batch@ == AllState::fresh(submitted@),
    {
        let n = submitted.len();
        let mut slots: Vec<Option<TaskResult>> = Vec::new();
        let mut i: usize = 0;
        while i < n
            invariant
                i <= n,
                slots@.len() == i,
                forall|k: int| 0 <= k < i ==> (#[trigger] slots@[k]).is_none(),
            decreases n - i,
        {
            slots.push(None);
            i += 1;
        }
        proof {
            lemma_missing_none(slots@);
            assert(slots@ =~= AllState::fresh(submitted@).slots);
        }
        AllBatch { submitted, slots, missing: n }
    }

    /// The tickets that the batch waits for.
    pub fn submitted(&self) -> (s: &Submitted)
        ensures
            s@ == self@.submitted,
    {
        &self.submitted
    }

    /// Feeds the batch the outcome that arrived under a ticket.
    pub fn on_outcome(self, ticket: u64, outcome: Result<TaskResult, TaskExecutorError>) -> (step:
        AllStep)
        requires
            self.wf(),
        ensures
            step.agrees_with(self@.step(ticket, outcome)),
    {
        let ghost before = self@;
        let mut batch = self;
        let index = match batch.submitted.index_of(ticket) {
            None => {
                return AllStep::Waiting(batch);
            },
            Some(i) => i,
        };
        assert(index as int == before.submitted.index_of(ticket));
        if batch.slots[index].is_some() {
            return AllStep::Waiting(batch);
        }
        match fail_fast(outcome) {
            Err(e) => AllStep::Finished(Err(e)),
            Ok(result) => {
                proof {
                    lemma_fill_counts_down(batch.slots@, index as int, result);
                }
                batch.slots.set(index, Some(result));
                batch.missing = batch.missing - 1;
                proof {
                    lemma_missing_none(batch.slots@);
                    assert(batch@ == before.filled(ticket, result));
                }
                if batch.missing == 0 {
                    AllStep::Finished(Ok(gather(batch.slots)))
                } else {
                    AllStep::Waiting(batch)
                }
            },
        }
    }
}

/// The mathematical state of a stream batch: which tasks are settled, and
/// the results that have arrived, in the order of their arrival.
pub struct StreamState {
    pub submitted: SubmittedView,
    pub settled: Seq<bool>,
    pub results: Seq<TaskResult>,
}

/// A step of a stream batch, in the model.
pub enum StreamVerdict {
    /// Results are still missing.
    Waiting(StreamState),
    /// The batch is over, with every result in the order of arrival or with
    /// the first failure.
    Finished(Result<Seq<TaskResult>, TaskExecutorError>),
}

impl StreamState {
    /// The state of a batch for which nothing has arrived.
    pub open spec fn fresh(submitted: SubmittedView) -> StreamState {
        StreamState {
            submitted,
            settled: Seq::new(submitted.limits.len(), |i: int| false),
            results: Seq::empty(),
        }
    }

    /// One mark per task.
    pub open spec fn wf(self) -> bool {
        self.submitted.wf() && self.settled.len() == self.submitted.limits.len()
    }

    /// Whether the batch still waits for the task with a ticket.
    pub open spec fn expects(self, ticket: u64) -> bool {
        self.submitted.holds(ticket) && !self.settled[self.submitted.index_of(ticket)]
    }

    /// The state with the result of the task with a ticket added at the end.
    pub open spec fn extended(self, ticket: u64, result: TaskResult) -> StreamState {
        StreamState {
            settled: self.settled.update(self.submitted.index_of(ticket), true),
            results: self.results.push(result),
            ..self
        }
    }

    /// What an outcome that arrives under a ticket leads to. An outcome that
    /// the batch does not wait for is ignored. The first failure ends the
    /// batch with that failure, and the results gathered so far are dropped.
    /// A success is added behind the results that arrived before it, and the
    /// batch ends once it holds as many results as it has tasks.
    pub open spec fn step(self, ticket: u64, outcome: Result<TaskResult, TaskExecutorError>)
        -> StreamVerdict {
        if !self.expects(ticket) {
            StreamVerdict::Waiting(self)
        } else {
            match failure_of(outcome) {
                Some(e) => StreamVerdict::Finished(Err(e)),
                None => {
                    let next = self.extended(ticket, outcome.unwrap());
                    if next.results.len() >= next.submitted.limits.len() {
                        StreamVerdict::Finished(Ok(next.results))
                    } else {
                        StreamVerdict::Waiting(next)
                    }
                },
            }
        }
    }

    /// What a sequence of arrivals leads to, the first arrival first. Once
    /// the batch is over, later arrivals change nothing.
    pub open spec fn run(self, arrivals: Seq<Arrival>) -> StreamVerdict
        decreases arrivals.len(),
    {
        if arrivals.len() == 0 {
            StreamVerdict::Waiting(self)
        } else {
            match self.run(arrivals.drop_last()) {
                StreamVerdict::Waiting(state) => state.step(
                    arrivals.last().ticket,
                    arrivals.last().outcome,
                ),
                StreamVerdict::Finished(result) => StreamVerdict::Finished(result),
            }
        }
    }
}

/// A stream batch in flight.
#[derive(Debug)]
pub struct StreamBatch {
    submitted: Submitted,
    settled: Vec<bool>,
    results: Vec<TaskResult>,
}

/// What a stream batch does on an outcome.
#[derive(Debug)]
pub enum StreamStep {
    /// Results are still missing: go on with this batch.
    Waiting(StreamBatch),
    /// The batch is over, with this result.
    Finished(Result<Vec<TaskResult>, TaskExecutorError>),
}

impl View for StreamBatch {
    type V = StreamState;

    closed spec fn view(&self) -> StreamState {
        StreamState {
            submitted: self.submitted@,
            settled: self.settled@,
            results: self.results@,
        }
    }
}

impl StreamStep {
    /// Whether the step is the one that the model prescribes.
    pub open spec fn agrees_with(self, verdict: StreamVerdict) -> bool {
        match verdict {
            StreamVerdict::Waiting(state) => match self {
                StreamStep::Waiting(batch) => batch.wf() && batch@ == state,
                _ => false,
            },
            StreamVerdict::Finished(Ok(results)) => match self {
                StreamStep::Finished(Ok(v)) => v@ == results,
                _ => false,
            },
            StreamVerdict::Finished(Err(e)) => self == StreamStep::Finished(Err(e)),
        }
    }
}

impl StreamBatch {
    /// The invariant of a batch in flight.
    pub open spec fn wf(&self) -> bool {
        self@.wf()
    }

    /// Starts the wait for a batch of submitted tasks.
    pub(crate) fn start(submitted: Submitted) -> (batch: StreamBatch)
        requires
            submitted@.wf(),
        ensures
            batch.wf(),
            batch@ == StreamState::fresh(submitted@),
    {
        let n = submitted.len();
        let mut settled: Vec<bool> = Vec::new();
        let mut i: usize = 0;
        while i < n
            invariant
                i <= n,
                settled@.len() == i,
                forall|k: int| 0 <= k < i ==> !(#[trigger] settled@[k]),
            decreases n - i,
        {
            settled.push(false);
            i += 1;
        }
        let batch = StreamBatch { submitted, settled, results: Vec::new() };
        proof {
            assert(batch@.settled =~= StreamState::fresh(submitted@).settled);
            assert(batch@.results =~= StreamState::fresh(submitted@).results);
        }
        batch
    }

    /// The tickets that the batch waits for.
    pub fn submitted(&self) -> (s: &Submitted)
        ensures
            s@ == self@.submitted,
    {
        &self.submitted
    }

    /// Feeds the batch the outcome that arrived under a ticket.
    pub fn on_outcome(self, ticket: u64, outcome: Result<TaskResult, TaskExecutorError>) -> (step:
        StreamStep)
        requires
            self.wf(),
        ensures
            step.agrees_with(self@.step(ticket, outcome)),
    {
        let mut batch = self;
        let index = match batch.submitted.index_of(ticket) {
            None => {
                return StreamStep::Waiting(batch);
            },
            Some(i) => i,
        };
        if batch.settled[index] {
            return StreamStep::Waiting(batch);
        }
        match fail_fast(outcome) {
            Err(e) => StreamStep::Finished(Err(e)),
            Ok(result) => {
                batch.settled.set(index, true);
                batch.results.push(result);
                if batch.results.len() >= batch.submitted.len() {
                    StreamStep::Finished(Ok(batch.results))
                } else {
                    StreamStep::Waiting(batch)
                }
            },
        }
    }
}

/// The mathematical state of a race: the tickets that take part.
pub struct RaceState {
    pub submitted: SubmittedView,
}

/// A step of a race, in the model.
pub enum RaceVerdict {
    /// No task of the race has settled yet.
    Waiting(RaceState),
    /// The race is over: this is the outcome of the task that settled first.
    Finished(Result<TaskResult, TaskExecutorError>),
}

impl RaceState {
    /// What an outcome that arrives under a ticket leads to. The first
    /// outcome of a task of the race ends it, whether the task succeeded or
    /// failed; an outcome under any other ticket is ignored.
    pub open spec fn step(self, ticket: u64, outcome: Result<TaskResult, TaskExecutorError>)
        -> RaceVerdict {
        if self.submitted.holds(ticket) {
            RaceVerdict::Finished(outcome)
        } else {
            RaceVerdict::Waiting(self)
        }
    }

    /// What a sequence of arrivals leads to, the first arrival first. Once
    /// the race is over, later arrivals change nothing.
    pub open spec fn run(self, arrivals: Seq<Arrival>) -> RaceVerdict
        decreases arrivals.len(),
    {
        if arrivals.len() == 0 {
            RaceVerdict::Waiting(self)
        } else {
            match self.run(arrivals.drop_last()) {
                RaceVerdict::Waiting(state) => state.step(
                    arrivals.last().ticket,
                    arrivals.last().outcome,
                ),
                RaceVerdict::Finished(result) => RaceVerdict::Finished(result),
            }
        }
    }
}

/// A race in flight.
#[derive(Debug)]
pub struct RaceBatch {
    submitted: Submitted,
}

/// What a race does on an outcome.
#[derive(Debug)]
pub enum RaceStep {
    /// No task of the race has settled yet: go on with this batch.
    Waiting(RaceBatch),
    /// The race is over, with this result. The other tasks are left to run.
    Finished(Result<TaskResult, TaskExecutorError>),
}

impl View for RaceBatch {
    type V = RaceState;

    closed spec fn view(&self) -> RaceState {
        RaceState { submitted: self.submitted@ }
    }
}

impl RaceStep {
    /// Whether the step is the one that the model prescribes.
    pub open spec fn agrees_with(self, verdict: RaceVerdict) -> bool {
        match verdict {
            RaceVerdict::Waiting(state) => match self {
                RaceStep::Waiting(batch) => batch.wf() && batch@ == state,
                _ => false,
            },
            RaceVerdict::Finished(outcome) => self == RaceStep::Finished(outcome),
        }
    }
}

impl RaceBatch {
    /// The invariant of a race in flight.
    pub open spec fn wf(&self) -> bool {
        self@.submitted.wf()
    }

    /// Starts the wait for a batch of submitted tasks.
    pub(crate) fn start(submitted: Submitted) -> (batch: RaceBatch)
        requires
            submitted@.wf(),
        ensures
            batch.wf(),
            batch@ == (RaceState { submitted: submitted@ }),
    {
        RaceBatch { submitted }
    }

    /// The tickets that take part in the race.
    pub fn submitted(&self) -> (s: &Submitted)
        ensures
            s@ == self@.submitted,
    {
        &self.submitted
    }

    /// Feeds the race the outcome that arrived under a ticket.
    pub fn on_outcome(self, ticket: u64, outcome: Result<TaskResult, TaskExecutorError>) -> (step:
        RaceStep)
        requires
            self.wf(),
        ensures
            step.agrees_with(self@.step(ticket, outcome)),
    {
        match self.submitted.index_of(ticket) {
            Some(_) => RaceStep::Finished(outcome),
            None => RaceStep::Waiting(self),
        }
    }
}

} // verus!
