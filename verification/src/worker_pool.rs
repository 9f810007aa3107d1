//! The worker pool as a state machine.
//!
//! The pool owns an unbounded FIFO queue of submissions, a bounded set of
//! execution slots and a registry of the task ids that currently occupy a
//! slot. It never runs anything itself: `dispatch_next` hands out the next
//! task to start, and `complete` takes back what the evaluator produced and
//! says where the result goes. Whoever drives the pool performs the evaluator
//! call between the two.
//!
//! Every submission gets a ticket, a number that grows by one per submission.
//! The ticket names the submission from then on: in the queue, in its slot,
//! and when its completion is reported.
use crate::host::{host_core_count, resolve_worker_count, resolved_worker_count};
use std::collections::VecDeque;
use vstd::prelude::*;
use vstd::string::StringExecFns;

verus! {

/// Errors of the pool.
#[derive(Debug)]
pub enum WorkerPoolError {
    /// The pool no longer accepts submissions, or cannot deliver a response.
    ShuttingDown,
    /// The evaluator reported an application error for a task.
    TaskFailed(String),
    /// A deadline passed before a response arrived.
    Timeout,
}

impl WorkerPoolError {
    /// The text of the error, as it is shown to a user.
    pub open spec fn spec_message(&self) -> Seq<char> {
        match self {
            WorkerPoolError::ShuttingDown => "Worker pool is shutting down"@,
            WorkerPoolError::TaskFailed(m) => "Task execution failed: "@ + m@,
            WorkerPoolError::Timeout => "Task timed out"@,
        }
    }

    /// Renders the error as text.
    pub fn message(&self) -> (s: String)
        ensures
            s@ == self.spec_message(),
    {
        match self {
            WorkerPoolError::ShuttingDown => String::from_str("Worker pool is shutting down"),
            WorkerPoolError::TaskFailed(m) => String::from_str("Task execution failed: ").concat(
                m.as_str(),
            ),
            WorkerPoolError::Timeout => String::from_str("Task timed out"),
        }
    }
}

/// Whether the submitter of a task waits for its result.
#[derive(Debug, Clone, Copy, PartialEq, Eq, Structural)]
pub enum ResponseMode {
    /// The submitter waits: the result is delivered under the task's ticket.
    Await,
    /// Fire and forget: the result is dropped when the task completes.
    Discard,
}

/// A task as the pool holds it: what to evaluate, and whether anyone waits
/// for the outcome.
#[derive(Debug)]
pub struct WorkerTask {
    pub id: String,
    pub function_string: String,
    pub data: serde_json::Value,
    pub timeout_ms: Option<u64>,
    pub response: ResponseMode,
}

/// The mathematical value of a [`WorkerTask`].
pub struct WorkerTaskView {
    pub id: Seq<char>,
    pub function_string: Seq<char>,
    pub data: serde_json::Value,
    pub timeout_ms: Option<u64>,
    pub response: ResponseMode,
}

impl WorkerTaskView {
    /// The same task with another response mode.
    pub open spec fn with_response(self, response: ResponseMode) -> WorkerTaskView {
        WorkerTaskView { response, ..self }
    }
}

impl View for WorkerTask {
    type V = WorkerTaskView;

    open spec fn view(&self) -> WorkerTaskView {
        WorkerTaskView {
            id: self.id@,
            function_string: self.function_string@,
            data: self.data,
            timeout_ms: self.timeout_ms,
            response: self.response,
        }
    }
}

/// What the evaluator produced for one task, with the time it took.
#[derive(Debug)]
pub struct TaskResult {
    pub id: String,
    pub result: Result<serde_json::Value, String>,
    pub duration_ms: u64,
}

/// The mathematical value of a [`TaskResult`].
pub struct TaskResultView {
    pub id: Seq<char>,
    pub result: Result<serde_json::Value, Seq<char>>,
    pub duration_ms: u64,
}

/// The mathematical value of an evaluator outcome: the payload on success,
/// the message on failure.
pub open spec fn outcome_view(outcome: Result<serde_json::Value, String>) -> Result<
    serde_json::Value,
    Seq<char>,
> {
    match outcome {
        Ok(v) => Ok(v),
        Err(m) => Err(m@),
    }
}

impl View for TaskResult {
    type V = TaskResultView;

    open spec fn view(&self) -> TaskResultView {
        TaskResultView {
            id: self.id@,
            result: outcome_view(self.result),
            duration_ms: self.duration_ms,
        }
    }
}

/// A queued submission in the model: its ticket and its task.
pub struct QueuedView {
    pub ticket: u64,
    pub task: WorkerTaskView,
}

/// A task that occupies an execution slot, in the model.
pub struct RunningView {
    pub ticket: u64,
    pub id: Seq<char>,
    pub response: ResponseMode,
}

/// The task handed out by a dispatch, in the model.
pub struct DispatchView {
    pub ticket: u64,
    pub id: Seq<char>,
    pub function_string: Seq<char>,
    pub data: serde_json::Value,
    pub timeout_ms: Option<u64>,
}

/// What a completion report leads to, in the model.
pub enum CompletionView {
    /// The result goes to the submitter that waits under this ticket.
    Deliver(TaskResultView),
    /// The task was fire-and-forget: its result is dropped.
    Discard,
    /// No running task has this ticket: the report is ignored.
    Unknown,
}

/// The events that move a pool from one state to the next.
pub enum PoolEvent {
    /// A submission whose submitter waits for the result.
    Submit(WorkerTaskView),
    /// A fire-and-forget submission.
    SubmitFire(WorkerTaskView),
    /// The dispatcher tries to start the task at the head of the queue.
    Dispatch,
    /// The evaluator call of the task with this ticket has returned.
    Complete(u64),
    /// The pool is shut down.
    Shutdown,
}

/// The mathematical state of a pool.
pub struct PoolState {
    /// The concurrency bound.
    pub worker_count: nat,
    /// Whether submissions are still accepted.
    pub accepting: bool,
    /// The ticket that the next submission gets.
    pub next_ticket: u64,
    /// Submissions that wait for a slot, oldest first.
    pub queue: Seq<QueuedView>,
    /// Tasks that occupy a slot, in the order in which they were started.
    pub running: Seq<RunningView>,
    /// The registry: ids of the tasks that are marked as executing.
    pub active: Set<Seq<char>>,
}

impl PoolState {
    /// A pool that has seen no event yet.
    pub open spec fn fresh(worker_count: nat) -> PoolState {
        PoolState {
            worker_count,
            accepting: true,
            next_ticket: 0,
            queue: Seq::empty(),
            running: Seq::empty(),
            active: Set::empty(),
        }
    }

    /// The invariant of every pool state.
    ///
    /// At most `worker_count` tasks run at once. Tickets are handed out in
    /// growing order, the queue holds them in that order, and every running
    /// task was submitted before every queued one.
    pub open spec fn wf(self) -> bool {
        &&& self.worker_count >= 1
        &&& self.running.len() <= self.worker_count
        &&& forall|i: int|
            0 <= i < self.queue.len() ==> (#[trigger] self.queue[i]).ticket < self.next_ticket
        &&& forall|i: int, j: int|
            0 <= i < j < self.queue.len() ==> (#[trigger] self.queue[i]).ticket < (
            #[trigger] self.queue[j]).ticket
        &&& forall|i: int|
            0 <= i < self.running.len() ==> (#[trigger] self.running[i]).ticket < self.next_ticket
        &&& forall|i: int, j: int|
            0 <= i < j < self.running.len() ==> (#[trigger] self.running[i]).ticket != (
            #[trigger] self.running[j]).ticket
        &&& forall|i: int, j: int|
            0 <= i < self.running.len() && 0 <= j < self.queue.len() ==> (
            #[trigger] self.running[i]).ticket < (#[trigger] self.queue[j]).ticket
    }

    /// Whether a submission is taken: the pool accepts, and a ticket is left.
    pub open spec fn takes_submissions(self) -> bool {
        self.accepting && self.next_ticket < u64::MAX
    }

    /// What a submitter is told: the ticket of the submission, or that the
    /// pool is shutting down.
    pub open spec fn admission(self) -> Result<u64, WorkerPoolError> {
        if self.accepting {
            Ok(self.next_ticket)
        } else {
            Err(WorkerPoolError::ShuttingDown)
        }
    }

    /// The state after a submission of `task`, which is appended to the queue
    /// under the next ticket. A pool that takes no submissions stays as it is.
    pub open spec fn submit(self, task: WorkerTaskView) -> PoolState {
        if self.takes_submissions() {
            PoolState {
                next_ticket: (self.next_ticket + 1) as u64,
                queue: self.queue.push(QueuedView { ticket: self.next_ticket, task }),
                ..self
            }
        } else {
            self
        }
    }

    /// The state after the submission of several tasks, one after the other:
    /// they stand at the end of the queue in their order, under consecutive
    /// tickets. A pool that is shut down stays as it is.
    pub open spec fn submit_batch(self, tasks: Seq<WorkerTaskView>) -> PoolState {
        if self.accepting && self.next_ticket + tasks.len() <= u64::MAX {
            PoolState {
                next_ticket: (self.next_ticket + tasks.len()) as u64,
                queue: self.queue + Seq::new(
                    tasks.len(),
                    |i: int| QueuedView { ticket: (self.next_ticket + i) as u64, task: tasks[i] },
                ),
                ..self
            }
        } else {
            self
        }
    }

    /// Whether the dispatcher can start a task: one is queued and a slot is
    /// free.
    pub open spec fn can_dispatch(self) -> bool {
        self.queue.len() > 0 && self.running.len() < self.worker_count
    }

    /// The task that the next dispatch hands out: the head of the queue.
    pub open spec fn next_dispatch(self) -> DispatchView
        recommends
            self.queue.len() > 0,
    {
        PoolState::dispatch_of(self.queue[0])
    }

    /// The state after a dispatch: the head of the queue takes a slot and its
    /// id enters the registry. Where nothing can be dispatched the state stays
    /// as it is.
    pub open spec fn dispatch(self) -> PoolState {
        if self.can_dispatch() {
            let head = self.queue[0];
            PoolState {
                queue: self.queue.subrange(1, self.queue.len() as int),
                running: self.running.push(
                    RunningView {
                        ticket: head.ticket,
                        id: head.task.id,
                        response: head.task.response,
                    },
                ),
                active: self.active.insert(head.task.id),
                ..self
            }
        } else {
            self
        }
    }

    /// The task that a dispatch hands out for a queued submission.
    pub open spec fn dispatch_of(entry: QueuedView) -> DispatchView {
        DispatchView {
            ticket: entry.ticket,
            id: entry.task.id,
            function_string: entry.task.function_string,
            data: entry.task.data,
            timeout_ms: entry.task.timeout_ms,
        }
    }

    /// How many tasks the dispatcher can start at once: as many as are
    /// queued, but no more than there are free slots.
    pub open spec fn startable(self) -> nat {
        let free = (self.worker_count - self.running.len()) as nat;
        if self.queue.len() <= free {
            self.queue.len()
        } else {
            free
        }
    }

    /// The state after the first `count` queued tasks have been started: they
    /// have left the queue and stand behind the running tasks in their order,
    /// and their ids are in the registry.
    pub open spec fn dispatch_many(self, count: nat) -> PoolState
        recommends
            count <= self.startable(),
    {
        PoolState {
            queue: self.queue.subrange(count as int, self.queue.len() as int),
            running: self.running + Seq::new(
                count,
                |i: int|
                    RunningView {
                        ticket: self.queue[i].ticket,
                        id: self.queue[i].task.id,
                        response: self.queue[i].task.response,
                    },
            ),
            active: self.active.union(
                Set::new(
                    |id: Seq<char>|
                        exists|i: int| 0 <= i < count && (#[trigger] self.queue[i]).task.id == id,
                ),
            ),
            ..self
        }
    }

    /// Whether the submission with this ticket waits in the queue.
    pub open spec fn is_queued(self, ticket: u64) -> bool {
        exists|i: int| 0 <= i < self.queue.len() && (#[trigger] self.queue[i]).ticket == ticket
    }

    /// Whether the task with this ticket occupies a slot.
    pub open spec fn is_running(self, ticket: u64) -> bool {
        exists|i: int| 0 <= i < self.running.len() && (#[trigger] self.running[i]).ticket == ticket
    }

    /// The position among the running tasks of the one with this ticket.
    pub open spec fn slot_of(self, ticket: u64) -> int
        recommends
            self.is_running(ticket),
    {
        choose|i: int| 0 <= i < self.running.len() && (#[trigger] self.running[i]).ticket == ticket
    }

    /// The state after the task with this ticket has completed: its slot is
    /// free again and its id has left the registry. A ticket that no running
    /// task has changes nothing.
    pub open spec fn complete(self, ticket: u64) -> PoolState {
        if self.is_running(ticket) {
            let slot = self.slot_of(ticket);
            PoolState {
                running: self.running.remove(slot),
                active: self.active.remove(self.running[slot].id),
                ..self
            }
        } else {
            self
        }
    }

    /// Where the result of a completion goes.
    pub open spec fn completion(
        self,
        ticket: u64,
        outcome: Result<serde_json::Value, Seq<char>>,
        duration_ms: u64,
    ) -> CompletionView {
        if self.is_running(ticket) {
            let entry = self.running[self.slot_of(ticket)];
            match entry.response {
                ResponseMode::Await => CompletionView::Deliver(
                    TaskResultView { id: entry.id, result: outcome, duration_ms },
                ),
                ResponseMode::Discard => CompletionView::Discard,
            }
        } else {
            CompletionView::Unknown
        }
    }

    /// The state after a shutdown: nothing more is accepted, and what is
    /// queued or running stays where it is.
    pub open spec fn close(self) -> PoolState {
        PoolState { accepting: false, ..self }
    }

    /// The state after one event.
    pub open spec fn step(self, event: PoolEvent) -> PoolState {
        match event {
            PoolEvent::Submit(task) => self.submit(task.with_response(ResponseMode::Await)),
            PoolEvent::SubmitFire(task) => self.submit(task.with_response(ResponseMode::Discard)),
            PoolEvent::Dispatch => self.dispatch(),
            PoolEvent::Complete(ticket) => self.complete(ticket),
            PoolEvent::Shutdown => self.close(),
        }
    }

    /// The state after a sequence of events, the first event first.
    pub open spec fn run(self, events: Seq<PoolEvent>) -> PoolState
        decreases events.len(),
    {
        if events.len() == 0 {
            self
        } else {
            self.run(events.drop_last()).step(events.last())
        }
    }
}

/// The message of the outcome of a task whose evaluator call broke off
/// without an answer.
pub open spec fn execution_error_text(detail: Seq<char>) -> Seq<char> {
    "Task execution error: "@ + detail
}

/// The outcome that is recorded for a task whose evaluator call broke off
/// without an answer: a failure whose message names the cause.
pub fn execution_error(detail: &str) -> (outcome: Result<serde_json::Value, String>)
    ensures
        outcome_view(outcome) == Err::<serde_json::Value, Seq<char>>(
            execution_error_text(detail@),
        ),
{
    Err(String::from_str("Task execution error: ").concat(detail))
}

/// The duration that a result records for an elapsed time in milliseconds:
/// the low 64 bits of the count.
pub fn duration_ms_of(elapsed_millis: u128) -> (ms: u64)
    ensures
        ms == elapsed_millis % 0x1_0000_0000_0000_0000,
        elapsed_millis <= u64::MAX ==> ms == elapsed_millis,
{
    let ms = #[verifier::truncate]
    (elapsed_millis as u64);
    assert(ms == elapsed_millis % 0x1_0000_0000_0000_0000) by (bit_vector)
        requires
            ms == (elapsed_millis as u64),
    ;
    ms
}

/// A submission in the queue.
struct Queued {
    ticket: u64,
    task: WorkerTask,
}

impl View for Queued {
    type V = QueuedView;

    closed spec fn view(&self) -> QueuedView {
        QueuedView { ticket: self.ticket, task: self.task@ }
    }
}

/// A task in an execution slot.
struct InFlight {
    ticket: u64,
    id: String,
    response: ResponseMode,
}

impl View for InFlight {
    type V = RunningView;

    closed spec fn view(&self) -> RunningView {
        RunningView { ticket: self.ticket, id: self.id@, response: self.response }
    }
}

/// A task that the dispatcher has started: what the evaluator is to be called
/// with, and the ticket under which its completion is reported.
#[derive(Debug)]
pub struct Dispatch {
    pub ticket: u64,
    pub id: String,
    pub function_string: String,
    pub data: serde_json::Value,
    pub timeout_ms: Option<u64>,
}

impl View for Dispatch {
    type V = DispatchView;

    open spec fn view(&self) -> DispatchView {
        DispatchView {
            ticket: self.ticket,
            id: self.id@,
            function_string: self.function_string@,
            data: self.data,
            timeout_ms: self.timeout_ms,
        }
    }
}

/// What the pool decides when a completion is reported.
#[derive(Debug)]
pub enum Completion {
    /// Deliver the result to the submitter that waits under the ticket.
    Deliver(TaskResult),
    /// The task was fire-and-forget: there is nobody to tell.
    Discard,
    /// No running task has the ticket: the report was ignored.
    Unknown,
}

impl View for Completion {
    type V = CompletionView;

    open spec fn view(&self) -> CompletionView {
        match self {
            Completion::Deliver(r) => CompletionView::Deliver(r@),
            Completion::Discard => CompletionView::Discard,
            Completion::Unknown => CompletionView::Unknown,
        }
    }
}

/// The ids that a registry holds.
pub open spec fn id_set(ids: Seq<String>) -> Set<Seq<char>> {
    Set::new(|s: Seq<char>| exists|i: int| 0 <= i < ids.len() && (#[trigger] ids[i])@ == s)
}

/// No id stands twice in a registry.
pub open spec fn ids_distinct(ids: Seq<String>) -> bool {
    forall|i: int, j: int|
        0 <= i < j < ids.len() ==> (#[trigger] ids[i])@ != (#[trigger] ids[j])@
}

/// Looks an id up in a registry.
fn find_id(ids: &Vec<String>, id: &String) -> (r: Option<usize>)
    ensures
        match r {
            Some(i) => i < ids.len() && ids@[i as int]@ == id@,
            None => !id_set(ids@).contains(id@),
        },
{
    let mut i: usize = 0;
    while i < ids.len()
        invariant
            i <= ids.len(),
            forall|j: int| 0 <= j < i ==> (#[trigger] ids@[j])@ != id@,
        decreases ids.len() - i,
    {
        if ids[i] == *id {
            return Some(i);
        }
        i += 1;
    }
    None
}

/// Enters an id into a registry. An id that is already there stays once.
fn register(ids: &mut Vec<String>, id: String)
    requires
        ids_distinct(old(ids)@),
    ensures
        ids_distinct(final(ids)@),
        id_set(final(ids)@) == id_set(old(ids)@).insert(id@),
{
    match find_id(ids, &id) {
        Some(at) => {
            proof {
                assert(id_set(ids@).contains(ids@[at as int]@));
                assert(id_set(ids@) =~= id_set(ids@).insert(id@));
            }
        },
        None => {
            let ghost before = ids@;
            ids.push(id);
            proof {
                assert forall|i: int, j: int| 0 <= i < j < ids@.len() implies (#[trigger] ids@[i])@
                    != (#[trigger] ids@[j])@ by {
                    if j == before.len() {
                        assert(id_set(before).contains(before[i]@));
                    }
                }
                assert forall|s: Seq<char>|
                    id_set(ids@).contains(s) <==> id_set(before).insert(id@).contains(s) by {
                    if id_set(ids@).contains(s) {
                        let i = choose|i: int| 0 <= i < ids@.len() && (#[trigger] ids@[i])@ == s;
                        if i < before.len() {
                            assert(before[i]@ == s);
                        }
                    }
                    if id_set(before).contains(s) {
                        let i = choose|i: int| 0 <= i < before.len() && (#[trigger] before[i])@ == s;
                        assert(ids@[i]@ == s);
                    }
                    if s == id@ {
                        assert(ids@[before.len() as int]@ == s);
                    }
                }
                assert(id_set(ids@) =~= id_set(before).insert(id@));
            }
        },
    }
}

/// Takes an id out of a registry. An id that is not there changes nothing.
fn unregister(ids: &mut Vec<String>, id: &String)
    requires
        ids_distinct(old(ids)@),
    ensures
        ids_distinct(final(ids)@),
        id_set(final(ids)@) == id_set(old(ids)@).remove(id@),
{
    match find_id(ids, id) {
        Some(at) => {
            let ghost before = ids@;
            let _ = ids.remove(at);
            proof {
                assert forall|i: int, j: int| 0 <= i < j < ids@.len() implies (#[trigger] ids@[i])@
                    != (#[trigger] ids@[j])@ by {
                    let bi = if i < at { i } else { i + 1 };
                    let bj = if j < at { j } else { j + 1 };
                    assert(ids@[i] == before[bi]);
                    assert(ids@[j] == before[bj]);
                }
                assert forall|s: Seq<char>|
                    id_set(ids@).contains(s) <==> id_set(before).remove(id@).contains(s) by {
                    if id_set(ids@).contains(s) {
                        let i = choose|i: int| 0 <= i < ids@.len() && (#[trigger] ids@[i])@ == s;
                        let bi = if i < at { i } else { i + 1 };
                        assert(ids@[i] == before[bi]);
                        assert(before[bi]@ == s);
                        assert(before[at as int]@ == id@);
                    }
                    if id_set(before).contains(s) && s != id@ {
                        let i = choose|i: int| 0 <= i < before.len() && (#[trigger] before[i])@ == s;
                        let ni = if i < at { i } else { i - 1 };
                        assert(ids@[ni] == before[i]);
                        assert(ids@[ni]@ == s);
                    }
                }
                assert(id_set(ids@) =~= id_set(before).remove(id@));
            }
        },
        None => {
            proof {
                assert(id_set(ids@) =~= id_set(ids@).remove(id@));
            }
        },
    }
}

/// The worker pool: queue, execution slots and registry.
pub struct WorkerPool {
    num_workers: usize,
    accepting: bool,
    next_ticket: u64,
    queue: VecDeque<Queued>,
    running: Vec<InFlight>,
    active_tasks: Vec<String>,
}

impl View for WorkerPool {
    type V = PoolState;

    closed spec fn view(&self) -> PoolState {
        PoolState {
            worker_count: self.num_workers as nat,
            accepting: self.accepting,
            next_ticket: self.next_ticket,
            queue: self.queue@.map_values(|q: Queued| q@),
            running: self.running@.map_values(|r: InFlight| r@),
            active: id_set(self.active_tasks@),
        }
    }
}

impl WorkerPool {
    /// The registry holds no id twice.
    pub closed spec fn registry_distinct(&self) -> bool {
        ids_distinct(self.active_tasks@)
    }

    /// The invariant of a pool: that of its state, and a registry without
    /// repetitions.
    pub open spec fn wf(&self) -> bool {
        self@.wf() && self.registry_distinct()
    }

    /// Creates a pool with `num_workers` execution slots. Zero stands for
    /// "as many as the host has logical cores".
    pub fn new(num_workers: usize) -> (pool: WorkerPool)
        ensures
            pool.wf(),
            pool@ == PoolState::fresh(pool@.worker_count),
            num_workers > 0 ==> pool@.worker_count == num_workers,
            pool@.worker_count >= 1,
    {
        if num_workers > 0 {
            WorkerPool::with_host_cores(num_workers, 1)
        } else {
            WorkerPool::with_host_cores(0, host_core_count())
        }
    }

    /// Creates a pool for a requested worker count on a host with the given
    /// number of cores.
    pub fn with_host_cores(num_workers: usize, host_cores: usize) -> (pool: WorkerPool)
        ensures
            pool.wf(),
            pool@ == PoolState::fresh(resolved_worker_count(num_workers, host_cores) as nat),
    {
        let pool = WorkerPool {
            num_workers: resolve_worker_count(num_workers, host_cores),
            accepting: true,
            next_ticket: 0,
            queue: VecDeque::new(),
            running: Vec::new(),
            active_tasks: Vec::new(),
        };
        proof {
            assert(pool@.queue =~= Seq::empty());
            assert(pool@.running =~= Seq::empty());
            assert(pool@.active =~= Set::empty());
        }
        pool
    }

    /// Appends a task to the queue under the next ticket.
    fn enqueue(&mut self, task: WorkerTask, response: ResponseMode) -> (ticket: u64)
        requires
            old(self).wf(),
            old(self)@.takes_submissions(),
        ensures
            final(self).wf(),
            ticket == old(self)@.next_ticket,
            final(self)@ == old(self)@.submit(task@.with_response(response)),
    {
        let ticket = self.next_ticket;
        let mut entry = task;
        entry.response = response;
        self.queue.push_back(Queued { ticket, task: entry });
        self.next_ticket = ticket + 1;
        proof {
            let expected = old(self)@.submit(task@.with_response(response));
            assert(self@.queue =~= expected.queue);
            assert(self@.running =~= expected.running);
            assert(self@ == expected);
        }
        ticket
    }

    /// Submits a task whose submitter waits for the result. On success the
    /// task stands at the end of the queue, and the ticket returned is the one
    /// under which its result will be delivered. A pool that is shut down
    /// rejects the task and stays as it is.
    pub fn submit_task(&mut self, task: WorkerTask) -> (r: Result<u64, WorkerPoolError>)
        requires
            old(self).wf(),
            old(self)@.next_ticket < u64::MAX,
        ensures
            final(self).wf(),
            final(self)@ == old(self)@.submit(task@.with_response(ResponseMode::Await)),
            r == old(self)@.admission(),
    {
        if !self.accepting {
            return Err(WorkerPoolError::ShuttingDown);
        }
        let ticket = self.enqueue(task, ResponseMode::Await);
        Ok(ticket)
    }

    /// Submits a task without waiting for its result (fire and forget). The
    /// task is queued like any other, but its result will be dropped. A pool
    /// that is shut down rejects the task and stays as it is.
    pub fn submit_task_fire(&mut self, task: WorkerTask) -> (r: Result<(), WorkerPoolError>)
        requires
            old(self).wf(),
            old(self)@.next_ticket < u64::MAX,
        ensures
            final(self).wf(),
            final(self)@ == old(self)@.submit(task@.with_response(ResponseMode::Discard)),
            match old(self)@.admission() {
                Ok(_) => r == Ok::<(), WorkerPoolError>(()),
                Err(e) => r == Err::<(), WorkerPoolError>(e),
            },
    {
        if !self.accepting {
            return Err(WorkerPoolError::ShuttingDown);
        }
        let _ = self.enqueue(task, ResponseMode::Discard);
        Ok(())
    }

    /// The number of execution slots.
    pub fn worker_count(&self) -> (n: usize)
        ensures
            n == self@.worker_count,
    {
        self.num_workers
    }

    /// Shuts the pool down: from now on every submission is rejected. Tasks
    /// that are queued or running are left alone and drain as usual.
    pub fn shutdown(&mut self) -> (r: Result<(), WorkerPoolError>)
        requires
            old(self).wf(),
        ensures
            final(self).wf(),
            final(self)@ == old(self)@.close(),
            r == Ok::<(), WorkerPoolError>(()),
    {
        self.accepting = false;
        Ok(())
    }
    /// Finds the slot of the running task with a ticket.
    fn find_running(&self, ticket: u64) -> (r: Option<usize>)
        requires
            self.wf(),
        ensures
            match r {
                Some(i) => self@.is_running(ticket) && i < self.running@.len() && i
                    == self@.slot_of(ticket),
                None => !self@.is_running(ticket),
            },
    {
        let mut i: usize = 0;
        while i < self.running.len()
            invariant
                self.wf(),
                i <= self.running@.len(),
                self@.running.len() == self.running@.len(),
                forall|j: int| 0 <= j < i ==> (#[trigger] self@.running[j]).ticket != ticket,
            decreases self.running.len() - i,
        {
            if self.running[i].ticket == ticket {
                proof {
                    assert(self@.running[i as int].ticket == ticket);
                    assert(self@.is_running(ticket));
                    let k = self@.slot_of(ticket);
                    assert(0 <= k < self@.running.len() && self@.running[k].ticket == ticket);
                    if k < i {
                        assert(self@.running[k].ticket != self@.running[i as int].ticket);
                    }
                    if i < k {
                        assert(self@.running[i as int].ticket != self@.running[k].ticket);
                    }
                }
                return Some(i);
            }
            proof {
                assert(self@.running[i as int].ticket != ticket);
            }
            i += 1;
        }
        None
    }

    /// Starts the task at the head of the queue if a slot is free: the task
    /// takes the slot, its id enters the registry, and what the evaluator is
    /// to be called with is handed out. With an empty queue, or with every
    /// slot taken, nothing happens and nothing is handed out.
    pub fn dispatch_next(&mut self) -> (r: Option<Dispatch>)
        requires
            old(self).wf(),
        ensures
            final(self).wf(),
            final(self)@ == old(self)@.dispatch(),
            old(self)@.can_dispatch() ==> r.is_some() && r.unwrap()@ == old(self)@.next_dispatch(),
            !old(self)@.can_dispatch() ==> r.is_none(),
    {
        if self.running.len() >= self.num_workers {
            return None;
        }
        match self.queue.pop_front() {
            None => None,
            Some(entry) => {
                let Queued { ticket, task } = entry;
                let WorkerTask { id, function_string, data, timeout_ms, response } = task;
                self.running.push(InFlight { ticket, id: id.clone(), response });
                register(&mut self.active_tasks, id.clone());
                proof {
                    let expected = old(self)@.dispatch();
                    assert(old(self)@.queue[0] == entry@);
                    assert(self@.queue =~= expected.queue);
                    assert(self@.running =~= expected.running);
                    assert(self@ == expected);
                }
                Some(Dispatch { ticket, id, function_string, data, timeout_ms })
            },
        }
    }

    /// Starts as many queued tasks as there are free slots, oldest first, and
    /// hands them out in the order in which they were started.
    pub fn dispatch_ready(&mut self) -> (started: Vec<Dispatch>)
        requires
            old(self).wf(),
        ensures
            final(self).wf(),
            final(self)@ == old(self)@.dispatch_many(old(self)@.startable()),
            started@.len() == old(self)@.startable(),
            forall|i: int|
                0 <= i < started@.len() ==> (#[trigger] started@[i])@ == PoolState::dispatch_of(
                    old(self)@.queue[i],
                ),
    {
        let ghost start = self@;
        let mut started: Vec<Dispatch> = Vec::new();
        proof {
            let same = start.dispatch_many(0);
            assert(same.queue =~= start.queue);
            assert(same.running =~= start.running);
            assert(same.active =~= start.active);
        }
        loop
            invariant
                start == old(self)@,
                start.wf(),
                self.wf(),
                started@.len() <= start.startable(),
                self@ == start.dispatch_many(started@.len() as nat),
                forall|i: int|
                    0 <= i < started@.len() ==> (#[trigger] started@[i])@
                        == PoolState::dispatch_of(start.queue[i]),
            decreases start.startable() - started@.len(),
        {
            let ghost done = started@.len() as nat;
            let ghost before = self@;
            match self.dispatch_next() {
                None => {
                    proof {
                        assert(!before.can_dispatch());
                        assert(before.queue.len() == start.queue.len() - done);
                        assert(before.running.len() == start.running.len() + done);
                    }
                    return started;
                },
                Some(task) => {
                    proof {
                        assert(before.can_dispatch());
                        assert(before.queue.len() == start.queue.len() - done);
                        assert(before.running.len() == start.running.len() + done);
                    }
                    started.push(task);
                    proof {
                        let after = start.dispatch_many(done + 1);
                        assert(before.queue[0] == start.queue[done as int]);
                        assert(self@.queue =~= after.queue);
                        assert(self@.running =~= after.running);
                        assert forall|id: Seq<char>|
                            self@.active.contains(id) <==> after.active.contains(id) by {
                            if self@.active.contains(id) && !after.active.contains(id) {
                                assert(id == start.queue[done as int].task.id);
                                assert(false);
                            }
                            if after.active.contains(id) && !start.active.contains(id) {
                                let i = choose|i: int|
                                    0 <= i < done + 1 && (#[trigger] start.queue[i]).task.id == id;
                                if i < done {
                                    assert(before.active.contains(id));
                                }
                            }
                        }
                        assert(self@.active =~= after.active);
                    }
                },
            }
        }
    }

    /// Reports that the evaluator call of the task with `ticket` has returned
    /// with `outcome` after `duration_ms`. The task leaves its slot and its id
    /// leaves the registry. A task whose submitter waits gets its result
    /// delivered, with the task's id; the result of a fire-and-forget task is
    /// dropped. An evaluator error is an ordinary outcome, delivered like any
    /// other. A ticket that no running task has is ignored.
    pub fn complete(
        &mut self,
        ticket: u64,
        outcome: Result<serde_json::Value, String>,
        duration_ms: u64,
    ) -> (r: Completion)
        requires
            old(self).wf(),
        ensures
            final(self).wf(),
            final(self)@ == old(self)@.complete(ticket),
            r@ == old(self)@.completion(ticket, outcome_view(outcome), duration_ms),
    {
        match self.find_running(ticket) {
            None => Completion::Unknown,
            Some(slot) => {
                let entry = self.running.remove(slot);
                unregister(&mut self.active_tasks, &entry.id);
                proof {
                    let expected = old(self)@.complete(ticket);
                    assert(old(self)@.running[slot as int] == entry@);
                    assert(self@.running =~= expected.running);
                    assert(self@ == expected);
                }
                match entry.response {
                    ResponseMode::Await => Completion::Deliver(
                        TaskResult { id: entry.id, result: outcome, duration_ms },
                    ),
                    ResponseMode::Discard => Completion::Discard,
                }
            },
        }
    }

    /// Whether the registry marks a task id as executing.
    pub fn is_active(&self, id: &String) -> (b: bool)
        ensures
            b == self@.active.contains(id@),
    {
        find_id(&self.active_tasks, id).is_some()
    }

    /// The number of execution slots that are taken.
    pub fn running_count(&self) -> (n: usize)
        ensures
            n == self@.running.len(),
    {
        self.running.len()
    }

    /// The number of submissions that wait for a slot.
    pub fn queued_count(&self) -> (n: usize)
        ensures
            n == self@.queue.len(),
    {
        self.queue.len()
    }

    /// Whether the pool still accepts submissions.
    pub fn is_accepting(&self) -> (b: bool)
        ensures
            b == self@.accepting,
    {
        self.accepting
    }

    /// How many more submissions the pool has tickets for.
    pub fn tickets_left(&self) -> (n: u64)
        ensures
            n == u64::MAX - self@.next_ticket,
    {
        u64::MAX - self.next_ticket
    }
}

} // verus!
