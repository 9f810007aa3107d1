//! The task executor: tasks as callers write them, the timeout rule, and the
//! entry points of the four combinators.
//!
//! The executor holds no queue and no concurrency state. It turns tasks into
//! pool submissions and hands back a batch (see [`crate::combinators`]) that
//! folds the events of those submissions into the combinator's result.
use crate::combinators::{AllBatch, RaceBatch, StreamBatch, Submitted, SubmittedView, Waiter};
use crate::json::{is_json_null, json_null};
use crate::worker_pool::{
    PoolState, ResponseMode, TaskResult as PoolTaskResult, TaskResultView as PoolTaskResultView,
    WorkerPool, WorkerPoolError, WorkerTask, WorkerTaskView,
};
use vstd::prelude::*;
use vstd::string::StringExecFns;

verus! {

/// Errors of the executor.
#[derive(Debug)]
pub enum TaskExecutorError {
    /// The pool failed, or the evaluator failed a task of a fail-fast batch.
    WorkerPool(WorkerPoolError),
    /// The caller's deadline passed before the task's result arrived.
    Timeout,
    /// A combinator was called with an empty list of tasks.
    NoTasks,
}

impl TaskExecutorError {
    /// The text of the error, as it is shown to a user.
    pub open spec fn spec_message(&self) -> Seq<char> {
        match self {
            TaskExecutorError::WorkerPool(e) => "Worker pool error: "@ + e.spec_message(),
            TaskExecutorError::Timeout => "Task timeout"@,
            TaskExecutorError::NoTasks => "No tasks provided"@,
        }
    }

    /// Renders the error as text.
    pub fn message(&self) -> (s: String)
        ensures
            s@ == self.spec_message(),
    {
        match self {
            TaskExecutorError::WorkerPool(e) => {
                let inner = e.message();
                String::from_str("Worker pool error: ").concat(inner.as_str())
            },
            TaskExecutorError::Timeout => String::from_str("Task timeout"),
            TaskExecutorError::NoTasks => String::from_str("No tasks provided"),
        }
    }
}

impl From<WorkerPoolError> for TaskExecutorError {
    fn from(e: WorkerPoolError) -> (r: TaskExecutorError) {
        TaskExecutorError::WorkerPool(e)
    }
}

impl vstd::std_specs::convert::FromSpecImpl<WorkerPoolError> for TaskExecutorError {
    open spec fn obeys_from_spec() -> bool {
        true
    }

    open spec fn from_spec(e: WorkerPoolError) -> TaskExecutorError {
        TaskExecutorError::WorkerPool(e)
    }
}

/// A task to be executed: an id that the caller chooses, what to evaluate,
/// the payload, and the task's own timeout in milliseconds if it has one.
#[derive(Debug)]
pub struct Task {
    pub id: String,
    pub function_string: String,
    pub data: serde_json::Value,
    pub timeout: Option<u64>,
}

/// The result of a task as the executor's callers see it. A task that the
/// evaluator failed has the message in `error` and a `null` payload.
#[derive(Debug)]
pub struct TaskResult {
    pub id: String,
    pub result: serde_json::Value,
    pub duration_ms: u64,
    pub error: Option<String>,
}

/// The mathematical value of a [`TaskResult`].
pub struct TaskResultView {
    pub id: Seq<char>,
    pub result: serde_json::Value,
    pub duration_ms: u64,
    pub error: Option<Seq<char>>,
}

impl View for TaskResult {
    type V = TaskResultView;

    open spec fn view(&self) -> TaskResultView {
        TaskResultView {
            id: self.id@,
            result: self.result,
            duration_ms: self.duration_ms,
            error: match self.error {
                Some(m) => Some(m@),
                None => None,
            },
        }
    }
}

/// What can end the wait for one submitted task.
#[derive(Debug)]
pub enum WaitEvent {
    /// The pool delivered the task's result.
    Delivered(PoolTaskResult),
    /// The response channel was closed before a result came through it.
    Dropped,
    /// The task's time limit passed first.
    Elapsed,
}

/// The timeout that applies to a task: its own, or else the default.
pub open spec fn effective_timeout_of(default_timeout_ms: u64, timeout: Option<u64>) -> u64 {
    match timeout {
        Some(t) => t,
        None => default_timeout_ms,
    }
}

/// How long a caller waits under a timeout: a timeout of zero means that the
/// wait has no limit.
pub open spec fn wait_limit_of(timeout_ms: u64) -> Option<u64> {
    if timeout_ms > 0 {
        Some(timeout_ms)
    } else {
        None
    }
}

/// The pool task that a task becomes under a default timeout.
pub open spec fn prepared(default_timeout_ms: u64, task: Task, response: ResponseMode)
    -> WorkerTaskView {
    WorkerTaskView {
        id: task.id@,
        function_string: task.function_string@,
        data: task.data,
        timeout_ms: Some(effective_timeout_of(default_timeout_ms, task.timeout)),
        response,
    }
}

/// The pool tasks that a list of tasks becomes.
pub open spec fn prepared_all(default_timeout_ms: u64, tasks: Seq<Task>, response: ResponseMode)
    -> Seq<WorkerTaskView> {
    Seq::new(tasks.len(), |i: int| prepared(default_timeout_ms, tasks[i], response))
}

/// The wait limits of a list of tasks.
pub open spec fn limits_of(default_timeout_ms: u64, tasks: Seq<Task>) -> Seq<Option<u64>> {
    Seq::new(
        tasks.len(),
        |i: int| wait_limit_of(effective_timeout_of(default_timeout_ms, tasks[i].timeout)),
    )
}

/// The tickets of a batch of tasks that is submitted to a pool in a state.
pub open spec fn tickets_for(default_timeout_ms: u64, pool: PoolState, tasks: Seq<Task>)
    -> SubmittedView {
    SubmittedView { first_ticket: pool.next_ticket, limits: limits_of(default_timeout_ms, tasks) }
}

/// Why a batch cannot be started, if it cannot: it is empty, or the pool is
/// shut down.
pub open spec fn batch_refusal(pool: PoolState, tasks: Seq<Task>) -> Option<TaskExecutorError> {
    if tasks.len() == 0 {
        Some(TaskExecutorError::NoTasks)
    } else if !pool.accepting {
        Some(TaskExecutorError::WorkerPool(WorkerPoolError::ShuttingDown))
    } else {
        None
    }
}

/// Whether `result` is what the executor hands out for a result `delivered`
/// by the pool: the same id and duration; on success the payload and no
/// error; on failure the message and a `null` payload.
pub open spec fn presents(delivered: PoolTaskResultView, result: TaskResultView) -> bool {
    &&& result.id == delivered.id
    &&& result.duration_ms == delivered.duration_ms
    &&& match delivered.result {
        Ok(payload) => result.result == payload && result.error.is_none(),
        Err(message) => is_json_null(result.result) && result.error == Some(message),
    }
}

/// Whether `outcome` is how the wait for one task ends on `event`: a delivered
/// result is presented, a closed channel means that the pool is shutting
/// down, and an elapsed limit is a timeout.
pub open spec fn settles(event: WaitEvent, outcome: Result<TaskResult, TaskExecutorError>) -> bool {
    match event {
        WaitEvent::Delivered(delivered) => outcome.is_ok() && presents(
            delivered@,
            outcome.unwrap()@,
        ),
        WaitEvent::Dropped => outcome == Err::<TaskResult, TaskExecutorError>(
            TaskExecutorError::WorkerPool(WorkerPoolError::ShuttingDown),
        ),
        WaitEvent::Elapsed => outcome == Err::<TaskResult, TaskExecutorError>(
            TaskExecutorError::Timeout,
        ),
    }
}

/// Coordinates task execution on a worker pool.
pub struct TaskExecutor {
    default_timeout_ms: u64,
}

impl TaskExecutor {
    /// The timeout, in milliseconds, of tasks that bring none of their own.
    pub closed spec fn default_timeout(&self) -> u64 {
        self.default_timeout_ms
    }

    /// Creates an executor with a default timeout of thirty seconds.
    pub fn new() -> (executor: TaskExecutor)
        ensures
            executor.default_timeout() == 30_000,
    {
        TaskExecutor { default_timeout_ms: 30_000 }
    }

    /// Sets the default timeout for tasks.
    pub fn set_default_timeout(&mut self, timeout_ms: u64)
        ensures
            final(self).default_timeout() == timeout_ms,
    {
        self.default_timeout_ms = timeout_ms;
    }

    /// The default timeout.
    pub fn get_default_timeout(&self) -> (timeout_ms: u64)
        ensures
            timeout_ms == self.default_timeout(),
    {
        self.default_timeout_ms
    }

    /// The timeout that applies to a task.
    pub fn effective_timeout(&self, task: &Task) -> (timeout_ms: u64)
        ensures
            timeout_ms == effective_timeout_of(self.default_timeout(), task.timeout),
    {
        match task.timeout {
            Some(t) => t,
            None => self.default_timeout_ms,
        }
    }

    /// The limit of a caller's wait under a timeout; `None` is a wait without
    /// limit.
    pub fn wait_limit(timeout_ms: u64) -> (limit: Option<u64>)
        ensures
            limit == wait_limit_of(timeout_ms),
    {
        if timeout_ms > 0 {
            Some(timeout_ms)
        } else {
            None
        }
    }

    /// Turns a task into the pool's form, with its effective timeout.
    pub fn worker_task(&self, task: Task, response: ResponseMode) -> (prepared_task: WorkerTask)
        ensures
            prepared_task@ == prepared(self.default_timeout(), task, response),
    {
        let timeout_ms = self.effective_timeout(&task);
        WorkerTask {
            id: task.id,
            function_string: task.function_string,
            data: task.data,
            timeout_ms: Some(timeout_ms),
            response,
        }
    }

    /// Presents a result that the pool delivered.
    pub fn present(delivered: PoolTaskResult) -> (result: TaskResult)
        ensures
            presents(delivered@, result@),
    {
        let PoolTaskResult { id, result, duration_ms } = delivered;
        match result {
            Ok(payload) => TaskResult { id, result: payload, duration_ms, error: None },
            Err(message) => TaskResult {
                id,
                result: json_null(),
                duration_ms,
                error: Some(message),
            },
        }
    }

    /// Ends the wait for one task on the event that came first.
    pub fn settle(event: WaitEvent) -> (outcome: Result<TaskResult, TaskExecutorError>)
        ensures
            settles(event, outcome),
    {
        match event {
            WaitEvent::Delivered(delivered) => Ok(TaskExecutor::present(delivered)),
            WaitEvent::Dropped => Err(TaskExecutorError::from(WorkerPoolError::ShuttingDown)),
            WaitEvent::Elapsed => Err(TaskExecutorError::Timeout),
        }
    }

    /// Submits one task to the pool, for a caller that waits for its result.
    /// The task is queued with its effective timeout; the wait that is handed
    /// back names the ticket and the limit of the wait. A pool that is shut
    /// down gives `ShuttingDown` and stays as it is.
    pub fn execute_single_task(&self, pool: &mut WorkerPool, task: Task) -> (r: Result<
        Waiter,
        TaskExecutorError,
    >)
        requires
            old(pool).wf(),
            old(pool)@.next_ticket < u64::MAX,
        ensures
            final(pool).wf(),
            final(pool)@ == old(pool)@.submit(
                prepared(self.default_timeout(), task, ResponseMode::Await),
            ),
            old(pool)@.accepting ==> r == Ok::<Waiter, TaskExecutorError>(
                Waiter {
                    ticket: old(pool)@.next_ticket,
                    limit_ms: wait_limit_of(
                        effective_timeout_of(self.default_timeout(), task.timeout),
                    ),
                },
            ),
            !old(pool)@.accepting ==> r == Err::<Waiter, TaskExecutorError>(
                TaskExecutorError::WorkerPool(WorkerPoolError::ShuttingDown),
            ),
    {
        let timeout_ms = self.effective_timeout(&task);
        let worker_task = self.worker_task(task, ResponseMode::Await);
        match pool.submit_task(worker_task) {
            Ok(ticket) => Ok(Waiter { ticket, limit_ms: TaskExecutor::wait_limit(timeout_ms) }),
            Err(e) => Err(TaskExecutorError::from(e)),
        }
    }

    /// Submits every task of a list to a pool that accepts submissions, in
    /// the order of the list.
    fn enqueue_all(&self, pool: &mut WorkerPool, tasks: Vec<Task>, response: ResponseMode) -> (limits:
        Vec<Option<u64>>)
        requires
            old(pool).wf(),
            old(pool)@.accepting,
            old(pool)@.next_ticket + tasks@.len() <= u64::MAX,
        ensures
            final(pool).wf(),
            final(pool)@ == old(pool)@.submit_batch(
                prepared_all(self.default_timeout(), tasks@, response),
            ),
            limits@ == limits_of(self.default_timeout(), tasks@),
    {
        let ghost all = tasks@;
        let ghost start = pool@;
        let mut limits: Vec<Option<u64>> = Vec::new();
        proof {
            assert(start.submit_batch(
                prepared_all(self.default_timeout(), all.subrange(0, 0), response),
            ).queue =~= start.queue);
        }
        for task in it: tasks.into_iter()
            invariant
                it.seq() == all,
                start.wf(),
                start.accepting,
                start.next_ticket + all.len() <= u64::MAX,
                pool.wf(),
                pool@ == start.submit_batch(
                    prepared_all(
                        self.default_timeout(),
                        all.subrange(0, it.index() as int),
                        response,
                    ),
                ),
                limits@ == limits_of(self.default_timeout(), all.subrange(0, it.index() as int)),
        {
            let ghost done = it.index() as int;
            let ghost before = pool@;
            let timeout_ms = self.effective_timeout(&task);
            let worker_task = self.worker_task(task, response);
            match response {
                ResponseMode::Await => {
                    let _ = pool.submit_task(worker_task);
                },
                ResponseMode::Discard => {
                    let _ = pool.submit_task_fire(worker_task);
                },
            }
            limits.push(TaskExecutor::wait_limit(timeout_ms));
            proof {
                let sooner = prepared_all(self.default_timeout(), all.subrange(0, done), response);
                let later = prepared_all(
                    self.default_timeout(),
                    all.subrange(0, done + 1),
                    response,
                );
                assert(all.subrange(0, done + 1)[done] == all[done]);
                assert forall|i: int| 0 <= i < done implies later[i] == sooner[i] by {
                    assert(all.subrange(0, done + 1)[i] == all.subrange(0, done)[i]);
                }
                assert(pool@.queue =~= start.submit_batch(later).queue);
                assert(pool@ == start.submit_batch(later));
                assert(limits@ =~= limits_of(
                    self.default_timeout(),
                    all.subrange(0, done + 1),
                )) by {
                    assert forall|i: int| 0 <= i < done implies all.subrange(0, done + 1)[i]
                        == all.subrange(0, done)[i] by {}
                }
            }
        }
        proof {
            assert(all.subrange(0, all.len() as int) =~= all);
        }
        limits
    }

    /// Submits a batch of tasks for callers that wait for the results.
    fn submit_all(&self, pool: &mut WorkerPool, tasks: Vec<Task>) -> (r: Result<
        Submitted,
        TaskExecutorError,
    >)
        requires
            old(pool).wf(),
            old(pool)@.next_ticket + tasks@.len() <= u64::MAX,
        ensures
            final(pool).wf(),
            match batch_refusal(old(pool)@, tasks@) {
                Some(e) => r == Err::<Submitted, TaskExecutorError>(e) && final(pool)@ == old(
                    pool,
                )@,
                None => r.is_ok() && r.unwrap()@ == tickets_for(
                    self.default_timeout(),
                    old(pool)@,
                    tasks@,
                ) && r.unwrap()@.wf() && final(pool)@ == old(pool)@.submit_batch(
                    prepared_all(self.default_timeout(), tasks@, ResponseMode::Await),
                ),
            },
    {
        if tasks.len() == 0 {
            return Err(TaskExecutorError::NoTasks);
        }
        if !pool.is_accepting() {
            return Err(TaskExecutorError::from(WorkerPoolError::ShuttingDown));
        }
        let first_ticket = u64::MAX - pool.tickets_left();
        let limits = self.enqueue_all(pool, tasks, ResponseMode::Await);
        Ok(Submitted::new(first_ticket, limits))
    }

    /// Starts a wait-for-all batch: every task is submitted to the pool, in
    /// the order of the list, and the batch that is handed back collects the
    /// results. An empty list gives `NoTasks`; a pool that is shut down gives
    /// `ShuttingDown`; in both cases nothing is submitted.
    pub fn execute_all(&self, pool: &mut WorkerPool, tasks: Vec<Task>) -> (r: Result<
        AllBatch,
        TaskExecutorError,
    >)
        requires
            old(pool).wf(),
            old(pool)@.next_ticket + tasks@.len() <= u64::MAX,
        ensures
            final(pool).wf(),
            match batch_refusal(old(pool)@, tasks@) {
                Some(e) => r == Err::<AllBatch, TaskExecutorError>(e) && final(pool)@ == old(
                    pool,
                )@,
                None => r.is_ok() && r.unwrap().wf() && r.unwrap()@ == crate::combinators::AllState::fresh(
                    tickets_for(self.default_timeout(), old(pool)@, tasks@),
                ) && final(pool)@ == old(pool)@.submit_batch(
                    prepared_all(self.default_timeout(), tasks@, ResponseMode::Await),
                ),
            },
    {
        match self.submit_all(pool, tasks) {
            Ok(submitted) => Ok(AllBatch::start(submitted)),
            Err(e) => Err(e),
        }
    }

    /// Starts a stream batch: every task is submitted to the pool, in the
    /// order of the list, and the batch that is handed back gathers the
    /// results as they arrive. An empty list gives `NoTasks`; a pool that is
    /// shut down gives `ShuttingDown`; in both cases nothing is submitted.
    pub fn execute_stream(&self, pool: &mut WorkerPool, tasks: Vec<Task>) -> (r: Result<
        StreamBatch,
        TaskExecutorError,
    >)
        requires
            old(pool).wf(),
            old(pool)@.next_ticket + tasks@.len() <= u64::MAX,
        ensures
            final(pool).wf(),
            match batch_refusal(old(pool)@, tasks@) {
                Some(e) => r == Err::<StreamBatch, TaskExecutorError>(e) && final(pool)@ == old(
                    pool,
                )@,
                None => r.is_ok() && r.unwrap().wf() && r.unwrap()@ == crate::combinators::StreamState::fresh(
                    tickets_for(self.default_timeout(), old(pool)@, tasks@),
                ) && final(pool)@ == old(pool)@.submit_batch(
                    prepared_all(self.default_timeout(), tasks@, ResponseMode::Await),
                ),
            },
    {
        match self.submit_all(pool, tasks) {
            Ok(submitted) => Ok(StreamBatch::start(submitted)),
            Err(e) => Err(e),
        }
    }

    /// Starts a race: every task is submitted to the pool, in the order of
    /// the list, and the batch that is handed back ends with the first
    /// outcome. An empty list gives `NoTasks`; a pool that is shut down gives
    /// `ShuttingDown`; in both cases nothing is submitted.
    pub fn execute_race(&self, pool: &mut WorkerPool, tasks: Vec<Task>) -> (r: Result<
        RaceBatch,
        TaskExecutorError,
    >)
        requires
            old(pool).wf(),
            old(pool)@.next_ticket + tasks@.len() <= u64::MAX,
        ensures
            final(pool).wf(),
            match batch_refusal(old(pool)@, tasks@) {
                Some(e) => r == Err::<RaceBatch, TaskExecutorError>(e) && final(pool)@ == old(
                    pool,
                )@,
                None => r.is_ok() && r.unwrap().wf() && r.unwrap()@ == (crate::combinators::RaceState {
                    submitted: tickets_for(self.default_timeout(), old(pool)@, tasks@),
                }) && final(pool)@ == old(pool)@.submit_batch(
                    prepared_all(self.default_timeout(), tasks@, ResponseMode::Await),
                ),
            },
    {
        match self.submit_all(pool, tasks) {
            Ok(submitted) => Ok(RaceBatch::start(submitted)),
            Err(e) => Err(e),
        }
    }

    /// Submits every task as fire-and-forget, in the order of the list, and
    /// returns without waiting: the tasks are queued, and their results will
    /// be dropped. A pool that is shut down takes none of them, and nothing
    /// tells the caller so.
    pub fn execute_fire(&self, pool: &mut WorkerPool, tasks: Vec<Task>)
        requires
            old(pool).wf(),
            old(pool)@.next_ticket + tasks@.len() <= u64::MAX,
        ensures
            final(pool).wf(),
            final(pool)@ == old(pool)@.submit_batch(
                prepared_all(self.default_timeout(), tasks@, ResponseMode::Discard),
            ),
    {
        if pool.is_accepting() {
            let _ = self.enqueue_all(pool, tasks, ResponseMode::Discard);
        }
    }
}

} // verus!
