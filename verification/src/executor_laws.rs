//! Laws that tie the executor to the pool: what the results of a batch have
//! to do with the tasks that were handed in.
use crate::pool_laws::lemma_batch_result_carries_task_id;
use crate::task_executor::{prepared_all, presents, tickets_for, Task, TaskResultView};
use crate::worker_pool::{
    CompletionView, PoolEvent, PoolState, ResponseMode, TaskResultView as DeliveredView,
};
use vstd::prelude::*;

verus! {

/// Every result belongs to its task. When a batch of tasks is submitted to a
/// pool that accepts it, the ticket of each task is the first ticket plus the
/// task's position in the list; and whatever happens in the pool afterwards,
/// the result that is delivered under that ticket, as the executor presents
/// it, has the id of that task, the duration that was reported, and either
/// the payload that the evaluator produced or its error message.
pub proof fn lemma_presented_result_belongs_to_its_task(
    default_timeout_ms: u64,
    pool: PoolState,
    tasks: Seq<Task>,
    index: int,
    events: Seq<PoolEvent>,
    outcome: Result<serde_json::Value, Seq<char>>,
    duration_ms: u64,
    delivered: DeliveredView,
    result: TaskResultView,
)
    requires
        pool.wf(),
        pool.accepting,
        pool.next_ticket + tasks.len() <= u64::MAX,
        0 <= index < tasks.len(),
        pool.submit_batch(prepared_all(default_timeout_ms, tasks, ResponseMode::Await)).run(
            events,
        ).completion((pool.next_ticket + index) as u64, outcome, duration_ms)
            == CompletionView::Deliver(delivered),
        presents(delivered, result),
    ensures
        tickets_for(default_timeout_ms, pool, tasks).holds((pool.next_ticket + index) as u64),
        tickets_for(default_timeout_ms, pool, tasks).index_of((pool.next_ticket + index) as u64)
            == index,
        result.id == tasks[index].id@,
        result.duration_ms == duration_ms,
        match outcome {
            Ok(payload) => result.result == payload && result.error.is_none(),
            Err(message) => result.error == Some(message),
        },
{
    lemma_batch_result_carries_task_id(
        pool,
        prepared_all(default_timeout_ms, tasks, ResponseMode::Await),
        index,
        events,
        outcome,
        duration_ms,
    );
}

} // verus!
