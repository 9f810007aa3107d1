//! Laws of the worker pool, proved over its mathematical state: what holds
//! after every sequence of events, whoever drives the pool and in whatever
//! order the events arrive.
use crate::worker_pool::{
    CompletionView, PoolEvent, PoolState, ResponseMode, WorkerPoolError, WorkerTaskView,
};
use vstd::prelude::*;

verus! {

/// Every event leads from a well-formed state to a well-formed state.
pub proof fn lemma_step_preserves_wf(state: PoolState, event: PoolEvent)
    requires
        state.wf(),
    ensures
        state.step(event).wf(),
{
    let next = state.step(event);
    match event {
        PoolEvent::Submit(_) | PoolEvent::SubmitFire(_) => {
            if state.takes_submissions() {
                assert forall|i: int, j: int| 0 <= i < j < next.queue.len() implies (
                #[trigger] next.queue[i]).ticket < (#[trigger] next.queue[j]).ticket by {
                    if j == state.queue.len() {
                        assert(next.queue[i] == state.queue[i]);
                    }
                }
                assert forall|i: int, j: int|
                    0 <= i < next.running.len() && 0 <= j < next.queue.len() implies (
                #[trigger] next.running[i]).ticket < (#[trigger] next.queue[j]).ticket by {
                    if j < state.queue.len() {
                        assert(next.queue[j] == state.queue[j]);
                    }
                }
            }
        },
        PoolEvent::Dispatch => {
            if state.can_dispatch() {
                let head = state.queue[0];
                assert forall|i: int| 0 <= i < next.queue.len() implies (
                #[trigger] next.queue[i]).ticket < next.next_ticket by {
                    assert(next.queue[i] == state.queue[i + 1]);
                }
                assert forall|i: int, j: int| 0 <= i < j < next.queue.len() implies (
                #[trigger] next.queue[i]).ticket < (#[trigger] next.queue[j]).ticket by {
                    assert(next.queue[i] == state.queue[i + 1]);
                    assert(next.queue[j] == state.queue[j + 1]);
                }
                assert forall|i: int, j: int| 0 <= i < j < next.running.len() implies (
                #[trigger] next.running[i]).ticket != (#[trigger] next.running[j]).ticket by {
                    if j == state.running.len() {
                        assert(next.running[i] == state.running[i]);
                        assert(state.running[i].ticket < head.ticket);
                    }
                }
                assert forall|i: int, j: int|
                    0 <= i < next.running.len() && 0 <= j < next.queue.len() implies (
                #[trigger] next.running[i]).ticket < (#[trigger] next.queue[j]).ticket by {
                    assert(next.queue[j] == state.queue[j + 1]);
                    if i == state.running.len() {
                        assert(head.ticket < state.queue[j + 1].ticket);
                    } else {
                        assert(next.running[i] == state.running[i]);
                    }
                }
            }
        },
        PoolEvent::Complete(ticket) => {
            if state.is_running(ticket) {
                let slot = state.slot_of(ticket);
                assert forall|i: int| 0 <= i < next.running.len() implies (
                #[trigger] next.running[i]).ticket < next.next_ticket by {
                    let b = if i < slot { i } else { i + 1 };
                    assert(next.running[i] == state.running[b]);
                }
                assert forall|i: int, j: int| 0 <= i < j < next.running.len() implies (
                #[trigger] next.running[i]).ticket != (#[trigger] next.running[j]).ticket by {
                    let bi = if i < slot { i } else { i + 1 };
                    let bj = if j < slot { j } else { j + 1 };
                    assert(next.running[i] == state.running[bi]);
                    assert(next.running[j] == state.running[bj]);
                }
                assert forall|i: int, j: int|
                    0 <= i < next.running.len() && 0 <= j < next.queue.len() implies (
                #[trigger] next.running[i]).ticket < (#[trigger] next.queue[j]).ticket by {
                    let b = if i < slot { i } else { i + 1 };
                    assert(next.running[i] == state.running[b]);
                }
            }
        },
        PoolEvent::Shutdown => {},
    }
}

/// The invariant holds after every sequence of events.
pub proof fn lemma_run_preserves_wf(state: PoolState, events: Seq<PoolEvent>)
    requires
        state.wf(),
    ensures
        state.run(events).wf(),
    decreases events.len(),
{
    if events.len() > 0 {
        lemma_run_preserves_wf(state, events.drop_last());
        lemma_step_preserves_wf(state.run(events.drop_last()), events.last());
    }
}

/// The concurrency bound: however many tasks are submitted and in whatever
/// order the events arrive, a pool with `workers` slots never has more than
/// `workers` tasks running at once, and its bound never changes.
pub proof fn lemma_concurrency_bound(workers: nat, events: Seq<PoolEvent>)
    requires
        workers >= 1,
    ensures
        PoolState::fresh(workers).run(events).running.len() <= workers,
        PoolState::fresh(workers).run(events).worker_count == workers,
    decreases events.len(),
{
    let start = PoolState::fresh(workers);
    lemma_run_preserves_wf(start, events);
    if events.len() > 0 {
        lemma_concurrency_bound(workers, events.drop_last());
    }
}

/// First come, first started: in every state that a fresh pool can reach,
/// each running task was submitted before each task that still waits.
pub proof fn lemma_dispatch_follows_submission_order(
    workers: nat,
    events: Seq<PoolEvent>,
    slot: int,
    place: int,
)
    requires
        workers >= 1,
        0 <= slot < PoolState::fresh(workers).run(events).running.len(),
        0 <= place < PoolState::fresh(workers).run(events).queue.len(),
    ensures
        PoolState::fresh(workers).run(events).running[slot].ticket < PoolState::fresh(
            workers,
        ).run(events).queue[place].ticket,
{
    lemma_run_preserves_wf(PoolState::fresh(workers), events);
}

/// A shutdown is final: whatever happens afterwards, every submission, be it
/// awaited or fire-and-forget, is told that the pool is shutting down, and
/// leaves the state as it is.
pub proof fn lemma_no_submission_after_shutdown(
    state: PoolState,
    events: Seq<PoolEvent>,
    task: WorkerTaskView,
)
    ensures
        state.close().run(events).admission() == Err::<u64, WorkerPoolError>(
            WorkerPoolError::ShuttingDown,
        ),
        state.close().run(events).submit(task) == state.close().run(events),
    decreases events.len(),
{
    if events.len() > 0 {
        lemma_no_submission_after_shutdown(state, events.drop_last(), task);
    }
}

/// A slot is given back by the completion of its own task and by nothing
/// else. As long as the completion of a running task is not reported, the
/// task keeps its slot: no submission, dispatch, shutdown or completion of
/// another task releases it, and a caller that stops waiting is no event of
/// the pool at all.
pub proof fn lemma_slot_held_until_completion(
    state: PoolState,
    events: Seq<PoolEvent>,
    ticket: u64,
)
    requires
        state.wf(),
        state.is_running(ticket),
        forall|k: int| 0 <= k < events.len() ==> events[k] != PoolEvent::Complete(ticket),
    ensures
        state.run(events).is_running(ticket),
    decreases events.len(),
{
    if events.len() > 0 {
        let before = state.run(events.drop_last());
        let event = events.last();
        assert forall|k: int| 0 <= k < events.drop_last().len() implies events.drop_last()[k]
            != PoolEvent::Complete(ticket) by {
            assert(events.drop_last()[k] == events[k]);
        }
        lemma_slot_held_until_completion(state, events.drop_last(), ticket);
        lemma_run_preserves_wf(state, events.drop_last());
        let after = before.step(event);
        let at = before.slot_of(ticket);
        match event {
            PoolEvent::Dispatch => {
                if before.can_dispatch() {
                    assert(after.running[at] == before.running[at]);
                }
            },
            PoolEvent::Complete(other) => {
                if before.is_running(other) {
                    let gone = before.slot_of(other);
                    assert(gone != at);
                    let to = if at < gone { at } else { at - 1 };
                    assert(after.running[to] == before.running[at]);
                }
            },
            _ => {},
        }
    }
}

/// Whether, in a state, the submission with `ticket` can only belong to the
/// task with this id: wherever the ticket stands, in the queue or in a slot,
/// it stands with the id.
pub open spec fn ticket_bound_to(state: PoolState, ticket: u64, id: Seq<char>) -> bool {
    &&& forall|i: int|
        0 <= i < state.queue.len() && (#[trigger] state.queue[i]).ticket == ticket
            ==> state.queue[i].task.id == id
    &&& forall|i: int|
        0 <= i < state.running.len() && (#[trigger] state.running[i]).ticket == ticket
            ==> state.running[i].id == id
}

/// A submission that is taken stands in the queue under the ticket that was
/// the next one, bound to the id of its task.
pub proof fn lemma_submission_binds_ticket(state: PoolState, task: WorkerTaskView)
    requires
        state.wf(),
        state.takes_submissions(),
    ensures
        state.submit(task).is_queued(state.next_ticket),
        ticket_bound_to(state.submit(task), state.next_ticket, task.id),
{
    let next = state.submit(task);
    assert(next.queue[state.queue.len() as int].ticket == state.next_ticket);
    assert forall|i: int|
        0 <= i < next.queue.len() && (#[trigger] next.queue[i]).ticket
            == state.next_ticket implies next.queue[i].task.id == task.id by {
        if i < state.queue.len() {
            assert(next.queue[i] == state.queue[i]);
        }
    }
}

/// A ticket keeps its task: once a submission stands under a ticket, no
/// sequence of events puts another task's id under that ticket, and the
/// result that its completion delivers carries the id of the submitted task.
pub proof fn lemma_result_carries_submitted_id(
    state: PoolState,
    events: Seq<PoolEvent>,
    ticket: u64,
    id: Seq<char>,
    outcome: Result<serde_json::Value, Seq<char>>,
    duration_ms: u64,
)
    requires
        state.wf(),
        ticket < state.next_ticket,
        ticket_bound_to(state, ticket, id),
    ensures
        ticket < state.run(events).next_ticket,
        ticket_bound_to(state.run(events), ticket, id),
        match state.run(events).completion(ticket, outcome, duration_ms) {
            CompletionView::Deliver(result) => result.id == id && result.result == outcome
                && result.duration_ms == duration_ms,
            _ => true,
        },
    decreases events.len(),
{
    if events.len() > 0 {
        let before = state.run(events.drop_last());
        let event = events.last();
        lemma_result_carries_submitted_id(
            state,
            events.drop_last(),
            ticket,
            id,
            outcome,
            duration_ms,
        );
        lemma_run_preserves_wf(state, events.drop_last());
        let after = before.step(event);
        match event {
            PoolEvent::Submit(_) | PoolEvent::SubmitFire(_) => {
                if before.takes_submissions() {
                    assert forall|i: int|
                        0 <= i < after.queue.len() && (#[trigger] after.queue[i]).ticket
                            == ticket implies after.queue[i].task.id == id by {
                        if i < before.queue.len() {
                            assert(after.queue[i] == before.queue[i]);
                        }
                    }
                }
            },
            PoolEvent::Dispatch => {
                if before.can_dispatch() {
                    assert forall|i: int|
                        0 <= i < after.queue.len() && (#[trigger] after.queue[i]).ticket
                            == ticket implies after.queue[i].task.id == id by {
                        assert(after.queue[i] == before.queue[i + 1]);
                    }
                    assert forall|i: int|
                        0 <= i < after.running.len() && (#[trigger] after.running[i]).ticket
                            == ticket implies after.running[i].id == id by {
                        if i < before.running.len() {
                            assert(after.running[i] == before.running[i]);
                        } else {
                            assert(before.queue[0].ticket == ticket);
                        }
                    }
                }
            },
            PoolEvent::Complete(other) => {
                if before.is_running(other) {
                    let gone = before.slot_of(other);
                    assert forall|i: int|
                        0 <= i < after.running.len() && (#[trigger] after.running[i]).ticket
                            == ticket implies after.running[i].id == id by {
                        let b = if i < gone { i } else { i + 1 };
                        assert(after.running[i] == before.running[b]);
                    }
                }
            },
            PoolEvent::Shutdown => {},
        }
    }
    let last = state.run(events);
    if last.is_running(ticket) {
        let at = last.slot_of(ticket);
        assert(last.running[at].ticket == ticket);
    }
}

/// The submission events of a list of tasks, one per task, in order.
pub open spec fn submissions(tasks: Seq<WorkerTaskView>) -> Seq<PoolEvent> {
    Seq::new(
        tasks.len(),
        |i: int|
            match tasks[i].response {
                ResponseMode::Await => PoolEvent::Submit(tasks[i]),
                ResponseMode::Discard => PoolEvent::SubmitFire(tasks[i]),
            },
    )
}

/// Submitting a batch is the same as submitting its tasks one by one, so
/// what holds after every sequence of events holds after a batch too.
pub proof fn lemma_batch_is_single_submissions(state: PoolState, tasks: Seq<WorkerTaskView>)
    requires
        state.next_ticket + tasks.len() <= u64::MAX,
    ensures
        state.submit_batch(tasks) == state.run(submissions(tasks)),
    decreases tasks.len(),
{
    if tasks.len() == 0 {
        assert(state.submit_batch(tasks).queue =~= state.queue);
    } else {
        let sooner = tasks.drop_last();
        let last = tasks.last();
        lemma_batch_is_single_submissions(state, sooner);
        assert(submissions(tasks).drop_last() =~= submissions(sooner));
        assert(last.with_response(last.response) == last);
        let before = state.submit_batch(sooner);
        assert(state.run(submissions(tasks)) == before.submit(last));
        if state.accepting {
            assert(before.submit(last).queue =~= state.submit_batch(tasks).queue);
        }
    }
}

/// After a batch is submitted to a pool that accepts it, each of its tasks
/// waits in the queue under its own ticket, the first ticket plus the task's
/// position in the batch, and that ticket is bound to the task's id.
pub proof fn lemma_batch_binds_tickets(state: PoolState, tasks: Seq<WorkerTaskView>, index: int)
    requires
        state.wf(),
        state.accepting,
        state.next_ticket + tasks.len() <= u64::MAX,
        0 <= index < tasks.len(),
    ensures
        state.submit_batch(tasks).wf(),
        state.submit_batch(tasks).is_queued((state.next_ticket + index) as u64),
        ticket_bound_to(
            state.submit_batch(tasks),
            (state.next_ticket + index) as u64,
            tasks[index].id,
        ),
{
    let after = state.submit_batch(tasks);
    let ticket = (state.next_ticket + index) as u64;
    lemma_batch_is_single_submissions(state, tasks);
    lemma_run_preserves_wf(state, submissions(tasks));
    assert(after.queue[state.queue.len() + index].ticket == ticket);
    assert forall|i: int|
        0 <= i < after.queue.len() && (#[trigger] after.queue[i]).ticket
            == ticket implies after.queue[i].task.id == tasks[index].id by {
        if i < state.queue.len() {
            assert(after.queue[i] == state.queue[i]);
        }
    }
}

/// The result of a batch task carries the task's id. After a batch is
/// submitted to a pool that accepts it, and whatever happens then, the result
/// that is delivered under the ticket of a task of the batch has that task's
/// id, and holds the outcome and the duration that were reported.
pub proof fn lemma_batch_result_carries_task_id(
    state: PoolState,
    tasks: Seq<WorkerTaskView>,
    index: int,
    events: Seq<PoolEvent>,
    outcome: Result<serde_json::Value, Seq<char>>,
    duration_ms: u64,
)
    requires
        state.wf(),
        state.accepting,
        state.next_ticket + tasks.len() <= u64::MAX,
        0 <= index < tasks.len(),
    ensures
        match state.submit_batch(tasks).run(events).completion(
            (state.next_ticket + index) as u64,
            outcome,
            duration_ms,
        ) {
            CompletionView::Deliver(result) => result.id == tasks[index].id && result.result
                == outcome && result.duration_ms == duration_ms,
            _ => true,
        },
{
    lemma_batch_binds_tickets(state, tasks, index);
    lemma_result_carries_submitted_id(
        state.submit_batch(tasks),
        events,
        (state.next_ticket + index) as u64,
        tasks[index].id,
        outcome,
        duration_ms,
    );
}

/// Starting several tasks at once is the same as starting them one by one,
/// so what holds after every sequence of events holds after that too.
pub proof fn lemma_dispatch_many_is_single_dispatches(state: PoolState, count: nat)
    requires
        state.wf(),
        count <= state.startable(),
    ensures
        state.dispatch_many(count) == state.run(Seq::new(count, |i: int| PoolEvent::Dispatch)),
    decreases count,
{
    let events = Seq::new(count, |i: int| PoolEvent::Dispatch);
    if count == 0 {
        let same = state.dispatch_many(0);
        assert(same.queue =~= state.queue);
        assert(same.running =~= state.running);
        assert(same.active =~= state.active);
    } else {
        let sooner = (count - 1) as nat;
        lemma_dispatch_many_is_single_dispatches(state, sooner);
        assert(events.drop_last() =~= Seq::new(sooner, |i: int| PoolEvent::Dispatch));
        let before = state.dispatch_many(sooner);
        let after = state.dispatch_many(count);
        assert(before.can_dispatch());
        assert(before.queue[0] == state.queue[sooner as int]);
        let stepped = before.dispatch();
        assert(stepped.queue =~= after.queue);
        assert(stepped.running =~= after.running);
        assert forall|id: Seq<char>| stepped.active.contains(id) <==> after.active.contains(
            id,
        ) by {
            if stepped.active.contains(id) && !after.active.contains(id) {
                assert(id == state.queue[sooner as int].task.id);
                assert(false);
            }
            if after.active.contains(id) && !state.active.contains(id) {
                let i = choose|i: int|
                    0 <= i < count && (#[trigger] state.queue[i]).task.id == id;
                if i < sooner {
                    assert(before.active.contains(id));
                }
            }
        }
        assert(stepped.active =~= after.active);
    }
}

/// Whether the submission with `ticket` is over: the ticket was handed out,
/// and stands neither in the queue nor in a slot.
pub open spec fn ticket_retired(state: PoolState, ticket: u64) -> bool {
    ticket < state.next_ticket && !state.is_queued(ticket) && !state.is_running(ticket)
}

/// At most one result per task. Once the completion of a running task has
/// been reported, its ticket never comes back: whatever happens afterwards,
/// a further report under that ticket is ignored and delivers nothing.
pub proof fn lemma_result_delivered_at_most_once(
    state: PoolState,
    ticket: u64,
    events: Seq<PoolEvent>,
    outcome: Result<serde_json::Value, Seq<char>>,
    duration_ms: u64,
)
    requires
        state.wf(),
        state.is_running(ticket),
    ensures
        ticket_retired(state.complete(ticket).run(events), ticket),
        state.complete(ticket).run(events).completion(ticket, outcome, duration_ms)
            == CompletionView::Unknown,
    decreases events.len(),
{
    let start = state.complete(ticket);
    lemma_step_preserves_wf(state, PoolEvent::Complete(ticket));
    if events.len() == 0 {
        let slot = state.slot_of(ticket);
        assert forall|i: int| 0 <= i < start.running.len() implies (
        #[trigger] start.running[i]).ticket != ticket by {
            let b = if i < slot { i } else { i + 1 };
            assert(start.running[i] == state.running[b]);
        }
        assert forall|i: int| 0 <= i < start.queue.len() implies (
        #[trigger] start.queue[i]).ticket != ticket by {
            assert(state.running[slot].ticket < state.queue[i].ticket);
        }
    } else {
        lemma_result_delivered_at_most_once(
            state,
            ticket,
            events.drop_last(),
            outcome,
            duration_ms,
        );
        lemma_run_preserves_wf(start, events.drop_last());
        let before = start.run(events.drop_last());
        let after = before.step(events.last());
        match events.last() {
            PoolEvent::Submit(_) | PoolEvent::SubmitFire(_) => {
                if before.takes_submissions() {
                    assert forall|i: int| 0 <= i < after.queue.len() implies (
                    #[trigger] after.queue[i]).ticket != ticket by {
                        if i < before.queue.len() {
                            assert(after.queue[i] == before.queue[i]);
                        }
                    }
                }
            },
            PoolEvent::Dispatch => {
                if before.can_dispatch() {
                    assert forall|i: int| 0 <= i < after.queue.len() implies (
                    #[trigger] after.queue[i]).ticket != ticket by {
                        assert(after.queue[i] == before.queue[i + 1]);
                    }
                    assert forall|i: int| 0 <= i < after.running.len() implies (
                    #[trigger] after.running[i]).ticket != ticket by {
                        if i < before.running.len() {
                            assert(after.running[i] == before.running[i]);
                        } else {
                            assert(before.queue[0].ticket != ticket);
                        }
                    }
                }
            },
            PoolEvent::Complete(other) => {
                if before.is_running(other) {
                    let gone = before.slot_of(other);
                    assert forall|i: int| 0 <= i < after.running.len() implies (
                    #[trigger] after.running[i]).ticket != ticket by {
                        let b = if i < gone { i } else { i + 1 };
                        assert(after.running[i] == before.running[b]);
                    }
                }
            },
            PoolEvent::Shutdown => {},
        }
    }
}

/// Whether the submission with `ticket` is fire-and-forget wherever it
/// stands, in the queue or in a slot.
pub open spec fn ticket_discards(state: PoolState, ticket: u64) -> bool {
    &&& forall|i: int|
        0 <= i < state.queue.len() && (#[trigger] state.queue[i]).ticket == ticket
            ==> state.queue[i].task.response == ResponseMode::Discard
    &&& forall|i: int|
        0 <= i < state.running.len() && (#[trigger] state.running[i]).ticket == ticket
            ==> state.running[i].response == ResponseMode::Discard
}

/// Fire-and-forget delivers nothing. A task that is submitted as
/// fire-and-forget stands in the queue as such, and whatever happens
/// afterwards, no completion under its ticket delivers a result.
pub proof fn lemma_fire_and_forget_never_delivers(
    state: PoolState,
    task: WorkerTaskView,
    events: Seq<PoolEvent>,
    outcome: Result<serde_json::Value, Seq<char>>,
    duration_ms: u64,
)
    requires
        state.wf(),
        state.takes_submissions(),
    ensures
        ticket_discards(
            state.step(PoolEvent::SubmitFire(task)).run(events),
            state.next_ticket,
        ),
        !(state.step(PoolEvent::SubmitFire(task)).run(events).completion(
            state.next_ticket,
            outcome,
            duration_ms,
        ) is Deliver),
    decreases events.len(),
{
    let ticket = state.next_ticket;
    let start = state.step(PoolEvent::SubmitFire(task));
    lemma_step_preserves_wf(state, PoolEvent::SubmitFire(task));
    if events.len() == 0 {
        assert forall|i: int|
            0 <= i < start.queue.len() && (#[trigger] start.queue[i]).ticket
                == ticket implies start.queue[i].task.response == ResponseMode::Discard by {
            if i < state.queue.len() {
                assert(start.queue[i] == state.queue[i]);
            }
        }
    } else {
        lemma_fire_and_forget_never_delivers(
            state,
            task,
            events.drop_last(),
            outcome,
            duration_ms,
        );
        lemma_run_preserves_wf(start, events.drop_last());
        lemma_tickets_only_grow(start, events.drop_last());
        let before = start.run(events.drop_last());
        let after = before.step(events.last());
        match events.last() {
            PoolEvent::Submit(_) | PoolEvent::SubmitFire(_) => {
                if before.takes_submissions() {
                    assert forall|i: int|
                        0 <= i < after.queue.len() && (#[trigger] after.queue[i]).ticket
                            == ticket implies after.queue[i].task.response
                        == ResponseMode::Discard by {
                        if i < before.queue.len() {
                            assert(after.queue[i] == before.queue[i]);
                        }
                    }
                }
            },
            PoolEvent::Dispatch => {
                if before.can_dispatch() {
                    assert forall|i: int|
                        0 <= i < after.queue.len() && (#[trigger] after.queue[i]).ticket
                            == ticket implies after.queue[i].task.response
                        == ResponseMode::Discard by {
                        assert(after.queue[i] == before.queue[i + 1]);
                    }
                    assert forall|i: int|
                        0 <= i < after.running.len() && (#[trigger] after.running[i]).ticket
                            == ticket implies after.running[i].response
                        == ResponseMode::Discard by {
                        if i < before.running.len() {
                            assert(after.running[i] == before.running[i]);
                        } else {
                            assert(before.queue[0].ticket == ticket);
                        }
                    }
                }
            },
            PoolEvent::Complete(other) => {
                if before.is_running(other) {
                    let gone = before.slot_of(other);
                    assert forall|i: int|
                        0 <= i < after.running.len() && (#[trigger] after.running[i]).ticket
                            == ticket implies after.running[i].response
                        == ResponseMode::Discard by {
                        let b = if i < gone { i } else { i + 1 };
                        assert(after.running[i] == before.running[b]);
                    }
                }
            },
            PoolEvent::Shutdown => {},
        }
    }
    let last = start.run(events);
    if last.is_running(ticket) {
        let at = last.slot_of(ticket);
        assert(last.running[at].ticket == ticket);
    }
}

/// Tickets are never handed out twice: the next ticket only grows.
pub proof fn lemma_tickets_only_grow(state: PoolState, events: Seq<PoolEvent>)
    ensures
        state.next_ticket <= state.run(events).next_ticket,
    decreases events.len(),
{
    if events.len() > 0 {
        lemma_tickets_only_grow(state, events.drop_last());
    }
}

/// Whether every id that the registry marks belongs to a task that occupies
/// a slot.
pub open spec fn registry_within_running(state: PoolState) -> bool {
    forall|id: Seq<char>|
        state.active.contains(id) ==> exists|i: int|
            0 <= i < state.running.len() && (#[trigger] state.running[i]).id == id
}

/// The registry marks running tasks only: an id enters it when its task takes
/// a slot and leaves it when a task with that id completes, so no event makes
/// it mark an id that no running task has.
pub proof fn lemma_registry_marks_only_running(state: PoolState, events: Seq<PoolEvent>)
    requires
        state.wf(),
        registry_within_running(state),
    ensures
        registry_within_running(state.run(events)),
    decreases events.len(),
{
    if events.len() > 0 {
        lemma_registry_marks_only_running(state, events.drop_last());
        lemma_run_preserves_wf(state, events.drop_last());
        let before = state.run(events.drop_last());
        let after = before.step(events.last());
        match events.last() {
            PoolEvent::Dispatch => {
                if before.can_dispatch() {
                    assert forall|id: Seq<char>| after.active.contains(id) implies exists|i: int|
                        0 <= i < after.running.len() && (#[trigger] after.running[i]).id == id by {
                        if before.active.contains(id) {
                            let i = choose|i: int|
                                0 <= i < before.running.len() && (#[trigger] before.running[i]).id
                                    == id;
                            assert(after.running[i] == before.running[i]);
                        } else {
                            assert(after.running[before.running.len() as int].id == id);
                        }
                    }
                }
            },
            PoolEvent::Complete(ticket) => {
                if before.is_running(ticket) {
                    let gone = before.slot_of(ticket);
                    assert forall|id: Seq<char>| after.active.contains(id) implies exists|i: int|
                        0 <= i < after.running.len() && (#[trigger] after.running[i]).id == id by {
                        let i = choose|i: int|
                            0 <= i < before.running.len() && (#[trigger] before.running[i]).id
                                == id;
                        assert(i != gone);
                        let to = if i < gone { i } else { i - 1 };
                        assert(after.running[to] == before.running[i]);
                    }
                }
            },
            _ => {},
        }
    }
}

} // verus!
