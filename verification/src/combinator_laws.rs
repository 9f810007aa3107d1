//! Laws of the combinators, proved over their mathematical states: what a
//! batch ends with, in whatever order the outcomes of its tasks arrive.
use crate::combinators::{
    count_missing, failure_of, gathered, lemma_fill_counts_down, lemma_missing_none, AllState,
    AllVerdict, Arrival, RaceState, RaceVerdict, StreamState, StreamVerdict, SubmittedView,
};
use crate::task_executor::{TaskExecutorError, TaskResult};
use vstd::prelude::*;

verus! {

/// Arrivals in which every task of a batch settles exactly once, and none
/// fails: one arrival per task, each under a ticket of the batch, no ticket
/// twice.
pub open spec fn all_succeed(submitted: SubmittedView, arrivals: Seq<Arrival>) -> bool {
    &&& arrivals.len() == submitted.limits.len()
    &&& forall|k: int|
        0 <= k < arrivals.len() ==> submitted.holds((#[trigger] arrivals[k]).ticket)
    &&& forall|j: int, k: int|
        0 <= j < k < arrivals.len() ==> (#[trigger] arrivals[j]).ticket != (
        #[trigger] arrivals[k]).ticket
    &&& forall|k: int|
        0 <= k < arrivals.len() ==> failure_of((#[trigger] arrivals[k]).outcome).is_none()
}

/// The results of arrivals, in the order of arrival.
pub open spec fn results_of(arrivals: Seq<Arrival>) -> Seq<TaskResult> {
    Seq::new(arrivals.len(), |k: int| arrivals[k].outcome.unwrap())
}

/// Where a wait-for-all batch stands after the first `k` of arrivals that
/// all succeed: each result that has arrived stands in the place of its task,
/// and the other places are empty.
spec fn all_progress(submitted: SubmittedView, arrivals: Seq<Arrival>, k: int, state: AllState)
    -> bool {
    &&& state.submitted == submitted
    &&& state.slots.len() == submitted.limits.len()
    &&& count_missing(state.slots) == submitted.limits.len() - k
    &&& forall|j: int|
        0 <= j < k ==> state.slots[submitted.index_of((#[trigger] arrivals[j]).ticket)] == Some(
            arrivals[j].outcome.unwrap(),
        )
    &&& forall|i: int|
        0 <= i < state.slots.len() && (#[trigger] state.slots[i]).is_some() ==> exists|j: int|
            0 <= j < k && submitted.index_of((#[trigger] arrivals[j]).ticket) == i
}

proof fn lemma_all_progress(submitted: SubmittedView, arrivals: Seq<Arrival>, k: int)
    requires
        submitted.wf(),
        all_succeed(submitted, arrivals),
        0 <= k <= arrivals.len(),
    ensures
        k < arrivals.len() ==> match AllState::fresh(submitted).run(arrivals.subrange(0, k)) {
            AllVerdict::Waiting(state) => all_progress(submitted, arrivals, k, state),
            _ => false,
        },
        k == arrivals.len() ==> match AllState::fresh(submitted).run(arrivals.subrange(0, k)) {
            AllVerdict::Finished(Ok(results)) => results.len() == arrivals.len() && forall|j: int|
                0 <= j < arrivals.len() ==> results[submitted.index_of(
                    (#[trigger] arrivals[j]).ticket,
                )] == arrivals[j].outcome.unwrap(),
            _ => false,
        },
    decreases k,
{
    let start = AllState::fresh(submitted);
    let n = submitted.limits.len() as int;
    if k == 0 {
        assert(arrivals.subrange(0, 0).len() == 0);
        lemma_missing_none(start.slots);
    } else {
        lemma_all_progress(submitted, arrivals, k - 1);
        let prefix = arrivals.subrange(0, k);
        assert(prefix.drop_last() =~= arrivals.subrange(0, k - 1));
        assert(prefix.last() == arrivals[k - 1]);
        let state = match start.run(arrivals.subrange(0, k - 1)) {
            AllVerdict::Waiting(state) => state,
            _ => start,
        };
        let arrival = arrivals[k - 1];
        let index = submitted.index_of(arrival.ticket);
        assert(submitted.holds(arrival.ticket));
        if state.slots[index].is_some() {
            let j = choose|j: int|
                0 <= j < k - 1 && submitted.index_of((#[trigger] arrivals[j]).ticket) == index;
            assert(arrivals[j].ticket == arrival.ticket);
            assert(false);
        }
        assert(state.expects(arrival.ticket));
        let result = arrival.outcome.unwrap();
        let next = state.filled(arrival.ticket, result);
        lemma_fill_counts_down(state.slots, index, result);
        lemma_missing_none(next.slots);
        assert forall|j: int| 0 <= j < k implies next.slots[submitted.index_of(
            (#[trigger] arrivals[j]).ticket,
        )] == Some(arrivals[j].outcome.unwrap()) by {
            if j < k - 1 {
                assert(arrivals[j].ticket != arrivals[k - 1].ticket);
                assert(submitted.holds(arrivals[j].ticket));
            }
        }
        if k < n {
            assert forall|i: int|
                0 <= i < next.slots.len() && (#[trigger] next.slots[i]).is_some() implies exists|
                j: int,
            |
                0 <= j < k && submitted.index_of((#[trigger] arrivals[j]).ticket) == i by {
                if i == index {
                    assert(submitted.index_of(arrivals[k - 1].ticket) == i);
                } else {
                    assert(state.slots[i].is_some());
                    let j = choose|j: int|
                        0 <= j < k - 1 && submitted.index_of((#[trigger] arrivals[j]).ticket) == i;
                    assert(0 <= j < k && submitted.index_of(arrivals[j].ticket) == i);
                }
            }
            assert(all_progress(submitted, arrivals, k, next));
        } else {
            assert(next.is_full());
            let results = gathered(next.slots);
            assert forall|j: int| 0 <= j < arrivals.len() implies results[submitted.index_of(
                (#[trigger] arrivals[j]).ticket,
            )] == arrivals[j].outcome.unwrap() by {
                assert(submitted.holds(arrivals[j].ticket));
            }
        }
    }
}

/// Wait-for-all keeps the order of submission. When every task of a batch
/// succeeds, the batch ends with one result per task, and the result of each
/// task stands at the position at which the task was submitted, in whatever
/// order the results arrived.
pub proof fn lemma_all_keeps_submission_order(submitted: SubmittedView, arrivals: Seq<Arrival>)
    requires
        submitted.wf(),
        all_succeed(submitted, arrivals),
    ensures
        match AllState::fresh(submitted).run(arrivals) {
            AllVerdict::Finished(Ok(results)) => results.len() == submitted.limits.len()
                && forall|j: int|
                0 <= j < arrivals.len() ==> results[submitted.index_of(
                    (#[trigger] arrivals[j]).ticket,
                )] == arrivals[j].outcome.unwrap(),
            _ => false,
        },
{
    lemma_all_progress(submitted, arrivals, arrivals.len() as int);
    assert(arrivals.subrange(0, arrivals.len() as int) =~= arrivals);
}

/// Where a stream batch stands after the first `k` of arrivals that all
/// succeed: it holds their results in the order of arrival, and only their
/// tasks are marked as settled.
spec fn stream_progress(
    submitted: SubmittedView,
    arrivals: Seq<Arrival>,
    k: int,
    state: StreamState,
) -> bool {
    &&& state.submitted == submitted
    &&& state.settled.len() == submitted.limits.len()
    &&& state.results == results_of(arrivals.subrange(0, k))
    &&& forall|i: int|
        0 <= i < state.settled.len() && #[trigger] state.settled[i] ==> exists|j: int|
            0 <= j < k && submitted.index_of((#[trigger] arrivals[j]).ticket) == i
}

proof fn lemma_stream_progress(submitted: SubmittedView, arrivals: Seq<Arrival>, k: int)
    requires
        submitted.wf(),
        all_succeed(submitted, arrivals),
        0 <= k <= arrivals.len(),
    ensures
        k < arrivals.len() ==> match StreamState::fresh(submitted).run(arrivals.subrange(0, k)) {
            StreamVerdict::Waiting(state) => stream_progress(submitted, arrivals, k, state),
            _ => false,
        },
        k == arrivals.len() ==> StreamState::fresh(submitted).run(arrivals.subrange(0, k))
            == StreamVerdict::Finished(Ok(results_of(arrivals))),
    decreases k,
{
    let start = StreamState::fresh(submitted);
    let n = submitted.limits.len() as int;
    if k == 0 {
        assert(arrivals.subrange(0, 0).len() == 0);
        assert(start.results =~= results_of(arrivals.subrange(0, 0)));
    } else {
        lemma_stream_progress(submitted, arrivals, k - 1);
        let prefix = arrivals.subrange(0, k);
        assert(prefix.drop_last() =~= arrivals.subrange(0, k - 1));
        assert(prefix.last() == arrivals[k - 1]);
        let state = match start.run(arrivals.subrange(0, k - 1)) {
            StreamVerdict::Waiting(state) => state,
            _ => start,
        };
        let arrival = arrivals[k - 1];
        let index = submitted.index_of(arrival.ticket);
        assert(submitted.holds(arrival.ticket));
        if state.settled[index] {
            let j = choose|j: int|
                0 <= j < k - 1 && submitted.index_of((#[trigger] arrivals[j]).ticket) == index;
            assert(arrivals[j].ticket == arrival.ticket);
            assert(false);
        }
        assert(state.expects(arrival.ticket));
        let next = state.extended(arrival.ticket, arrival.outcome.unwrap());
        assert(next.results =~= results_of(arrivals.subrange(0, k)));
        if k < n {
            assert forall|i: int|
                0 <= i < next.settled.len() && #[trigger] next.settled[i] implies exists|j: int|
                0 <= j < k && submitted.index_of((#[trigger] arrivals[j]).ticket) == i by {
                if i == index {
                    assert(submitted.index_of(arrivals[k - 1].ticket) == i);
                } else {
                    assert(state.settled[i]);
                    let j = choose|j: int|
                        0 <= j < k - 1 && submitted.index_of((#[trigger] arrivals[j]).ticket) == i;
                    assert(0 <= j < k && submitted.index_of(arrivals[j].ticket) == i);
                }
            }
            assert(stream_progress(submitted, arrivals, k, next));
        } else {
            assert(arrivals.subrange(0, k) =~= arrivals);
        }
    }
}

/// A stream keeps the order of arrival. When every task of a batch succeeds,
/// the batch ends with exactly one result per task, in the order in which
/// the results arrived.
pub proof fn lemma_stream_keeps_arrival_order(submitted: SubmittedView, arrivals: Seq<Arrival>)
    requires
        submitted.wf(),
        all_succeed(submitted, arrivals),
    ensures
        StreamState::fresh(submitted).run(arrivals) == StreamVerdict::Finished(
            Ok(results_of(arrivals)),
        ),
        results_of(arrivals).len() == submitted.limits.len(),
{
    lemma_stream_progress(submitted, arrivals, arrivals.len() as int);
    assert(arrivals.subrange(0, arrivals.len() as int) =~= arrivals);
}

/// Wait-for-all fails fast: the failure of a task that the batch waits for
/// ends the batch with that failure, whatever arrives afterwards.
pub proof fn lemma_all_fails_fast(
    state: AllState,
    failed: Arrival,
    later: Seq<Arrival>,
    error: TaskExecutorError,
)
    requires
        state.expects(failed.ticket),
        failure_of(failed.outcome) == Some(error),
    ensures
        state.run(seq![failed] + later) == AllVerdict::Finished(Err(error)),
    decreases later.len(),
{
    let arrivals = seq![failed] + later;
    if later.len() == 0 {
        assert(arrivals.drop_last() =~= Seq::<Arrival>::empty());
        assert(arrivals.last() == failed);
        assert(state.run(arrivals.drop_last()) == AllVerdict::Waiting(state));
    } else {
        lemma_all_fails_fast(state, failed, later.drop_last(), error);
        assert(arrivals.drop_last() =~= seq![failed] + later.drop_last());
        assert(arrivals.len() > 0);
    }
}

/// A stream fails fast: the failure of a task that the batch waits for ends
/// the batch with that failure, whatever arrives afterwards, and the results
/// gathered before are not handed out.
pub proof fn lemma_stream_fails_fast(
    state: StreamState,
    failed: Arrival,
    later: Seq<Arrival>,
    error: TaskExecutorError,
)
    requires
        state.expects(failed.ticket),
        failure_of(failed.outcome) == Some(error),
    ensures
        state.run(seq![failed] + later) == StreamVerdict::Finished(Err(error)),
    decreases later.len(),
{
    let arrivals = seq![failed] + later;
    if later.len() == 0 {
        assert(arrivals.drop_last() =~= Seq::<Arrival>::empty());
        assert(arrivals.last() == failed);
        assert(state.run(arrivals.drop_last()) == StreamVerdict::Waiting(state));
    } else {
        lemma_stream_fails_fast(state, failed, later.drop_last(), error);
        assert(arrivals.drop_last() =~= seq![failed] + later.drop_last());
        assert(arrivals.len() > 0);
    }
}

/// The first outcome wins a race. The race ends with the outcome of the
/// first of its tasks to settle, success or failure, and nothing that arrives
/// afterwards changes the result.
pub proof fn lemma_race_first_outcome_wins(state: RaceState, first: Arrival, later: Seq<Arrival>)
    requires
        state.submitted.holds(first.ticket),
    ensures
        state.run(seq![first] + later) == RaceVerdict::Finished(first.outcome),
    decreases later.len(),
{
    let arrivals = seq![first] + later;
    if later.len() == 0 {
        assert(arrivals.drop_last() =~= Seq::<Arrival>::empty());
        assert(arrivals.last() == first);
        assert(state.run(arrivals.drop_last()) == RaceVerdict::Waiting(state));
    } else {
        lemma_race_first_outcome_wins(state, first, later.drop_last());
        assert(arrivals.drop_last() =~= seq![first] + later.drop_last());
        assert(arrivals.len() > 0);
    }
}

} // verus!
