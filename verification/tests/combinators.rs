use serde_json::Value;
use task_dispatch::combinators::{
    fail_fast, AllBatch, AllStep, RaceStep, StreamBatch, StreamStep, Waiter,
};
use task_dispatch::task_executor::{
    Task, TaskExecutor, TaskExecutorError, TaskResult, WaitEvent,
};
use task_dispatch::worker_pool::{
    Completion, ResponseMode, WorkerPool, WorkerPoolError,
};

fn job(id: &str, data: Value, timeout: Option<u64>) -> Task {
    Task {
        id: id.to_string(),
        function_string: "x => x * 2".to_string(),
        data,
        timeout,
    }
}

fn jobs(ids: &[&str]) -> Vec<Task> {
    let mut tasks = Vec::new();
    for (n, id) in ids.iter().enumerate() {
        tasks.push(job(id, Value::from(n as u64), None));
    }
    tasks
}

fn done(id: &str, payload: Value) -> Result<TaskResult, TaskExecutorError> {
    Ok(TaskResult {
        id: id.to_string(),
        result: payload,
        duration_ms: 1,
        error: None,
    })
}

fn expect_all_waiting(step: AllStep) -> AllBatch {
    match step {
        AllStep::Waiting(batch) => batch,
        AllStep::Finished(result) => panic!("batch ended early: {:?}", result),
    }
}

fn expect_stream_waiting(step: StreamStep) -> StreamBatch {
    match step {
        StreamStep::Waiting(batch) => batch,
        StreamStep::Finished(result) => panic!("batch ended early: {:?}", result),
    }
}

// Plays the evaluator for one started task: doubles a number.
fn evaluate(data: &Value) -> Result<Value, String> {
    match data.as_u64() {
        Some(n) => Ok(Value::from(n * 2)),
        None => Err("Expected number for multiplication".to_string()),
    }
}

#[test]
fn new_executor_has_thirty_second_default() {
    let executor = TaskExecutor::new();
    assert_eq!(executor.get_default_timeout(), 30_000);
}

#[test]
fn default_timeout_can_be_changed() {
    let mut executor = TaskExecutor::new();
    executor.set_default_timeout(1_500);
    assert_eq!(executor.get_default_timeout(), 1_500);
    executor.set_default_timeout(0);
    assert_eq!(executor.get_default_timeout(), 0);
}

#[test]
fn effective_timeout_prefers_the_task() {
    let mut executor = TaskExecutor::new();
    assert_eq!(executor.effective_timeout(&job("a", Value::Null, Some(250))), 250);
    assert_eq!(executor.effective_timeout(&job("a", Value::Null, None)), 30_000);
    assert_eq!(executor.effective_timeout(&job("a", Value::Null, Some(0))), 0);
    executor.set_default_timeout(9);
    assert_eq!(executor.effective_timeout(&job("a", Value::Null, None)), 9);
}

#[test]
fn zero_timeout_means_no_limit() {
    assert_eq!(TaskExecutor::wait_limit(0), None);
    assert_eq!(TaskExecutor::wait_limit(1), Some(1));
    assert_eq!(TaskExecutor::wait_limit(30_000), Some(30_000));
}

#[test]
fn worker_task_carries_the_effective_timeout() {
    let executor = TaskExecutor::new();
    let prepared = executor.worker_task(job("a", Value::from(3), None), ResponseMode::Await);
    assert_eq!(prepared.id, "a");
    assert_eq!(prepared.function_string, "x => x * 2");
    assert_eq!(prepared.data, Value::from(3));
    assert_eq!(prepared.timeout_ms, Some(30_000));
    assert_eq!(prepared.response, ResponseMode::Await);
    let fired = executor.worker_task(job("b", Value::Null, Some(5)), ResponseMode::Discard);
    assert_eq!(fired.timeout_ms, Some(5));
    assert_eq!(fired.response, ResponseMode::Discard);
}

#[test]
fn single_task_is_queued_and_waited_for() {
    let executor = TaskExecutor::new();
    let mut pool = WorkerPool::new(1);
    let waiter = executor
        .execute_single_task(&mut pool, job("a", Value::from(21), Some(100)))
        .unwrap();
    assert_eq!(waiter, Waiter { ticket: 0, limit_ms: Some(100) });
    let started = pool.dispatch_next().unwrap();
    assert_eq!(started.timeout_ms, Some(100));
    let outcome = match pool.complete(started.ticket, evaluate(&started.data), 3) {
        Completion::Deliver(delivered) => TaskExecutor::settle(WaitEvent::Delivered(delivered)),
        other => panic!("unexpected completion: {:?}", other),
    };
    let result = outcome.unwrap();
    assert_eq!(result.id, "a");
    assert_eq!(result.result, Value::from(42));
    assert_eq!(result.duration_ms, 3);
    assert_eq!(result.error, None);
}

#[test]
fn single_task_with_zero_timeout_waits_without_limit() {
    let mut executor = TaskExecutor::new();
    executor.set_default_timeout(0);
    let mut pool = WorkerPool::new(1);
    let waiter = executor
        .execute_single_task(&mut pool, job("a", Value::Null, None))
        .unwrap();
    assert_eq!(waiter.limit_ms, None);
}

#[test]
fn single_task_on_closed_pool_is_shutting_down() {
    let executor = TaskExecutor::new();
    let mut pool = WorkerPool::new(1);
    pool.shutdown().unwrap();
    assert!(matches!(
        executor.execute_single_task(&mut pool, job("a", Value::Null, None)),
        Err(TaskExecutorError::WorkerPool(WorkerPoolError::ShuttingDown))
    ));
    assert_eq!(pool.queued_count(), 0);
}

#[test]
fn failed_evaluation_is_presented_with_null_payload() {
    let mut pool = WorkerPool::new(1);
    let executor = TaskExecutor::new();
    let waiter = executor
        .execute_single_task(&mut pool, job("bad", Value::from("text"), None))
        .unwrap();
    let started = pool.dispatch_next().unwrap();
    let delivered = match pool.complete(waiter.ticket, evaluate(&started.data), 8) {
        Completion::Deliver(delivered) => delivered,
        other => panic!("unexpected completion: {:?}", other),
    };
    let result = TaskExecutor::present(delivered);
    assert_eq!(result.id, "bad");
    assert!(result.result.is_null());
    assert_eq!(result.result, Value::Null);
    assert_eq!(result.duration_ms, 8);
    assert_eq!(
        result.error,
        Some("Expected number for multiplication".to_string())
    );
}

#[test]
fn dropped_channel_settles_as_shutting_down() {
    assert!(matches!(
        TaskExecutor::settle(WaitEvent::Dropped),
        Err(TaskExecutorError::WorkerPool(WorkerPoolError::ShuttingDown))
    ));
}

#[test]
fn elapsed_limit_settles_as_timeout() {
    assert!(matches!(
        TaskExecutor::settle(WaitEvent::Elapsed),
        Err(TaskExecutorError::Timeout)
    ));
}

#[test]
fn timed_out_task_still_holds_its_slot_until_the_evaluator_returns() {
    let executor = TaskExecutor::new();
    let mut pool = WorkerPool::new(1);
    let waiter = executor
        .execute_single_task(&mut pool, job("slow", Value::from(1), Some(10)))
        .unwrap();
    assert_eq!(waiter.limit_ms, Some(10));
    let started = pool.dispatch_next().unwrap();
    // The limit passes first: the caller gets a timeout.
    assert!(matches!(
        TaskExecutor::settle(WaitEvent::Elapsed),
        Err(TaskExecutorError::Timeout)
    ));
    // The evaluator call goes on, and the slot stays taken.
    assert_eq!(pool.running_count(), 1);
    assert!(pool.is_active(&"slow".to_string()));
    let later = executor
        .execute_single_task(&mut pool, job("later", Value::from(2), None))
        .unwrap();
    assert!(pool.dispatch_next().is_none());
    // Only the evaluator's return frees the slot.
    assert!(matches!(
        pool.complete(started.ticket, evaluate(&started.data), 50),
        Completion::Deliver(_)
    ));
    assert_eq!(pool.running_count(), 0);
    assert!(!pool.is_active(&"slow".to_string()));
    assert_eq!(pool.dispatch_next().unwrap().ticket, later.ticket);
}

#[test]
fn empty_list_is_no_tasks_for_all_stream_and_race() {
    let executor = TaskExecutor::new();
    let mut pool = WorkerPool::new(2);
    assert!(matches!(
        executor.execute_all(&mut pool, Vec::new()),
        Err(TaskExecutorError::NoTasks)
    ));
    assert!(matches!(
        executor.execute_stream(&mut pool, Vec::new()),
        Err(TaskExecutorError::NoTasks)
    ));
    assert!(matches!(
        executor.execute_race(&mut pool, Vec::new()),
        Err(TaskExecutorError::NoTasks)
    ));
    assert_eq!(pool.queued_count(), 0);
    assert_eq!(pool.tickets_left(), u64::MAX);
}

#[test]
fn empty_list_is_no_tasks_even_when_the_pool_is_closed() {
    let executor = TaskExecutor::new();
    let mut pool = WorkerPool::new(2);
    pool.shutdown().unwrap();
    assert!(matches!(
        executor.execute_all(&mut pool, Vec::new()),
        Err(TaskExecutorError::NoTasks)
    ));
}

#[test]
fn batches_on_a_closed_pool_are_shutting_down() {
    let executor = TaskExecutor::new();
    let mut pool = WorkerPool::new(2);
    pool.shutdown().unwrap();
    assert!(matches!(
        executor.execute_all(&mut pool, jobs(&["a", "b"])),
        Err(TaskExecutorError::WorkerPool(WorkerPoolError::ShuttingDown))
    ));
    assert!(matches!(
        executor.execute_stream(&mut pool, jobs(&["a"])),
        Err(TaskExecutorError::WorkerPool(WorkerPoolError::ShuttingDown))
    ));
    assert!(matches!(
        executor.execute_race(&mut pool, jobs(&["a"])),
        Err(TaskExecutorError::WorkerPool(WorkerPoolError::ShuttingDown))
    ));
    executor.execute_fire(&mut pool, jobs(&["a", "b"]));
    assert_eq!(pool.queued_count(), 0);
}

#[test]
fn execute_all_returns_results_in_input_order() {
    let executor = TaskExecutor::new();
    let mut pool = WorkerPool::new(3);
    let batch = executor
        .execute_all(&mut pool, jobs(&["a", "b", "c"]))
        .unwrap();
    assert_eq!(batch.submitted().len(), 3);
    assert_eq!(
        batch.submitted().waiter(1),
        Some(Waiter { ticket: 1, limit_ms: Some(30_000) })
    );
    assert_eq!(batch.submitted().waiter(3), None);
    let started = pool.dispatch_ready();
    assert_eq!(started.len(), 3);
    // The tasks finish in the order c, a, b.
    let mut batch = batch;
    let mut finished = None;
    for index in [2usize, 0, 1] {
        let task = &started[index];
        let delivered = match pool.complete(task.ticket, evaluate(&task.data), 5) {
            Completion::Deliver(delivered) => delivered,
            other => panic!("unexpected completion: {:?}", other),
        };
        let outcome = TaskExecutor::settle(WaitEvent::Delivered(delivered));
        match batch.on_outcome(task.ticket, outcome) {
            AllStep::Waiting(next) => batch = next,
            AllStep::Finished(result) => {
                finished = Some(result);
                break;
            }
        }
    }
    let results = finished.unwrap().unwrap();
    assert_eq!(results.len(), 3);
    assert_eq!(results[0].id, "a");
    assert_eq!(results[0].result, Value::from(0));
    assert_eq!(results[1].id, "b");
    assert_eq!(results[1].result, Value::from(2));
    assert_eq!(results[2].id, "c");
    assert_eq!(results[2].result, Value::from(4));
}

#[test]
fn execute_all_of_one_task_finishes_on_its_result() {
    let executor = TaskExecutor::new();
    let mut pool = WorkerPool::new(1);
    let batch = executor.execute_all(&mut pool, jobs(&["only"])).unwrap();
    match batch.on_outcome(0, done("only", Value::from(1))) {
        AllStep::Finished(Ok(results)) => {
            assert_eq!(results.len(), 1);
            assert_eq!(results[0].id, "only");
        }
        other => panic!("unexpected step: {:?}", other),
    }
}

#[test]
fn execute_all_aborts_on_the_first_failure() {
    let executor = TaskExecutor::new();
    let mut pool = WorkerPool::new(2);
    let batch = executor
        .execute_all(&mut pool, jobs(&["a", "b", "c"]))
        .unwrap();
    let batch = expect_all_waiting(batch.on_outcome(1, done("b", Value::from(1))));
    match batch.on_outcome(2, Err(TaskExecutorError::Timeout)) {
        AllStep::Finished(Err(TaskExecutorError::Timeout)) => {}
        other => panic!("unexpected step: {:?}", other),
    }
}

#[test]
fn execute_all_treats_an_evaluator_failure_as_a_batch_failure() {
    let executor = TaskExecutor::new();
    let mut pool = WorkerPool::new(2);
    let batch = executor.execute_all(&mut pool, jobs(&["a", "b"])).unwrap();
    let failed = Ok(TaskResult {
        id: "a".to_string(),
        result: Value::Null,
        duration_ms: 2,
        error: Some("Expected number for addition".to_string()),
    });
    match batch.on_outcome(0, failed) {
        AllStep::Finished(Err(TaskExecutorError::WorkerPool(WorkerPoolError::TaskFailed(
            message,
        )))) => assert_eq!(message, "Expected number for addition"),
        other => panic!("unexpected step: {:?}", other),
    }
}

#[test]
fn execute_all_ignores_foreign_and_repeated_tickets() {
    let executor = TaskExecutor::new();
    let mut pool = WorkerPool::new(2);
    pool.submit_task_fire(executor.worker_task(job("x", Value::Null, None), ResponseMode::Discard))
        .unwrap();
    let batch = executor.execute_all(&mut pool, jobs(&["a", "b"])).unwrap();
    assert_eq!(batch.submitted().index_of(0), None);
    assert_eq!(batch.submitted().index_of(1), Some(0));
    assert_eq!(batch.submitted().index_of(2), Some(1));
    assert_eq!(batch.submitted().index_of(3), None);
    let batch = expect_all_waiting(batch.on_outcome(0, Err(TaskExecutorError::Timeout)));
    let batch = expect_all_waiting(batch.on_outcome(3, done("z", Value::Null)));
    let batch = expect_all_waiting(batch.on_outcome(1, done("a", Value::from(1))));
    let batch = expect_all_waiting(batch.on_outcome(1, done("a", Value::from(100))));
    match batch.on_outcome(2, done("b", Value::from(2))) {
        AllStep::Finished(Ok(results)) => {
            assert_eq!(results.len(), 2);
            assert_eq!(results[0].result, Value::from(1));
            assert_eq!(results[1].result, Value::from(2));
        }
        other => panic!("unexpected step: {:?}", other),
    }
}

#[test]
fn execute_stream_returns_results_in_completion_order() {
    let executor = TaskExecutor::new();
    let mut pool = WorkerPool::new(3);
    let batch = executor
        .execute_stream(&mut pool, jobs(&["a", "b", "c"]))
        .unwrap();
    assert_eq!(batch.submitted().len(), 3);
    let batch = expect_stream_waiting(batch.on_outcome(2, done("c", Value::from(3))));
    let batch = expect_stream_waiting(batch.on_outcome(0, done("a", Value::from(1))));
    match batch.on_outcome(1, done("b", Value::from(2))) {
        StreamStep::Finished(Ok(results)) => {
            let ids: Vec<&str> = results.iter().map(|r| r.id.as_str()).collect();
            assert_eq!(ids, vec!["c", "a", "b"]);
            assert_eq!(results.len(), 3);
        }
        other => panic!("unexpected step: {:?}", other),
    }
}

#[test]
fn execute_stream_counts_each_task_once() {
    let executor = TaskExecutor::new();
    let mut pool = WorkerPool::new(2);
    let batch = executor.execute_stream(&mut pool, jobs(&["a", "b"])).unwrap();
    let batch = expect_stream_waiting(batch.on_outcome(1, done("b", Value::from(2))));
    let batch = expect_stream_waiting(batch.on_outcome(1, done("b", Value::from(2))));
    let batch = expect_stream_waiting(batch.on_outcome(7, done("z", Value::from(9))));
    match batch.on_outcome(0, done("a", Value::from(1))) {
        StreamStep::Finished(Ok(results)) => {
            assert_eq!(results.len(), 2);
            assert_eq!(results[0].id, "b");
            assert_eq!(results[1].id, "a");
        }
        other => panic!("unexpected step: {:?}", other),
    }
}

#[test]
fn execute_stream_aborts_on_the_first_failure() {
    let executor = TaskExecutor::new();
    let mut pool = WorkerPool::new(2);
    let batch = executor
        .execute_stream(&mut pool, jobs(&["a", "b", "c"]))
        .unwrap();
    let batch = expect_stream_waiting(batch.on_outcome(0, done("a", Value::from(1))));
    match batch.on_outcome(
        2,
        Err(TaskExecutorError::WorkerPool(WorkerPoolError::ShuttingDown)),
    ) {
        StreamStep::Finished(Err(TaskExecutorError::WorkerPool(
            WorkerPoolError::ShuttingDown,
        ))) => {}
        other => panic!("unexpected step: {:?}", other),
    }
}

#[test]
fn execute_race_returns_the_first_outcome() {
    let executor = TaskExecutor::new();
    let mut pool = WorkerPool::new(3);
    let race = executor
        .execute_race(&mut pool, jobs(&["a", "b", "c"]))
        .unwrap();
    let started = pool.dispatch_ready();
    assert_eq!(started.len(), 3);
    let winner = &started[1];
    let delivered = match pool.complete(winner.ticket, evaluate(&winner.data), 2) {
        Completion::Deliver(delivered) => delivered,
        other => panic!("unexpected completion: {:?}", other),
    };
    let outcome = TaskExecutor::settle(WaitEvent::Delivered(delivered));
    match race.on_outcome(winner.ticket, outcome) {
        RaceStep::Finished(Ok(result)) => {
            assert_eq!(result.id, "b");
            assert_eq!(result.result, Value::from(2));
        }
        other => panic!("unexpected step: {:?}", other),
    }
    // The losers are not cancelled: they still hold their slots.
    assert_eq!(pool.running_count(), 2);
    assert!(pool.is_active(&"a".to_string()));
    assert!(pool.is_active(&"c".to_string()));
}

#[test]
fn execute_race_hands_out_a_failed_evaluation_as_a_result() {
    let executor = TaskExecutor::new();
    let mut pool = WorkerPool::new(1);
    let race = executor.execute_race(&mut pool, jobs(&["a", "b"])).unwrap();
    let failed = Ok(TaskResult {
        id: "b".to_string(),
        result: Value::Null,
        duration_ms: 1,
        error: Some("broken".to_string()),
    });
    match race.on_outcome(1, failed) {
        RaceStep::Finished(Ok(result)) => {
            assert_eq!(result.id, "b");
            assert_eq!(result.error, Some("broken".to_string()));
        }
        other => panic!("unexpected step: {:?}", other),
    }
}

#[test]
fn execute_race_ends_with_a_timeout_that_comes_first() {
    let executor = TaskExecutor::new();
    let mut pool = WorkerPool::new(1);
    let race = executor.execute_race(&mut pool, jobs(&["a", "b"])).unwrap();
    match race.on_outcome(0, TaskExecutor::settle(WaitEvent::Elapsed)) {
        RaceStep::Finished(Err(TaskExecutorError::Timeout)) => {}
        other => panic!("unexpected step: {:?}", other),
    }
}

#[test]
fn execute_race_ignores_foreign_tickets() {
    let executor = TaskExecutor::new();
    let mut pool = WorkerPool::new(1);
    let race = executor.execute_race(&mut pool, jobs(&["a"])).unwrap();
    let race = match race.on_outcome(5, done("z", Value::Null)) {
        RaceStep::Waiting(race) => race,
        other => panic!("unexpected step: {:?}", other),
    };
    assert!(matches!(
        race.on_outcome(0, done("a", Value::Null)),
        RaceStep::Finished(Ok(_))
    ));
}

#[test]
fn execute_fire_queues_tasks_whose_results_are_dropped() {
    let executor = TaskExecutor::new();
    let mut pool = WorkerPool::new(2);
    executor.execute_fire(
        &mut pool,
        vec![job("a", Value::from(1), Some(7)), job("b", Value::from(2), None)],
    );
    assert_eq!(pool.queued_count(), 2);
    let started = pool.dispatch_ready();
    assert_eq!(started.len(), 2);
    assert_eq!(started[0].id, "a");
    assert_eq!(started[0].timeout_ms, Some(7));
    assert_eq!(started[1].id, "b");
    assert_eq!(started[1].timeout_ms, Some(30_000));
    for task in started {
        assert!(matches!(
            pool.complete(task.ticket, evaluate(&task.data), 1),
            Completion::Discard
        ));
    }
    assert_eq!(pool.running_count(), 0);
}

#[test]
fn execute_fire_with_no_tasks_does_nothing() {
    let executor = TaskExecutor::new();
    let mut pool = WorkerPool::new(2);
    executor.execute_fire(&mut pool, Vec::new());
    assert_eq!(pool.queued_count(), 0);
    assert_eq!(pool.tickets_left(), u64::MAX);
}

#[test]
fn fail_fast_tells_failures_from_successes() {
    assert!(matches!(fail_fast(done("a", Value::from(1))), Ok(_)));
    assert!(matches!(
        fail_fast(Err(TaskExecutorError::NoTasks)),
        Err(TaskExecutorError::NoTasks)
    ));
    let failed = Ok(TaskResult {
        id: "a".to_string(),
        result: Value::Null,
        duration_ms: 0,
        error: Some("bad input".to_string()),
    });
    match fail_fast(failed) {
        Err(TaskExecutorError::WorkerPool(WorkerPoolError::TaskFailed(message))) => {
            assert_eq!(message, "bad input")
        }
        other => panic!("unexpected outcome: {:?}", other),
    }
}

#[test]
fn four_tasks_on_two_workers_finish_after_two_waves() {
    let executor = TaskExecutor::new();
    let mut pool = WorkerPool::new(2);
    let mut batch = Some(
        executor
            .execute_all(&mut pool, jobs(&["a", "b", "c", "d"]))
            .unwrap(),
    );
    let call_ms: u64 = 100;
    let mut clock_ms: u64 = 0;
    let mut results = None;
    while results.is_none() {
        let wave = pool.dispatch_ready();
        assert_eq!(wave.len(), 2);
        clock_ms += call_ms;
        for task in wave {
            let delivered = match pool.complete(task.ticket, evaluate(&task.data), call_ms) {
                Completion::Deliver(delivered) => delivered,
                other => panic!("unexpected completion: {:?}", other),
            };
            let outcome = TaskExecutor::settle(WaitEvent::Delivered(delivered));
            match batch.take().unwrap().on_outcome(task.ticket, outcome) {
                AllStep::Waiting(next) => batch = Some(next),
                AllStep::Finished(result) => results = Some(result.unwrap()),
            }
        }
    }
    assert_eq!(clock_ms, 200);
    let ids: Vec<String> = results.unwrap().into_iter().map(|r| r.id).collect();
    assert_eq!(ids, vec!["a", "b", "c", "d"]);
}

#[test]
fn executor_error_messages() {
    assert_eq!(TaskExecutorError::Timeout.message(), "Task timeout");
    assert_eq!(TaskExecutorError::NoTasks.message(), "No tasks provided");
    assert_eq!(
        TaskExecutorError::WorkerPool(WorkerPoolError::ShuttingDown).message(),
        "Worker pool error: Worker pool is shutting down"
    );
    assert_eq!(
        TaskExecutorError::WorkerPool(WorkerPoolError::TaskFailed("x".to_string())).message(),
        "Worker pool error: Task execution failed: x"
    );
    assert_eq!(
        TaskExecutorError::WorkerPool(WorkerPoolError::Timeout).message(),
        "Worker pool error: Task timed out"
    );
}

#[test]
fn pool_error_converts_into_executor_error() {
    let converted: TaskExecutorError = WorkerPoolError::Timeout.into();
    assert!(matches!(
        converted,
        TaskExecutorError::WorkerPool(WorkerPoolError::Timeout)
    ));
}
