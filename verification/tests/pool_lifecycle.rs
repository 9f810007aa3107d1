use serde_json::Value;
use task_dispatch::worker_pool::{
    duration_ms_of, execution_error, Completion, ResponseMode, WorkerPool, WorkerPoolError,
    WorkerTask,
};

fn task(id: &str, data: Value) -> WorkerTask {
    WorkerTask {
        id: id.to_string(),
        function_string: "x => x".to_string(),
        data,
        timeout_ms: None,
        response: ResponseMode::Await,
    }
}

#[test]
fn submit_then_dispatch_then_complete_delivers_result() {
    let mut pool = WorkerPool::new(2);
    let ticket = pool.submit_task(task("a", Value::from(1))).unwrap();
    assert_eq!(ticket, 0);
    assert_eq!(pool.queued_count(), 1);
    let started = pool.dispatch_next().unwrap();
    assert_eq!(started.ticket, 0);
    assert_eq!(started.id, "a");
    assert_eq!(started.function_string, "x => x");
    assert_eq!(started.data, Value::from(1));
    assert_eq!(started.timeout_ms, None);
    assert!(pool.is_active(&"a".to_string()));
    assert_eq!(pool.running_count(), 1);
    assert_eq!(pool.queued_count(), 0);
    match pool.complete(0, Ok(Value::from(2)), 7) {
        Completion::Deliver(result) => {
            assert_eq!(result.id, "a");
            assert_eq!(result.result, Ok(Value::from(2)));
            assert_eq!(result.duration_ms, 7);
        }
        other => panic!("unexpected completion: {:?}", other),
    }
    assert!(!pool.is_active(&"a".to_string()));
    assert_eq!(pool.running_count(), 0);
}

#[test]
fn tickets_grow_by_one_per_submission() {
    let mut pool = WorkerPool::new(1);
    assert_eq!(pool.tickets_left(), u64::MAX);
    assert_eq!(pool.submit_task(task("a", Value::Null)).unwrap(), 0);
    assert!(pool.submit_task_fire(task("b", Value::Null)).is_ok());
    assert_eq!(pool.submit_task(task("c", Value::Null)).unwrap(), 2);
    assert_eq!(pool.tickets_left(), u64::MAX - 3);
    assert_eq!(pool.queued_count(), 3);
}

#[test]
fn submission_after_shutdown_is_rejected() {
    let mut pool = WorkerPool::new(1);
    assert!(pool.is_accepting());
    assert!(pool.shutdown().is_ok());
    assert!(!pool.is_accepting());
    assert!(matches!(
        pool.submit_task(task("a", Value::Null)),
        Err(WorkerPoolError::ShuttingDown)
    ));
    assert!(matches!(
        pool.submit_task_fire(task("b", Value::Null)),
        Err(WorkerPoolError::ShuttingDown)
    ));
    assert_eq!(pool.queued_count(), 0);
    assert_eq!(pool.tickets_left(), u64::MAX);
}

#[test]
fn shutdown_lets_queued_and_running_tasks_drain() {
    let mut pool = WorkerPool::new(1);
    let first = pool.submit_task(task("first", Value::from(1))).unwrap();
    let second = pool.submit_task(task("second", Value::from(2))).unwrap();
    assert_eq!(pool.dispatch_next().unwrap().ticket, first);
    assert!(pool.shutdown().is_ok());
    assert_eq!(pool.running_count(), 1);
    assert_eq!(pool.queued_count(), 1);
    assert!(matches!(
        pool.complete(first, Ok(Value::from(10)), 1),
        Completion::Deliver(_)
    ));
    let started = pool.dispatch_next().unwrap();
    assert_eq!(started.ticket, second);
    assert_eq!(started.id, "second");
    match pool.complete(second, Ok(Value::from(20)), 1) {
        Completion::Deliver(result) => assert_eq!(result.result, Ok(Value::from(20))),
        other => panic!("unexpected completion: {:?}", other),
    }
    assert!(pool.dispatch_next().is_none());
}

#[test]
fn fire_and_forget_result_is_never_delivered() {
    let mut pool = WorkerPool::new(1);
    let mut fired = task("quiet", Value::from(5));
    fired.response = ResponseMode::Await;
    assert!(pool.submit_task_fire(fired).is_ok());
    let started = pool.dispatch_next().unwrap();
    assert_eq!(started.id, "quiet");
    assert!(pool.is_active(&"quiet".to_string()));
    assert!(matches!(
        pool.complete(started.ticket, Ok(Value::from(6)), 3),
        Completion::Discard
    ));
    assert!(!pool.is_active(&"quiet".to_string()));
    assert_eq!(pool.running_count(), 0);
}

#[test]
fn submit_task_always_awaits_whatever_the_task_says() {
    let mut pool = WorkerPool::new(1);
    let mut awaited = task("loud", Value::Null);
    awaited.response = ResponseMode::Discard;
    let ticket = pool.submit_task(awaited).unwrap();
    assert!(pool.dispatch_next().is_some());
    assert!(matches!(
        pool.complete(ticket, Ok(Value::Null), 0),
        Completion::Deliver(_)
    ));
}

#[test]
fn evaluator_failure_is_delivered_as_an_ordinary_result() {
    let mut pool = WorkerPool::new(1);
    let ticket = pool.submit_task(task("bad", Value::from("text"))).unwrap();
    assert!(pool.dispatch_next().is_some());
    match pool.complete(ticket, Err("Expected number for multiplication".to_string()), 4) {
        Completion::Deliver(result) => {
            assert_eq!(result.id, "bad");
            assert_eq!(
                result.result,
                Err("Expected number for multiplication".to_string())
            );
            assert_eq!(result.duration_ms, 4);
        }
        other => panic!("unexpected completion: {:?}", other),
    }
    assert!(pool.is_accepting());
    assert_eq!(pool.running_count(), 0);
    assert!(!pool.is_active(&"bad".to_string()));
}

#[test]
fn completion_of_unknown_ticket_changes_nothing() {
    let mut pool = WorkerPool::new(2);
    let ticket = pool.submit_task(task("a", Value::Null)).unwrap();
    assert!(matches!(
        pool.complete(ticket, Ok(Value::Null), 1),
        Completion::Unknown
    ));
    assert_eq!(pool.queued_count(), 1);
    assert!(pool.dispatch_next().is_some());
    assert!(matches!(
        pool.complete(99, Ok(Value::Null), 1),
        Completion::Unknown
    ));
    assert_eq!(pool.running_count(), 1);
    assert!(pool.is_active(&"a".to_string()));
    assert!(matches!(
        pool.complete(ticket, Ok(Value::Null), 1),
        Completion::Deliver(_)
    ));
    assert!(matches!(
        pool.complete(ticket, Ok(Value::Null), 1),
        Completion::Unknown
    ));
}

#[test]
fn dispatch_is_first_in_first_out() {
    let mut pool = WorkerPool::new(3);
    for name in ["one", "two", "three"] {
        pool.submit_task(task(name, Value::Null)).unwrap();
    }
    assert_eq!(pool.dispatch_next().unwrap().id, "one");
    assert_eq!(pool.dispatch_next().unwrap().id, "two");
    assert_eq!(pool.dispatch_next().unwrap().id, "three");
    assert!(pool.dispatch_next().is_none());
}

#[test]
fn no_more_tasks_run_than_there_are_workers() {
    let mut pool = WorkerPool::new(2);
    for name in ["a", "b", "c", "d"] {
        pool.submit_task(task(name, Value::Null)).unwrap();
    }
    assert!(pool.dispatch_next().is_some());
    assert!(pool.dispatch_next().is_some());
    assert!(pool.dispatch_next().is_none());
    assert_eq!(pool.running_count(), 2);
    assert_eq!(pool.queued_count(), 2);
    assert!(matches!(
        pool.complete(1, Ok(Value::Null), 1),
        Completion::Deliver(_)
    ));
    assert_eq!(pool.dispatch_next().unwrap().id, "c");
    assert!(pool.dispatch_next().is_none());
    assert_eq!(pool.running_count(), 2);
}

#[test]
fn four_blocking_tasks_on_two_workers_run_in_two_waves() {
    let mut pool = WorkerPool::new(2);
    let mut tickets = Vec::new();
    for name in ["a", "b", "c", "d"] {
        tickets.push(pool.submit_task(task(name, Value::Null)).unwrap());
    }
    let call_ms: u64 = 100;
    let mut clock_ms: u64 = 0;
    let mut waves = 0;
    let mut finished = Vec::new();
    loop {
        let wave = pool.dispatch_ready();
        if wave.is_empty() {
            break;
        }
        assert!(wave.len() <= 2);
        assert_eq!(pool.running_count(), wave.len());
        waves += 1;
        clock_ms += call_ms;
        for started in wave {
            match pool.complete(started.ticket, Ok(Value::Null), call_ms) {
                Completion::Deliver(result) => finished.push(result.id),
                other => panic!("unexpected completion: {:?}", other),
            }
        }
    }
    assert_eq!(waves, 2);
    assert_eq!(clock_ms, 200);
    assert_eq!(finished, vec!["a", "b", "c", "d"]);
    assert_eq!(tickets, vec![0, 1, 2, 3]);
}

#[test]
fn dispatch_ready_starts_the_oldest_tasks_up_to_the_free_slots() {
    let mut pool = WorkerPool::new(3);
    for name in ["a", "b", "c", "d", "e"] {
        pool.submit_task(task(name, Value::from(name))).unwrap();
    }
    assert_eq!(pool.dispatch_next().unwrap().id, "a");
    let started = pool.dispatch_ready();
    assert_eq!(started.len(), 2);
    assert_eq!(started[0].ticket, 1);
    assert_eq!(started[0].id, "b");
    assert_eq!(started[0].data, Value::from("b"));
    assert_eq!(started[1].ticket, 2);
    assert_eq!(started[1].id, "c");
    assert_eq!(pool.running_count(), 3);
    assert_eq!(pool.queued_count(), 2);
    assert!(pool.is_active(&"b".to_string()));
    assert!(pool.is_active(&"c".to_string()));
    assert!(!pool.is_active(&"d".to_string()));
    assert!(pool.dispatch_ready().is_empty());
}

#[test]
fn dispatch_ready_on_an_empty_queue_starts_nothing() {
    let mut pool = WorkerPool::new(4);
    assert!(pool.dispatch_ready().is_empty());
    assert_eq!(pool.running_count(), 0);
}

#[test]
fn a_running_task_keeps_its_slot_until_its_own_completion() {
    let mut pool = WorkerPool::new(1);
    let slow = pool.submit_task(task("slow", Value::Null)).unwrap();
    let next = pool.submit_task(task("next", Value::Null)).unwrap();
    assert_eq!(pool.dispatch_next().unwrap().ticket, slow);
    // The caller of "slow" may have given up by now; the pool is not told.
    assert!(pool.dispatch_next().is_none());
    assert!(pool.submit_task_fire(task("more", Value::Null)).is_ok());
    assert!(pool.dispatch_next().is_none());
    assert!(pool.is_active(&"slow".to_string()));
    assert_eq!(pool.running_count(), 1);
    assert!(matches!(
        pool.complete(slow, Ok(Value::Null), 500),
        Completion::Deliver(_)
    ));
    assert!(!pool.is_active(&"slow".to_string()));
    assert_eq!(pool.dispatch_next().unwrap().ticket, next);
}

#[test]
fn duplicate_ids_share_one_registry_entry() {
    let mut pool = WorkerPool::new(2);
    let first = pool.submit_task(task("same", Value::from(1))).unwrap();
    let second = pool.submit_task(task("same", Value::from(2))).unwrap();
    assert_eq!(pool.dispatch_ready().len(), 2);
    assert!(pool.is_active(&"same".to_string()));
    assert!(matches!(
        pool.complete(first, Ok(Value::Null), 1),
        Completion::Deliver(_)
    ));
    assert!(!pool.is_active(&"same".to_string()));
    assert_eq!(pool.running_count(), 1);
    match pool.complete(second, Ok(Value::from(4)), 1) {
        Completion::Deliver(result) => {
            assert_eq!(result.id, "same");
            assert_eq!(result.result, Ok(Value::from(4)));
        }
        other => panic!("unexpected completion: {:?}", other),
    }
}

#[test]
fn worker_count_is_the_requested_number() {
    assert_eq!(WorkerPool::new(1).worker_count(), 1);
    assert_eq!(WorkerPool::new(7).worker_count(), 7);
    assert_eq!(WorkerPool::with_host_cores(3, 16).worker_count(), 3);
}

#[test]
fn zero_workers_resolve_to_the_host_core_count() {
    let pool = WorkerPool::new(0);
    assert!(pool.worker_count() >= 1);
    assert_eq!(pool.worker_count(), num_cpus::get());
    assert_eq!(WorkerPool::with_host_cores(0, 12).worker_count(), 12);
    assert_eq!(WorkerPool::with_host_cores(0, 0).worker_count(), 1);
}

#[test]
fn resolve_worker_count_prefers_the_request() {
    assert_eq!(task_dispatch::host::resolve_worker_count(4, 8), 4);
    assert_eq!(task_dispatch::host::resolve_worker_count(0, 8), 8);
    assert_eq!(task_dispatch::host::resolve_worker_count(0, 0), 1);
}

#[test]
fn recorded_duration_is_the_low_64_bits() {
    assert_eq!(duration_ms_of(0), 0);
    assert_eq!(duration_ms_of(1234), 1234);
    assert_eq!(duration_ms_of(u64::MAX as u128), u64::MAX);
    assert_eq!(duration_ms_of(u64::MAX as u128 + 1), 0);
    assert_eq!(duration_ms_of((1u128 << 64) + 42), 42);
}

#[test]
fn broken_evaluator_call_becomes_a_failure_outcome() {
    assert_eq!(
        execution_error("task 3 panicked"),
        Err("Task execution error: task 3 panicked".to_string())
    );
}

#[test]
fn pool_error_messages() {
    assert_eq!(
        WorkerPoolError::ShuttingDown.message(),
        "Worker pool is shutting down"
    );
    assert_eq!(
        WorkerPoolError::TaskFailed("boom".to_string()).message(),
        "Task execution failed: boom"
    );
    assert_eq!(WorkerPoolError::Timeout.message(), "Task timed out");
}
