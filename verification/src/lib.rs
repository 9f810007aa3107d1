//! Task dispatch core: a bounded worker pool and the aggregation rules that
//! sit on top of it, written as deterministic state machines so that every
//! transition carries a proved contract.
//!
//! The pool ([`worker_pool::WorkerPool`]) owns the submission queue, the
//! execution slots and the registry of running task ids. The executor
//! ([`task_executor::TaskExecutor`]) turns a batch of tasks into pool
//! submissions and hands back a batch ([`combinators`]) that folds the
//! outcomes that come back into the result of the chosen combinator (all,
//! stream, race); fire-and-forget tasks are queued and never heard of again.
//!
//! Nothing here waits, sleeps or calls the evaluator. A runtime drives the
//! state machines: it starts what `dispatch_ready` hands out, reports each
//! evaluator call with `complete`, and feeds each batch the events of its
//! tickets. What holds for every such runtime is proved in [`pool_laws`],
//! [`combinator_laws`] and [`executor_laws`].
pub mod combinator_laws;
pub mod combinators;
pub mod executor_laws;
pub mod host;
pub mod json;
pub mod pool_laws;
pub mod task_executor;
pub mod worker_pool;
