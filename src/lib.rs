//! Concurrent test execution core: the scheduling decisions of a worker pool that runs test
//! jobs, and a hierarchical, nesting-aware pass timing accumulator whose per-worker tables
//! are merged when the pool is joined.

pub mod pass;
pub mod pool;
pub mod text;
pub mod timers;
pub mod timing;

pub use pass::{description_of, Pass, NUM_PASSES};
pub use pool::{
    default_workers, fault_message, job_result, worker_count, JobOutcome, Poll, Reply, Request,
    Scheduler, TestResult,
};
pub use timing::{add_all_to_current, add_to_current, take_current, PassTime, PassTimes, Timing, TimingToken};
