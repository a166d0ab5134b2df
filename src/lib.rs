//! A job-dispatch core: a source of job ids that is polled, a gate that
//! admits each id at most once per run, and the decision step of the
//! dispatch loop that pairs them with a pacing policy.

pub mod dispatch;
pub mod gate;
pub mod source;
