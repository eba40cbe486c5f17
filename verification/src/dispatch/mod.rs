//! The queue-based engine: payloads are fanned out to tasks, tasks wait in a
//! two-level priority queue, a runner hands them to clients in turn and
//! decides what a response means for the task.

pub mod load_balancer;
pub mod model;
pub mod queue;
pub mod runner;
