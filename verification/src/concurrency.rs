//! The per-task decisions of work handed out to threads.
use vstd::prelude::*;

verus! {

/// Settings shared by every task.
#[derive(Debug, Clone)]
pub struct Config {
    pub max_connections: u32,
    pub timeout_ms: u64,
    pub host: String,
}

/// The result of one task: tasks up to `max_connections` are doubled, the
/// others give 0. A doubled task must fit in a `u32`.
pub fn task_result(config: &Config, task: u32) -> (r: u32)
    requires
        task <= config.max_connections ==> 2 * task <= u32::MAX,
    ensures
        r == (if task <= config.max_connections { 2 * task } else { 0 }),
{
    if task <= config.max_connections {
        task * 2
    } else {
        0
    }
}

} // verus!
