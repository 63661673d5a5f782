//! Scheduling decisions for the download queue.

use vstd::prelude::*;
use crate::task::DownloadTask;

verus! {

/// Task scheduling decisions.
pub struct TaskScheduler;

impl TaskScheduler {
    /// Whether a task may start now: a slot is free below the bound.
    pub fn should_schedule_task(_task: &DownloadTask, active_count: usize, max_concurrent: usize) -> (r:
        bool)
        ensures
            r == (active_count < max_concurrent),
    {
        active_count < max_concurrent
    }

    /// The priority score of a task; admission is FIFO, so every task scores
    /// the same.
    pub fn get_task_priority(_task: &DownloadTask) -> (r: u32)
        ensures
            r == 0,
    {
        0
    }
}

} // verus!
