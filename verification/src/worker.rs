//! What the parent knows of a background worker.
use vstd::prelude::*;
use vstd::string::*;

use crate::text::{trim, trimmed};

verus! {

/// Where a worker stands.
#[derive(Debug, Clone, Copy, PartialEq, Eq, Structural)]
pub enum WorkerStatus {
    Running,
    Done,
    Failed,
    Stopped,
}

/// The one-word name of a status.
pub open spec fn status_label(s: WorkerStatus) -> Seq<char> {
    match s {
        WorkerStatus::Running => "running"@,
        WorkerStatus::Done => "done"@,
        WorkerStatus::Failed => "failed"@,
        WorkerStatus::Stopped => "stopped"@,
    }
}

impl WorkerStatus {
    /// The one-word name of this status.
    pub fn label(&self) -> (r: &'static str)
        ensures
            r@ == status_label(*self),
    {
        match self {
            WorkerStatus::Running => "running",
            WorkerStatus::Done => "done",
            WorkerStatus::Failed => "failed",
            WorkerStatus::Stopped => "stopped",
        }
    }
}

/// Below this many characters a result says next to nothing.
pub const NEAR_SILENCE: usize = 20;

/// A worker as its parent sees it. Times are nanoseconds since the Unix epoch.
#[derive(Debug)]
pub struct WorkerSummary {
    pub id: String,
    pub task: String,
    pub status: WorkerStatus,
    pub last: String,
    pub tool_calls: usize,
    pub changed: Vec<String>,
    pub result: String,
    pub session_id: String,
    pub tokens: u64,
    pub nudges: u32,
    pub escalation: Option<String>,
    pub group: Option<u64>,
    pub model: Option<String>,
    pub started: u128,
    pub finished: Option<u128>,
    pub prompt_tokens: u64,
    pub check_passed: Option<bool>,
}

/// Reported done, changed no file and returned almost no text.
pub open spec fn nothing_to_show(w: WorkerSummary) -> bool {
    w.status == WorkerStatus::Done && w.changed@.len() == 0 && trim(w.result@).len() < NEAR_SILENCE
}

impl WorkerSummary {
    /// Did this worker report done with nothing to show for it? Effort does not
    /// count: only files and text do.
    pub fn did_nothing(&self) -> (r: bool)
        ensures
            r == nothing_to_show(*self),
    {
        let said = trimmed(self.result.as_str());
        self.status == WorkerStatus::Done && self.changed.len() == 0 && said.as_str().unicode_len()
            < NEAR_SILENCE
    }
}

/// How a request to start one worker was met.
#[derive(Debug)]
pub enum SpawnOutcome {
    /// Running, under this id.
    Started(String),
    /// Waiting, at this place in the queue.
    Queued(usize),
}

/// How a request to start several workers was met.
#[derive(Debug)]
pub struct FanOutReport {
    pub started: Vec<String>,
    pub queued: usize,
}

} // verus!
