//! The watch loop's decisions: what to do on each notification, and how the file
//! is watched. Watching, waiting, reading, printing and pausing are left to the caller.
use vstd::prelude::*;

verus! {

/// Seconds between two polls of the watched path.
pub const POLL_INTERVAL_SECS: u64 = 1;

/// Milliseconds to pause after each notification before waiting for the next.
pub const PAUSE_MILLIS: u64 = 100;

/// What the watch channel delivered.
#[derive(Debug, PartialEq, Eq)]
pub enum Notice {
    /// The watched path changed.
    Changed,
    /// The watch reported a failure, described by the text.
    Failed(String),
}

/// What the loop does about one notice; after either it pauses and waits again.
#[derive(Debug, PartialEq, Eq)]
pub enum Step {
    /// Read the file's most recent line and print it, if there is one.
    ReadTail,
    /// Print the watch failure and go on watching.
    Report(String),
}

/// How the path is watched.
#[derive(Debug, Clone, Copy, PartialEq, Eq, Structural)]
pub struct WatchSettings {
    /// Seconds between two polls.
    pub poll_interval_secs: u64,
    /// Whether a poll compares file contents, rather than metadata alone.
    pub compare_contents: bool,
    /// Whether the watch descends into a directory tree.
    pub recursive: bool,
}

/// The step taken on a notice. A change reads the tail; a failure is reported and
/// never ends the loop.
pub open spec fn step_for(n: Notice) -> Step {
    match n {
        Notice::Changed => Step::ReadTail,
        Notice::Failed(msg) => Step::Report(msg),
    }
}

/// Decides what to do about one notice.
pub fn react(n: Notice) -> (r: Step)
    ensures
        r == step_for(n),
{
    match n {
        Notice::Changed => Step::ReadTail,
        Notice::Failed(msg) => Step::Report(msg),
    }
}

/// The watch of a single file: polled every second, by metadata alone, not recursive.
pub fn watch_settings() -> (r: WatchSettings)
    ensures
        r.poll_interval_secs == POLL_INTERVAL_SECS,
        !r.compare_contents,
        !r.recursive,
{
    WatchSettings { poll_interval_secs: POLL_INTERVAL_SECS, compare_contents: false, recursive: false }
}

} // verus!
