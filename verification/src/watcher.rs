//! The file-watcher decisions: what one batch of filesystem events means
//! for the process, and how startup waits for the file to appear.
//!
//! The watcher subscribes to content modification, self-move and
//! attribute-change events.  Deletion is detected through the link count
//! rather than a delete event, because the server's own open descriptor
//! postpones delete events indefinitely.

use vstd::prelude::*;

verus! {

/// The kinds of filesystem event one notification can carry.
#[derive(Debug, Clone, Copy, PartialEq, Eq, Structural)]
pub struct FileEvent {
    /// The file's content was modified.
    pub modify: bool,
    /// The file itself was moved away.
    pub move_self: bool,
    /// The file's attributes changed; a deletion shows up here.
    pub attrib: bool,
}

/// What the watcher does with one event.
#[derive(Debug, Clone, Copy, PartialEq, Eq, Structural)]
pub enum WatcherAction {
    /// The file is gone and the server does not linger: exit cleanly.
    Exit,
    /// Keep running; if the event said the file grew, publish the newly
    /// observed length and wake every registered client.
    Continue { new_length: Option<u64> },
}

/// Whether an event announces that the file is gone: it was moved away,
/// or its attributes changed and it has no link left.
pub open spec fn spec_file_gone(ev: FileEvent, nlink: u64) -> bool {
    ev.move_self || (ev.attrib && nlink == 0)
}

/// What the watcher does with one event, as `watcher_step` ensures.
pub open spec fn spec_watcher_step(ev: FileEvent, linger: bool, nlink: u64, observed_len: u64)
    -> WatcherAction {
    if !linger && spec_file_gone(ev, nlink) {
        WatcherAction::Exit
    } else {
        WatcherAction::Continue {
            new_length: if ev.modify {
                Some(observed_len)
            } else {
                None
            },
        }
    }
}

/// Decides what one filesystem event means.  `nlink` and `observed_len`
/// are the file's link count and length as the caller has just read them
/// from the file's metadata.
///
/// A move, or an attribute change on a file with no links left, ends the
/// process unless it was told to linger.  A modification publishes the
/// observed length, to be stored in the length cell before the clients
/// are woken.  Anything else is ignored.
pub fn watcher_step(ev: FileEvent, linger: bool, nlink: u64, observed_len: u64) -> (a:
    WatcherAction)
    ensures
        a == spec_watcher_step(ev, linger, nlink, observed_len),
        !linger && spec_file_gone(ev, nlink) ==> a == WatcherAction::Exit,
        linger || !spec_file_gone(ev, nlink) ==> a == (WatcherAction::Continue {
            new_length: if ev.modify {
                Some(observed_len)
            } else {
                None
            },
        }),
{
    if !linger && (ev.move_self || (ev.attrib && nlink == 0)) {
        WatcherAction::Exit
    } else if ev.modify {
        WatcherAction::Continue { new_length: Some(observed_len) }
    } else {
        WatcherAction::Continue { new_length: None }
    }
}

/// How one attempt to open the broadcast file went.
#[derive(Debug, Clone, Copy, PartialEq, Eq, Structural)]
pub enum OpenOutcome {
    /// The path opened; `regular` says whether it is a regular file.
    Opened { regular: bool },
    /// The path does not exist yet.
    NotFound,
    /// The open failed for any other reason.
    OtherError,
}

/// What startup does after one attempt to open the file.
#[derive(Debug, Clone, Copy, PartialEq, Eq, Structural)]
pub enum StartupStep {
    /// The file is there and regular: start watching and serving it.
    Proceed,
    /// The file does not exist yet: sleep a few seconds and try again.
    /// Clients may already connect; they get data once the file appears.
    Retry,
    /// A fatal startup error: a non-regular path or an unexpected open
    /// failure.
    Fail,
}

/// Decides how startup proceeds after one attempt to open the file:
/// a missing file is waited for, a non-regular path or any other open
/// failure is fatal, and a regular file lets serving begin.
pub fn wait_for_file_step(outcome: OpenOutcome) -> (s: StartupStep)
    ensures
        outcome == (OpenOutcome::Opened { regular: true }) ==> s == StartupStep::Proceed,
        outcome == (OpenOutcome::Opened { regular: false }) ==> s == StartupStep::Fail,
        outcome == OpenOutcome::NotFound ==> s == StartupStep::Retry,
        outcome == OpenOutcome::OtherError ==> s == StartupStep::Fail,
{
    match outcome {
        OpenOutcome::Opened { regular } => {
            if regular {
                StartupStep::Proceed
            } else {
                StartupStep::Fail
            }
        },
        OpenOutcome::NotFound => StartupStep::Retry,
        OpenOutcome::OtherError => StartupStep::Fail,
    }
}

} // verus!
