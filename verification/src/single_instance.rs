//! One instance at a time: a named mutex keeps a second one from starting, which brings the
//! window of the first to the front instead.

use vstd::prelude::*;

verus! {

/// The name of the mutex.
pub const MUTEX_NAME: &'static str = "Global\\mousemic_single";

/// The class of the main window.
pub const WINDOW_CLASS: &'static str = "NativeWindowsGuiWindow";

/// What became of the request for the mutex.
#[derive(Debug, Clone, Copy, PartialEq, Eq, Structural)]
pub enum MutexOutcome {
    /// It failed.
    Failed,
    /// It gave an invalid handle.
    Invalid,
    /// The mutex is there already.
    AlreadyExists,
    /// The mutex was made.
    Created,
}

/// Whether this is the first instance: only the one that made the mutex is.
pub fn try_acquire(outcome: MutexOutcome) -> (r: bool)
    ensures
        r == (outcome == MutexOutcome::Created),
{
    match outcome {
        MutexOutcome::Failed => false,
        MutexOutcome::Invalid => false,
        MutexOutcome::AlreadyExists => false,
        MutexOutcome::Created => true,
    }
}

/// How a window is brought to the front.
#[derive(Debug, Clone, Copy, PartialEq, Eq, Structural)]
pub enum Raise {
    /// It is restored first.
    Restore,
    /// It is shown first.
    Show,
}

/// How the window of the first instance is brought to the front. `window` says whether it is
/// minimised; it is none where there is no window, and then nothing is done.
pub fn bring_existing_to_front(window: Option<bool>) -> (r: Option<Raise>)
    ensures
        r == (match window {
            Some(true) => Some(Raise::Restore),
            Some(false) => Some(Raise::Show),
            None => None,
        }),
{
    match window {
        Some(iconic) => {
            if iconic {
                Some(Raise::Restore)
            } else {
                Some(Raise::Show)
            }
        },
        None => None,
    }
}

} // verus!
