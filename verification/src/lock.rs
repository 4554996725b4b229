//! Session lock protocols and what each one guarantees.
//!
//! One rule binds every backend: no drop, signal or window-close path may
//! unlock. [`LockBackend::unlock`] is the only path, and it is called only
//! after `Session::complete_auth` returned true.
use vstd::prelude::*;

verus! {

/// What holds while the session is locked.
#[derive(Debug, Clone, Copy, PartialEq, Eq, Structural)]
pub struct Guarantees {
    /// The session stays locked if this process exits, crashes or is killed.
    pub survives_process_exit: bool,
    /// Ordinary clients in the session cannot read what is typed on the lock screen.
    pub isolates_input: bool,
}

/// The session protocol a lock is taken through.
#[derive(Debug, Clone, Copy, PartialEq, Eq, Structural)]
pub enum Protocol {
    /// `ext-session-lock-v1`: the compositor owns the lock state and gives input
    /// only to the lock surfaces.
    Wayland,
}

impl Protocol {
    pub open spec fn promises(self) -> Guarantees {
        match self {
            Protocol::Wayland => Guarantees { survives_process_exit: true, isolates_input: true },
        }
    }

    pub fn guarantees(self) -> (r: Guarantees)
        ensures
            r == self.promises(),
    {
        match self {
            Protocol::Wayland => Guarantees { survives_process_exit: true, isolates_input: true },
        }
    }
}

/// A lock configured for one protocol.
pub trait LockBackend {
    /// Starts acquiring the lock. Ownership counts only once the backend calls
    /// `Session::mark_locked`; a failure terminates the session instead.
    fn lock(&self);

    /// Releases the lock. Call only after `Session::complete_auth` returned true.
    fn unlock(&self);
}

} // verus!
