//! Process identity.

use vstd::prelude::*;

verus! {

/// A process id in the host (outermost) pid namespace.
#[derive(Clone, Copy, Debug, PartialEq, Eq, Structural)]
pub struct Pid(pub u32);

impl Pid {
    /// The pid with the given number.
    pub fn from_raw(raw: u32) -> (pid: Pid)
        ensures
            pid == Pid(raw),
    {
        Pid(raw)
    }

    /// The number of this pid.
    pub fn raw(&self) -> (raw: u32)
        ensures
            raw == self.0,
    {
        self.0
    }
}

} // verus!
