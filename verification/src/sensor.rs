use vstd::prelude::*;

verus! {

/// Lifecycle of one sensor handle. A handle is created uninitialized; a
/// successful hardware initialization makes it ready; only a ready handle
/// may be read. The transition to ready happens at most once and is never
/// undone.
#[derive(Clone, Copy, Debug, PartialEq, Eq, Structural)]
pub enum SensorState {
    Uninitialized,
    Ready,
}

impl SensorState {
    /// The state after an initialization attempt whose hardware call
    /// reported `hardware_ok`: success makes the handle ready, failure
    /// leaves it exactly as it was.
    pub fn after_init(self, hardware_ok: bool) -> (next: SensorState)
        ensures
            hardware_ok ==> next is Ready,
            !hardware_ok ==> next == self,
    {
        if hardware_ok {
            SensorState::Ready
        } else {
            self
        }
    }

    /// Whether a read is allowed: exactly when the handle is ready.
    pub fn can_read(&self) -> (b: bool)
        ensures
            b <==> *self is Ready,
    {
        match self {
            SensorState::Ready => true,
            SensorState::Uninitialized => false,
        }
    }
}

} // verus!
