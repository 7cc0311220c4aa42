//! The error type returned by the trigger operations of a [`crate::Machine`].

use vstd::prelude::*;

verus! {

/// Errors that can occur when triggering events on a machine.
#[derive(Debug, Clone, Copy, PartialEq, Eq, Hash)]
pub enum MachineError {
    /// The specified event is not defined in the state machine.
    EventInvalid,
    /// The specified event is defined for this machine, but not valid from the
    /// current state.
    StateInvalid,
}

impl MachineError {
    /// A human-readable description of the error.
    pub fn message(&self) -> (r: &'static str)
        ensures
            *self == MachineError::EventInvalid ==> r@ == "The specified event is not defined in this state machine"@,
            *self == MachineError::StateInvalid ==> r@ == "The event is not valid for the current state"@,
    {
        match self {
            MachineError::EventInvalid => "The specified event is not defined in this state machine",
            MachineError::StateInvalid => "The event is not valid for the current state",
        }
    }
}

/// A specialized result type for operations on a machine.
pub type MachineResult<T> = core::result::Result<T, MachineError>;

} // verus!
