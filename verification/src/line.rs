//! What passes between the scanner and the line driver: the operations that the
//! scanner asks for and the outcomes that the driver reports.

use vstd::prelude::*;

verus! {

/// The level of a digital line.
#[derive(Clone, Copy, PartialEq, Eq, Debug, Structural)]
pub enum Level {
    Low,
    High,
}

/// The level towards which an input line is pulled while nothing drives it.
#[derive(Clone, Copy, PartialEq, Eq, Debug, Structural)]
pub enum Bias {
    PullDown,
    PullUp,
}

/// The level of a driven row, and of a column whose key on that row is pressed.
pub const ACTIVE: Level = Level::Low;

/// The level of a row at rest, and of a column with no pressed key on the
/// driven row.
pub const INACTIVE: Level = Level::High;

/// The bias that keeps an open column at the inactive level.
pub const IDLE_BIAS: Bias = Bias::PullUp;

/// One operation on a line, or a pause, that the scanner asks its caller to
/// perform.
#[derive(Clone, Copy, PartialEq, Eq, Debug, Structural)]
pub enum Action {
    /// Make the line a sensed input with the given bias.
    ConfigureInput { address: u8, bias: Bias },
    /// Make the line a driven output.
    ConfigureOutput { address: u8 },
    /// Drive the line to the given level.
    SetLevel { address: u8, level: Level },
    /// Sample the level of the line.
    ReadLevel { address: u8 },
    /// Block for at least the given number of microseconds.
    Sleep { micros: u64 },
}

/// What the caller reports once it has attempted an operation.
#[derive(Clone, Copy, PartialEq, Eq, Debug, Structural)]
pub enum Event {
    /// The operation was carried out; it yields no value.
    Done,
    /// The line was sampled at the given level.
    Sampled(Level),
    /// The line could not be acquired, configured, driven or read.
    Failed,
}

/// A line operation that the hardware refused. It names the operation and,
/// through it, the address of the line.
#[derive(Clone, Copy, PartialEq, Eq, Debug, Structural)]
pub struct HardwareAccessError {
    pub operation: Action,
}

/// Whether `event` is the outcome of a successful `action`: a sampled level
/// for a read, plain completion for everything else.
pub open spec fn answers(action: Action, event: Event) -> bool {
    match action {
        Action::ReadLevel { .. } => event is Sampled,
        _ => event is Done,
    }
}

impl Action {
    /// The address of the line that the operation touches; a pause touches none.
    pub open spec fn spec_address(self) -> Option<u8> {
        match self {
            Action::ConfigureInput { address, .. } => Some(address),
            Action::ConfigureOutput { address } => Some(address),
            Action::SetLevel { address, .. } => Some(address),
            Action::ReadLevel { address } => Some(address),
            Action::Sleep { .. } => None,
        }
    }

    /// The address of the line that the operation touches; a pause touches none.
    #[verifier::when_used_as_spec(spec_address)]
    pub fn address(self) -> (address: Option<u8>)
        ensures
            address == self.spec_address(),
    {
        match self {
            Action::ConfigureInput { address, .. } => Some(address),
            Action::ConfigureOutput { address } => Some(address),
            Action::SetLevel { address, .. } => Some(address),
            Action::ReadLevel { address } => Some(address),
            Action::Sleep { .. } => None,
        }
    }
}

} // verus!
