//! What the parts of the program tell each other.
use vstd::prelude::*;

verus! {

/// A command to the scheduler.
#[derive(Debug, Clone, Copy, PartialEq, Eq, Structural)]
pub enum AppCommand {
    Start,
    Stop,
    Exit,
    ToggleRunning,
}

/// What the keyboard hook tells the window.
#[derive(Debug, Clone, Copy, PartialEq, Eq, Structural)]
pub enum UiAction {
    /// The key that was pressed while one was asked for.
    CapturedKey(u16),
}

} // verus!
