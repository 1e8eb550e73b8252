//! Modifier key state tracking.
//!
//! A `ModifierState` is a snapshot of which of the three tracked modifier
//! keys are currently held.  The named combinations below are the complete
//! input alphabet of the mode transition engine.

use vstd::prelude::*;

verus! {

/// Tracks which modifier keys are currently pressed.
#[derive(Debug, Clone, Copy, PartialEq, Eq, Structural)]
pub struct ModifierState {
    /// Control key is held
    pub control: bool,
    /// Option/Alt key is held
    pub option: bool,
    /// Command key is held
    pub command: bool,
}

impl ModifierState {
    /// No modifier is held.
    pub open spec fn spec_is_empty(self) -> bool {
        !self.control && !self.option && !self.command
    }

    /// Only Control is held (the Dictation chord).
    pub open spec fn spec_is_control_only(self) -> bool {
        self.control && !self.option && !self.command
    }

    /// Control and Option are held, Command is not (the Intelligent chord).
    pub open spec fn spec_is_control_option(self) -> bool {
        self.control && self.option && !self.command
    }

    /// Control and Command are held, Option is not (the Agent chord).
    pub open spec fn spec_is_control_command(self) -> bool {
        self.control && self.command && !self.option
    }

    /// Check if all modifiers are released.
    pub fn is_empty(&self) -> (r: bool)
        ensures
            r == self.spec_is_empty(),
    {
        !self.control && !self.option && !self.command
    }

    /// Check if only Control is pressed (for Dictation mode).
    pub fn is_control_only(&self) -> (r: bool)
        ensures
            r == self.spec_is_control_only(),
    {
        self.control && !self.option && !self.command
    }

    /// Check if Control + Option are pressed (for Intelligent mode).
    pub fn is_control_option(&self) -> (r: bool)
        ensures
            r == self.spec_is_control_option(),
    {
        self.control && self.option && !self.command
    }

    /// Check if Control + Command are pressed (for the Agent toggle).
    pub fn is_control_command(&self) -> (r: bool)
        ensures
            r == self.spec_is_control_command(),
    {
        self.control && self.command && !self.option
    }
}

impl Default for ModifierState {
    /// All keys released.
    fn default() -> (r: Self)
        ensures
            r.spec_is_empty(),
    {
        ModifierState { control: false, option: false, command: false }
    }
}

} // verus!
