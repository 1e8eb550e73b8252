//! Events and errors of the system-wide key hook.
//!
//! The hook itself is a platform binding that posts `HotkeyEvent`s onto the
//! engine's inbound channel; these types are its vocabulary.

use vstd::prelude::*;

use crate::keys::ModifierState;

verus! {

/// Events sent from the key hook to the state machine.
#[derive(Debug, Clone, Copy, PartialEq, Eq, Structural)]
pub enum HotkeyEvent {
    /// The modifier state has changed
    ModifierChanged(ModifierState),
    /// The event tap was disabled by the system (needs re-registration)
    TapDisabled,
}

/// Errors that can occur in the key hook listener.
#[derive(Debug, Clone, PartialEq, Eq)]
pub enum HotkeyError {
    /// The listener is already running
    AlreadyRunning,
    /// The event tap could not be created (missing permissions)
    EventTapCreation,
    /// The listener thread could not be spawned
    ThreadSpawn(String),
    /// An event could not be handed to the channel
    ChannelSend,
}

impl HotkeyError {
    /// A human-readable description of the error.
    pub fn message(&self) -> (r: String)
        ensures
            r@ == spec_hotkey_error_message(*self),
    {
        let mut out = String::new();
        match self {
            HotkeyError::AlreadyRunning => out.append("hotkey listener is already running"),
            HotkeyError::EventTapCreation => out.append(
                "failed to create event tap - check Accessibility permissions",
            ),
            HotkeyError::ThreadSpawn(detail) => {
                out.append("failed to spawn listener thread: ");
                out.append(detail.as_str());
            },
            HotkeyError::ChannelSend => out.append("failed to send event to channel"),
        }
        proof {
            assert(out@ =~= spec_hotkey_error_message(*self));
        }
        out
    }
}

/// The description each hook error carries.
pub open spec fn spec_hotkey_error_message(e: HotkeyError) -> Seq<char> {
    match e {
        HotkeyError::AlreadyRunning => "hotkey listener is already running"@,
        HotkeyError::EventTapCreation => (
        "failed to create event tap - check Accessibility permissions"@),
        HotkeyError::ThreadSpawn(detail) => "failed to spawn listener thread: "@ + detail@,
        HotkeyError::ChannelSend => "failed to send event to channel"@,
    }
}

} // verus!
