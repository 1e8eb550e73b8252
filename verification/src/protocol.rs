//! IPC message protocol definitions.
//!
//! Requests, responses and push notifications share one tagged wire shape;
//! the encoding itself lives in the codec module.

use vstd::prelude::*;

use crate::events::StateEvent;
use crate::machine::State;

verus! {

/// Current operating mode of the daemon, as exposed over IPC.
#[derive(Debug, Clone, Copy, PartialEq, Eq, Structural)]
pub enum Mode {
    /// No active mode, waiting for a hotkey chord
    Idle,
    /// Dictation mode: low-latency transcription
    Dictation,
    /// Intelligent mode: response generation
    Intelligent,
    /// Agent mode: multi-step task execution
    Agent,
}

impl Default for Mode {
    fn default() -> (r: Self)
        ensures
            r == Mode::Idle,
    {
        Mode::Idle
    }
}

/// The total, order-preserving mapping from engine states to IPC modes.
pub open spec fn spec_mode_of_state(state: State) -> Mode {
    match state {
        State::Idle => Mode::Idle,
        State::DictationActive => Mode::Dictation,
        State::IntelligentActive => Mode::Intelligent,
        State::AgentActive => Mode::Agent,
    }
}

/// A mode is active exactly when it is not Idle.
pub open spec fn spec_mode_active(mode: Mode) -> bool {
    mode != Mode::Idle
}

impl core::convert::From<State> for Mode {
    /// Convert an internal engine state to its IPC mode.
    fn from(state: State) -> (r: Self) {
        match state {
            State::Idle => Mode::Idle,
            State::DictationActive => Mode::Dictation,
            State::IntelligentActive => Mode::Intelligent,
            State::AgentActive => Mode::Agent,
        }
    }
}

impl vstd::std_specs::convert::FromSpecImpl<State> for Mode {
    open spec fn obeys_from_spec() -> bool {
        true
    }

    open spec fn from_spec(state: State) -> Mode {
        spec_mode_of_state(state)
    }
}

/// Requests from a client to the daemon.
#[derive(Debug, Clone, Copy, PartialEq, Eq, Structural)]
pub enum Request {
    /// Request the current daemon status
    GetStatus,
    /// Set the active mode
    SetMode {
        /// The mode to switch to
        mode: Mode,
    },
    /// Ping to check connectivity
    Ping,
    /// Subscribe to state change notifications on this connection
    Subscribe,
}

/// Full daemon status snapshot.
#[derive(Debug, Clone, PartialEq, Eq)]
pub struct DaemonStatus {
    /// Daemon version
    pub version: String,
    /// Current mode
    pub mode: Mode,
    /// Whether the key hook is registered
    pub hotkey_registered: bool,
    /// Uptime in whole seconds
    pub uptime_secs: u64,
}

impl Default for DaemonStatus {
    /// An initial snapshot: the daemon version, Idle, no hook, zero uptime.
    fn default() -> (r: Self)
        ensures
            r.version@ == "0.1.0"@,
            r.mode == Mode::Idle,
            !r.hotkey_registered,
            r.uptime_secs == 0,
    {
        DaemonStatus {
            version: String::from_str("0.1.0"),
            mode: Mode::Idle,
            hotkey_registered: false,
            uptime_secs: 0,
        }
    }
}

/// Responses from the daemon to a client.
#[derive(Debug, Clone, PartialEq, Eq)]
pub enum Response {
    /// Current daemon status
    Status(DaemonStatus),
    /// Acknowledgement of a mode change
    ModeChange {
        /// The mode now in force
        mode: Mode,
        /// Whether that mode is active (not Idle)
        active: bool,
    },
    /// Pong response to ping
    Pong,
    /// Subscription confirmed
    Subscribed,
    /// Error response
    Error {
        /// Stable machine-readable error code
        code: String,
        /// Human-readable description
        message: String,
    },
}

/// Push notification from the daemon to a subscribed client.
#[derive(Debug, Clone, Copy, PartialEq, Eq, Structural)]
pub enum Notification {
    /// The mode has changed
    ModeChanged {
        /// The mode now in force
        mode: Mode,
        /// The mode that was left
        previous: Mode,
    },
    /// A lifecycle event occurred
    StateEvent(StateEvent),
}

} // verus!
