//! Lifecycle events emitted by the mode transition engine.

use vstd::prelude::*;

use crate::codec::push_u64;
use crate::codec::spec_dec;

verus! {

/// Events emitted by the state machine during transitions.
///
/// Exactly one entry event is produced per entry into a non-Idle mode and
/// one exit event per exit from it; exit events carry the dwell duration.
#[derive(Debug, Clone, Copy, PartialEq, Eq, Structural)]
pub enum StateEvent {
    /// Entered dictation mode (Control held)
    DictationStarted,
    /// Finished dictation (Control released)
    DictationComplete {
        /// Duration in milliseconds that dictation was active
        duration_ms: u64,
    },
    /// Entered intelligent mode (Control+Option held)
    IntelligentStarted,
    /// Finished intelligent request (keys released)
    IntelligentRequestComplete {
        /// Duration in milliseconds that intelligent mode was active
        duration_ms: u64,
    },
    /// Agent mode toggled on (Control+Command)
    AgentModeEntered,
    /// Agent mode toggled off (Control+Command again)
    AgentModeExited {
        /// Duration in milliseconds that agent mode was active
        duration_ms: u64,
    },
    /// Audio capture started (reserved; never emitted by the engine)
    AudioCaptureStarted,
    /// Audio capture stopped (reserved; never emitted by the engine)
    AudioCaptureStopped,
}

/// The dwell duration an event carries: exit events report how long the
/// exited mode was active; entry and audio events carry none.
pub open spec fn spec_event_duration(e: StateEvent) -> Option<u64> {
    match e {
        StateEvent::DictationComplete { duration_ms } => Some(duration_ms),
        StateEvent::IntelligentRequestComplete { duration_ms } => Some(duration_ms),
        StateEvent::AgentModeExited { duration_ms } => Some(duration_ms),
        _ => None,
    }
}

/// The display form of an event: its name in upper snake case, with the
/// dwell duration in milliseconds on exit events.
pub open spec fn spec_describe_state_event(e: StateEvent) -> Seq<char> {
    match e {
        StateEvent::DictationStarted => "DICTATION_STARTED"@,
        StateEvent::DictationComplete { duration_ms } => (
        "DICTATION_COMPLETE ("@ + spec_dec(duration_ms as nat) + "ms)"@),
        StateEvent::IntelligentStarted => "INTELLIGENT_STARTED"@,
        StateEvent::IntelligentRequestComplete { duration_ms } => (
        "INTELLIGENT_REQUEST_COMPLETE ("@ + spec_dec(duration_ms as nat) + "ms)"@),
        StateEvent::AgentModeEntered => "AGENT_MODE_ENTERED"@,
        StateEvent::AgentModeExited { duration_ms } => (
        "AGENT_MODE_EXITED ("@ + spec_dec(duration_ms as nat) + "ms)"@),
        StateEvent::AudioCaptureStarted => "AUDIO_CAPTURE_STARTED"@,
        StateEvent::AudioCaptureStopped => "AUDIO_CAPTURE_STOPPED"@,
    }
}

impl StateEvent {
    /// Render the event for logs and status lines.
    pub fn describe(&self) -> (r: String)
        ensures
            r@ == spec_describe_state_event(*self),
    {
        let mut out = String::new();
        match self {
            StateEvent::DictationStarted => out.append("DICTATION_STARTED"),
            StateEvent::DictationComplete { duration_ms } => {
                out.append("DICTATION_COMPLETE (");
                push_u64(&mut out, *duration_ms);
                out.append("ms)");
            },
            StateEvent::IntelligentStarted => out.append("INTELLIGENT_STARTED"),
            StateEvent::IntelligentRequestComplete { duration_ms } => {
                out.append("INTELLIGENT_REQUEST_COMPLETE (");
                push_u64(&mut out, *duration_ms);
                out.append("ms)");
            },
            StateEvent::AgentModeEntered => out.append("AGENT_MODE_ENTERED"),
            StateEvent::AgentModeExited { duration_ms } => {
                out.append("AGENT_MODE_EXITED (");
                push_u64(&mut out, *duration_ms);
                out.append("ms)");
            },
            StateEvent::AudioCaptureStarted => out.append("AUDIO_CAPTURE_STARTED"),
            StateEvent::AudioCaptureStopped => out.append("AUDIO_CAPTURE_STOPPED"),
        }
        proof {
            assert(out@ =~= spec_describe_state_event(*self));
        }
        out
    }
}

} // verus!
