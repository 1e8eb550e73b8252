//! The request/response core of the IPC server.
//!
//! Socket handling, the accept loop and the locking around the shared
//! snapshot live in the surrounding application; the dispatch logic here is
//! a pure function of the shared state and the decoded request.

use vstd::prelude::*;

use crate::events::StateEvent;
use crate::machine::spec_state_after_event;
use crate::machine::state_after_event;
use crate::machine::State;
use crate::protocol::DaemonStatus;
use crate::protocol::Mode;
use crate::protocol::Notification;
use crate::protocol::Request;
use crate::protocol::Response;
use crate::protocol::spec_mode_of_state;

verus! {

/// The shared server state: the status snapshot handed out to clients and
/// the engine state it was last synchronized with.
pub struct ServerCore {
    /// Status snapshot served to clients
    pub status: DaemonStatus,
    /// Engine state the snapshot's mode was last derived from
    pub current_state: State,
}

impl ServerCore {
    /// Create the server core for a daemon reporting `version`.
    pub fn new(version: String) -> (r: Self)
        ensures
            r.status.version == version,
            r.status.mode == Mode::Idle,
            !r.status.hotkey_registered,
            r.status.uptime_secs == 0,
            r.current_state == State::Idle,
    {
        ServerCore {
            status: DaemonStatus {
                version,
                mode: Mode::Idle,
                hotkey_registered: false,
                uptime_secs: 0,
            },
            current_state: State::Idle,
        }
    }

    /// Update the snapshot after the engine moved to `state`.  Seeing an
    /// engine transition also means the key hook is delivering events.
    pub fn set_state(&mut self, state: State)
        ensures
            final(self).current_state == state,
            final(self).status.mode == spec_mode_of_state(state),
            final(self).status.hotkey_registered,
            final(self).status.version == old(self).status.version,
            final(self).status.uptime_secs == old(self).status.uptime_secs,
    {
        self.current_state = state;
        self.status.mode = Mode::from(state);
        self.status.hotkey_registered = true;
    }

    /// Serve one request against the shared state.  `uptime_secs` is the
    /// daemon's current uptime, used to refresh the snapshot on a status
    /// query.  Returns the response and whether the connection asked to be
    /// subscribed to notifications.
    pub fn process_request(&mut self, request: Request, uptime_secs: u64) -> (r: (Response, bool))
        ensures
            r.1 == (request is Subscribe),
            final(self).current_state == old(self).current_state,
            match request {
                Request::Ping => *final(self) == *old(self) && r.0 is Pong,
                Request::GetStatus => {
                    &&& final(self).status.version == old(self).status.version
                    &&& final(self).status.mode == old(self).status.mode
                    &&& final(self).status.hotkey_registered == old(self).status.hotkey_registered
                    &&& final(self).status.uptime_secs == uptime_secs
                    &&& (r.0 matches Response::Status(st) && st.version@ == old(
                        self,
                    ).status.version@ && st.mode == old(self).status.mode && st.hotkey_registered
                        == old(self).status.hotkey_registered && st.uptime_secs == uptime_secs)
                },
                Request::SetMode { mode } => {
                    &&& final(self).status.version == old(self).status.version
                    &&& final(self).status.mode == mode
                    &&& final(self).status.hotkey_registered == old(self).status.hotkey_registered
                    &&& final(self).status.uptime_secs == old(self).status.uptime_secs
                    &&& (r.0 matches Response::ModeChange { mode: m2, active } && m2 == mode
                        && active == (mode != Mode::Idle))
                },
                Request::Subscribe => *final(self) == *old(self) && r.0 is Subscribed,
            },
    {
        match request {
            Request::Ping => (Response::Pong, false),
            Request::GetStatus => {
                self.status.uptime_secs = uptime_secs;
                let st = DaemonStatus {
                    version: clone_version(&self.status.version),
                    mode: self.status.mode,
                    hotkey_registered: self.status.hotkey_registered,
                    uptime_secs: self.status.uptime_secs,
                };
                (Response::Status(st), false)
            },
            Request::SetMode { mode } => {
                self.status.mode = mode;
                (Response::ModeChange { mode, active: mode != Mode::Idle }, false)
            },
            Request::Subscribe => (Response::Subscribed, true),
        }
    }
}

/// The notification a subscriber is owed when a lifecycle event arrives,
/// and the mode to remember for that subscriber afterwards: a mode change
/// notification exactly when the event implies a mode other than the last
/// one sent; events that imply no mode, or no change, notify nothing.
pub open spec fn spec_notification_for_subscriber(ev: StateEvent, last_mode: Mode) -> (
    Option<Notification>,
    Mode,
) {
    match spec_state_after_event(ev) {
        Some(st) => {
            let mode = spec_mode_of_state(st);
            if mode != last_mode {
                (Some(Notification::ModeChanged { mode, previous: last_mode }), mode)
            } else {
                (None, last_mode)
            }
        },
        None => (None, last_mode),
    }
}

/// Decide what a subscribed connection is sent for one lifecycle event.
/// Returns the notification to push, if any, and the subscriber's new
/// last-sent mode.
pub fn notification_for_subscriber(ev: &StateEvent, last_mode: Mode) -> (r: (
    Option<Notification>,
    Mode,
))
    ensures
        r == spec_notification_for_subscriber(*ev, last_mode),
{
    match state_after_event(ev) {
        Some(st) => {
            let mode = Mode::from(st);
            if mode != last_mode {
                (Some(Notification::ModeChanged { mode, previous: last_mode }), mode)
            } else {
                (None, last_mode)
            }
        },
        None => (None, last_mode),
    }
}

/// Copy a version string for a status snapshot.
fn clone_version(s: &String) -> (r: String)
    ensures
        r@ == s@,
{
    s.clone()
}

} // verus!
