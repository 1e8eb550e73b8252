//! The mode transition engine.
//!
//! Handles transitions between Idle, DictationActive, IntelligentActive and
//! AgentActive states based on modifier key changes.  The engine is a total,
//! deterministic function of (current state, previous modifier state, new
//! modifier state); the caller supplies a millisecond timestamp with each
//! change, from which dwell durations are computed, and publishes the
//! returned lifecycle events.

use vstd::prelude::*;

use crate::events::StateEvent;
use crate::keys::ModifierState;

verus! {

/// The four possible states of the daemon.
#[derive(Debug, Clone, Copy, PartialEq, Eq, Structural)]
pub enum State {
    /// No active mode, waiting for a hotkey chord
    Idle,
    /// Dictation mode: Control is held
    DictationActive,
    /// Intelligent mode: Control+Option are held
    IntelligentActive,
    /// Agent mode: toggled on via Control+Command
    AgentActive,
}

impl Default for State {
    fn default() -> (r: Self)
        ensures
            r == State::Idle,
    {
        State::Idle
    }
}

/// A fresh Control+Command press: both keys are down now and at least one
/// of them was up in the immediately preceding modifier state.  Whether
/// Option happens to be down as well does not mask the chord: the command
/// edge wins over the Intelligent combination.
pub open spec fn spec_rising_edge_control_command(prev: ModifierState, m: ModifierState) -> bool {
    m.control && m.command && (!prev.control || !prev.command)
}

/// The rule table: next state from (current state, previous modifiers, new
/// modifiers).  Priority from Idle is Agent > Intelligent > Dictation.
/// The upgrade out of Dictation needs only Control and Option held:
/// Command does not mask it.
pub open spec fn spec_next_state(st: State, prev: ModifierState, m: ModifierState) -> State {
    match st {
        State::Idle => if spec_rising_edge_control_command(prev, m) {
            State::AgentActive
        } else if m.spec_is_control_option() {
            State::IntelligentActive
        } else if m.spec_is_control_only() {
            State::DictationActive
        } else {
            State::Idle
        },
        State::DictationActive => if m.control && m.option {
            State::IntelligentActive
        } else if !m.control {
            State::Idle
        } else {
            State::DictationActive
        },
        State::IntelligentActive => if !m.control || !m.option {
            State::Idle
        } else {
            State::IntelligentActive
        },
        State::AgentActive => if spec_rising_edge_control_command(prev, m) {
            State::Idle
        } else {
            State::AgentActive
        },
    }
}

/// Dwell duration: elapsed milliseconds since the recorded entry instant,
/// or 0 when there is none (the engine was Idle) or the clock went backwards.
pub open spec fn spec_dwell(entered: Option<u64>, now_ms: u64) -> u64 {
    match entered {
        Some(t) => if now_ms >= t {
            (now_ms - t) as u64
        } else {
            0
        },
        None => 0,
    }
}

/// The exit event for a state being left; Idle has none.
pub open spec fn spec_exit_events(st: State, duration_ms: u64) -> Seq<StateEvent> {
    match st {
        State::Idle => Seq::empty(),
        State::DictationActive => seq![StateEvent::DictationComplete { duration_ms }],
        State::IntelligentActive => seq![StateEvent::IntelligentRequestComplete { duration_ms }],
        State::AgentActive => seq![StateEvent::AgentModeExited { duration_ms }],
    }
}

/// The entry event for a state being entered; Idle has none.
pub open spec fn spec_entry_events(st: State) -> Seq<StateEvent> {
    match st {
        State::Idle => Seq::empty(),
        State::DictationActive => seq![StateEvent::DictationStarted],
        State::IntelligentActive => seq![StateEvent::IntelligentStarted],
        State::AgentActive => seq![StateEvent::AgentModeEntered],
    }
}

/// The state machine that manages mode transitions.
#[derive(Debug, Clone, Copy)]
pub struct StateMachine {
    /// Current state
    pub state: State,
    /// Previous modifier state (for edge detection)
    pub prev_modifiers: ModifierState,
    /// Timestamp (ms) at which the current non-Idle state was entered
    pub state_entered_at: Option<u64>,
}

/// The machine a fresh engine starts from: Idle, all keys up, no entry
/// instant.
pub open spec fn initial_machine() -> StateMachine {
    StateMachine {
        state: State::Idle,
        prev_modifiers: (ModifierState { control: false, option: false, command: false }),
        state_entered_at: None,
    }
}

/// One engine step: the machine after observing modifiers `m` at `now_ms`.
pub open spec fn spec_step(sm: StateMachine, m: ModifierState, now_ms: u64) -> StateMachine {
    let ns = spec_next_state(sm.state, sm.prev_modifiers, m);
    if ns == sm.state {
        StateMachine { state: sm.state, prev_modifiers: m, state_entered_at: sm.state_entered_at }
    } else {
        StateMachine {
            state: ns,
            prev_modifiers: m,
            state_entered_at: if ns == State::Idle {
                None
            } else {
                Some(now_ms)
            },
        }
    }
}

/// The events one engine step emits: nothing on a no-change step, else the
/// old state's exit event followed by the new state's entry event.
pub open spec fn spec_step_events(sm: StateMachine, m: ModifierState, now_ms: u64) -> Seq<
    StateEvent,
> {
    let ns = spec_next_state(sm.state, sm.prev_modifiers, m);
    if ns == sm.state {
        Seq::empty()
    } else {
        spec_exit_events(sm.state, spec_dwell(sm.state_entered_at, now_ms)) + spec_entry_events(ns)
    }
}

/// The machine after folding a whole input sequence (modifier state and
/// timestamp pairs) from the initial machine.
pub open spec fn spec_run(inputs: Seq<(ModifierState, u64)>) -> StateMachine
    decreases inputs.len(),
{
    if inputs.len() == 0 {
        initial_machine()
    } else {
        spec_step(spec_run(inputs.drop_last()), inputs.last().0, inputs.last().1)
    }
}

/// All events emitted while folding a whole input sequence from the initial
/// machine, in emission order.
pub open spec fn spec_run_events(inputs: Seq<(ModifierState, u64)>) -> Seq<StateEvent>
    decreases inputs.len(),
{
    if inputs.len() == 0 {
        Seq::empty()
    } else {
        spec_run_events(inputs.drop_last()) + spec_step_events(
            spec_run(inputs.drop_last()),
            inputs.last().0,
            inputs.last().1,
        )
    }
}

impl StateMachine {
    /// Engine well-formedness: an entry instant is recorded exactly when the
    /// state is not Idle, and the remembered modifiers are consistent with
    /// how the momentary states are reached and held.
    pub open spec fn wf(self) -> bool {
        &&& (self.state == State::Idle <==> self.state_entered_at is None)
        &&& (self.state == State::DictationActive ==> self.prev_modifiers.control
            && !self.prev_modifiers.option)
        &&& (self.state == State::IntelligentActive ==> self.prev_modifiers.control
            && self.prev_modifiers.option)
    }

    /// Create a new state machine in the initial configuration.
    pub fn new() -> (r: Self)
        ensures
            r == initial_machine(),
    {
        StateMachine {
            state: State::Idle,
            prev_modifiers: ModifierState::default(),
            state_entered_at: None,
        }
    }

    /// Get the current state.
    pub fn state(&self) -> (r: State)
        ensures
            r == self.state,
    {
        self.state
    }

    /// Handle a modifier state change observed at `now_ms`, returning the
    /// lifecycle events the step emits, in emission order.
    pub fn handle_modifier_change(&mut self, modifiers: ModifierState, now_ms: u64) -> (events: Vec<
        StateEvent,
    >)
        ensures
            *final(self) == spec_step(*old(self), modifiers, now_ms),
            events@ == spec_step_events(*old(self), modifiers, now_ms),
    {
        let old_state = self.state;
        let new_state = self.compute_next_state(&modifiers);
        let mut events: Vec<StateEvent> = Vec::new();

        if new_state != old_state {
            self.transition_to(new_state, now_ms, &mut events);
        }
        self.prev_modifiers = modifiers;

        proof {
            assert(events@ =~= spec_step_events(*old(self), modifiers, now_ms));
        }
        events
    }

    /// Compute the next state based on the current state and modifier keys.
    fn compute_next_state(&self, modifiers: &ModifierState) -> (r: State)
        ensures
            r == spec_next_state(self.state, self.prev_modifiers, *modifiers),
    {
        match self.state {
            State::Idle => self.compute_from_idle(modifiers),
            State::DictationActive => self.compute_from_dictation(modifiers),
            State::IntelligentActive => self.compute_from_intelligent(modifiers),
            State::AgentActive => self.compute_from_agent(modifiers),
        }
    }

    /// Compute the next state when currently Idle.
    fn compute_from_idle(&self, modifiers: &ModifierState) -> (r: State)
        ensures
            r == spec_next_state(State::Idle, self.prev_modifiers, *modifiers),
    {
        if self.is_rising_edge_control_command(modifiers) {
            State::AgentActive
        } else if modifiers.is_control_option() {
            State::IntelligentActive
        } else if modifiers.is_control_only() {
            State::DictationActive
        } else {
            State::Idle
        }
    }

    /// Compute the next state when in DictationActive.
    fn compute_from_dictation(&self, modifiers: &ModifierState) -> (r: State)
        ensures
            r == spec_next_state(State::DictationActive, self.prev_modifiers, *modifiers),
    {
        if modifiers.control && modifiers.option {
            State::IntelligentActive
        } else if !modifiers.control {
            State::Idle
        } else {
            State::DictationActive
        }
    }

    /// Compute the next state when in IntelligentActive.
    fn compute_from_intelligent(&self, modifiers: &ModifierState) -> (r: State)
        ensures
            r == spec_next_state(State::IntelligentActive, self.prev_modifiers, *modifiers),
    {
        if !modifiers.control || !modifiers.option {
            State::Idle
        } else {
            State::IntelligentActive
        }
    }

    /// Compute the next state when in AgentActive.
    fn compute_from_agent(&self, modifiers: &ModifierState) -> (r: State)
        ensures
            r == spec_next_state(State::AgentActive, self.prev_modifiers, *modifiers),
    {
        if self.is_rising_edge_control_command(modifiers) {
            State::Idle
        } else {
            State::AgentActive
        }
    }

    /// Detect a rising edge of Control+Command (just pressed together).
    fn is_rising_edge_control_command(&self, modifiers: &ModifierState) -> (r: bool)
        ensures
            r == spec_rising_edge_control_command(self.prev_modifiers, *modifiers),
    {
        modifiers.control && modifiers.command && (!self.prev_modifiers.control
            || !self.prev_modifiers.command)
    }

    /// Perform a state transition, appending the exit event of the old state
    /// and the entry event of the new one.
    fn transition_to(&mut self, new_state: State, now_ms: u64, events: &mut Vec<StateEvent>)
        ensures
            final(self).state == new_state,
            final(self).prev_modifiers == old(self).prev_modifiers,
            final(self).state_entered_at == (if new_state == State::Idle {
                None::<u64>
            } else {
                Some(now_ms)
            }),
            final(events)@ == old(events)@ + spec_exit_events(
                old(self).state,
                spec_dwell(old(self).state_entered_at, now_ms),
            ) + spec_entry_events(new_state),
    {
        let duration_ms: u64 = match self.state_entered_at {
            Some(t) => if now_ms >= t {
                now_ms - t
            } else {
                0
            },
            None => 0,
        };

        Self::emit_exit_event(self.state, duration_ms, events);

        self.state = new_state;
        self.state_entered_at = if new_state != State::Idle {
            Some(now_ms)
        } else {
            None
        };

        Self::emit_entry_event(new_state, events);
    }

    /// Append the exit event for the given state, if it has one.
    fn emit_exit_event(state: State, duration_ms: u64, events: &mut Vec<StateEvent>)
        ensures
            final(events)@ == old(events)@ + spec_exit_events(state, duration_ms),
    {
        match state {
            State::Idle => {
                proof {
                    assert(events@ =~= events@ + spec_exit_events(state, duration_ms));
                }
            },
            State::DictationActive => events.push(StateEvent::DictationComplete { duration_ms }),
            State::IntelligentActive => events.push(
                StateEvent::IntelligentRequestComplete { duration_ms },
            ),
            State::AgentActive => events.push(StateEvent::AgentModeExited { duration_ms }),
        }
    }

    /// Append the entry event for the given state, if it has one.
    fn emit_entry_event(state: State, events: &mut Vec<StateEvent>)
        ensures
            final(events)@ == old(events)@ + spec_entry_events(state),
    {
        match state {
            State::Idle => {
                proof {
                    assert(events@ =~= events@ + spec_entry_events(state));
                }
            },
            State::DictationActive => events.push(StateEvent::DictationStarted),
            State::IntelligentActive => events.push(StateEvent::IntelligentStarted),
            State::AgentActive => events.push(StateEvent::AgentModeEntered),
        }
    }
}

/// The engine state implied by a lifecycle event: entry events name the
/// state entered, exit events mean the engine fell back to Idle, and the
/// reserved audio events carry no state.
pub open spec fn spec_state_after_event(ev: StateEvent) -> Option<State> {
    match ev {
        StateEvent::DictationStarted => Some(State::DictationActive),
        StateEvent::DictationComplete { .. } => Some(State::Idle),
        StateEvent::IntelligentStarted => Some(State::IntelligentActive),
        StateEvent::IntelligentRequestComplete { .. } => Some(State::Idle),
        StateEvent::AgentModeEntered => Some(State::AgentActive),
        StateEvent::AgentModeExited { .. } => Some(State::Idle),
        StateEvent::AudioCaptureStarted => None,
        StateEvent::AudioCaptureStopped => None,
    }
}

/// The engine state implied by a lifecycle event, used to keep the status
/// snapshot in step with the engine.
pub fn state_after_event(ev: &StateEvent) -> (r: Option<State>)
    ensures
        r == spec_state_after_event(*ev),
{
    match ev {
        StateEvent::DictationStarted => Some(State::DictationActive),
        StateEvent::DictationComplete { .. } => Some(State::Idle),
        StateEvent::IntelligentStarted => Some(State::IntelligentActive),
        StateEvent::IntelligentRequestComplete { .. } => Some(State::Idle),
        StateEvent::AgentModeEntered => Some(State::AgentActive),
        StateEvent::AgentModeExited { .. } => Some(State::Idle),
        StateEvent::AudioCaptureStarted => None,
        StateEvent::AudioCaptureStopped => None,
    }
}

/// The engine's well-formedness is preserved by every step.
pub proof fn lemma_wf_preserved(sm: StateMachine, m: ModifierState, now_ms: u64)
    requires
        sm.wf(),
    ensures
        spec_step(sm, m, now_ms).wf(),
{
}

/// Every machine reached by folding an input sequence from the initial
/// machine is well-formed.
pub proof fn lemma_run_wf(inputs: Seq<(ModifierState, u64)>)
    ensures
        spec_run(inputs).wf(),
    decreases inputs.len(),
{
    if inputs.len() > 0 {
        lemma_run_wf(inputs.drop_last());
        lemma_wf_preserved(spec_run(inputs.drop_last()), inputs.last().0, inputs.last().1);
    }
}

/// Replay determinism: folding the identical input sequence from the
/// initial machine always yields the identical machine and the identical
/// event sequence.
pub proof fn lemma_replay_deterministic(a: Seq<(ModifierState, u64)>, b: Seq<(ModifierState, u64)>)
    requires
        a == b,
    ensures
        spec_run(a) == spec_run(b),
        spec_run_events(a) == spec_run_events(b),
{
}

/// The mode is a fold of the rule table alone: two input sequences with
/// the same modifier states, whatever their timestamps, drive the machine
/// through the same states and leave the same edge memory.
pub proof fn lemma_mode_is_fold_of_rule_table(
    a: Seq<(ModifierState, u64)>,
    b: Seq<(ModifierState, u64)>,
)
    requires
        a.len() == b.len(),
        forall|i: int| 0 <= i < a.len() ==> (#[trigger] a[i]).0 == b[i].0,
    ensures
        spec_run(a).state == spec_run(b).state,
        spec_run(a).prev_modifiers == spec_run(b).prev_modifiers,
    decreases a.len(),
{
    if a.len() > 0 {
        let a2 = a.drop_last();
        let b2 = b.drop_last();
        assert forall|i: int| 0 <= i < a2.len() implies (#[trigger] a2[i]).0 == b2[i].0 by {
            assert(a2[i] == a[i] && b2[i] == b[i]);
        }
        lemma_mode_is_fold_of_rule_table(a2, b2);
        assert(a.last().0 == b.last().0);
    }
}

/// No-op idempotence: re-sending the unchanged modifier state to a
/// well-formed machine neither changes the machine nor emits an event.
/// The one exception is an Idle machine whose remembered modifiers are the
/// Dictation or Intelligent chord (reachable by releasing keys out of those
/// modes): re-sending that chord re-enters the mode, so it is excluded here.
pub proof fn lemma_resend_noop(sm: StateMachine, now_ms: u64)
    requires
        sm.wf(),
        sm.state == State::Idle ==> !(sm.prev_modifiers.spec_is_control_only()
            || sm.prev_modifiers.spec_is_control_option()),
    ensures
        spec_step(sm, sm.prev_modifiers, now_ms) == sm,
        spec_step_events(sm, sm.prev_modifiers, now_ms) == Seq::<StateEvent>::empty(),
{
}

/// Sticky toggle: from Agent mode, any modifier state other than a fresh
/// Control+Command rising edge leaves the mode unchanged and emits nothing.
pub proof fn lemma_agent_sticky(sm: StateMachine, m: ModifierState, now_ms: u64)
    requires
        sm.state == State::AgentActive,
        !spec_rising_edge_control_command(sm.prev_modifiers, m),
    ensures
        spec_step(sm, m, now_ms).state == State::AgentActive,
        spec_step_events(sm, m, now_ms) == Seq::<StateEvent>::empty(),
{
}

/// Dwell durations are never negative and are exactly 0 when the exited
/// state had no entry instant (entry adjacent to Idle) or the clock did not
/// advance.
pub proof fn lemma_dwell_properties(entered: Option<u64>, now_ms: u64)
    ensures
        spec_dwell(entered, now_ms) >= 0,
        entered is None ==> spec_dwell(entered, now_ms) == 0,
        entered matches Some(t) ==> (now_ms >= t ==> spec_dwell(entered, now_ms) == now_ms - t),
{
}

/// Dwell reporting: every duration a step's events carry is the dwell of
/// the exited state — the elapsed milliseconds since its entry instant,
/// never negative, and 0 when there was none.  Leaving Idle, which has no
/// entry instant, emits no exit event at all.
pub proof fn lemma_exit_dwell(sm: StateMachine, m: ModifierState, now_ms: u64)
    ensures
        ({
            let evs = spec_step_events(sm, m, now_ms);
            let d = spec_dwell(sm.state_entered_at, now_ms);
            &&& d >= 0
            &&& (sm.state_entered_at is None ==> d == 0)
            &&& forall|k: int|
                0 <= k < evs.len() ==> (crate::events::spec_event_duration(#[trigger] evs[k])
                    matches Some(x) ==> x == d)
            &&& (sm.state == State::Idle ==> forall|k: int|
                0 <= k < evs.len() ==> crate::events::spec_event_duration(#[trigger] evs[k])
                    is None)
        }),
{
    let evs = spec_step_events(sm, m, now_ms);
    let d = spec_dwell(sm.state_entered_at, now_ms);
    let ns = spec_next_state(sm.state, sm.prev_modifiers, m);
    if ns != sm.state {
        let ex = spec_exit_events(sm.state, d);
        let en = spec_entry_events(ns);
        assert forall|k: int| 0 <= k < evs.len() implies (crate::events::spec_event_duration(
            #[trigger] evs[k],
        ) matches Some(x) ==> x == d) by {
            if k < ex.len() {
                assert(evs[k] == ex[k]);
            } else {
                assert(evs[k] == en[k - ex.len()]);
            }
        }
        if sm.state == State::Idle {
            assert forall|k: int| 0 <= k < evs.len() implies crate::events::spec_event_duration(
                #[trigger] evs[k],
            ) is None by {
                assert(evs[k] == en[k]);
            }
        }
    }
}

} // verus!
