use second_brain_core::events::StateEvent;
use second_brain_core::keys::ModifierState;
use second_brain_core::machine::{state_after_event, State, StateMachine};

fn mods(control: bool, option: bool, command: bool) -> ModifierState {
    ModifierState { control, option, command }
}

#[test]
fn test_initial_state() {
    let sm = StateMachine::new();
    assert_eq!(sm.state(), State::Idle);
}

#[test]
fn test_idle_to_dictation() {
    let mut sm = StateMachine::new();

    let modifiers = ModifierState { control: true, option: false, command: false };

    sm.handle_modifier_change(modifiers, 0);
    assert_eq!(sm.state(), State::DictationActive);
}

#[test]
fn test_idle_to_intelligent() {
    let mut sm = StateMachine::new();

    let modifiers = ModifierState { control: true, option: true, command: false };

    sm.handle_modifier_change(modifiers, 0);
    assert_eq!(sm.state(), State::IntelligentActive);
}

#[test]
fn test_idle_to_agent() {
    let mut sm = StateMachine::new();

    let modifiers = ModifierState { control: true, option: false, command: true };

    sm.handle_modifier_change(modifiers, 0);
    assert_eq!(sm.state(), State::AgentActive);
}

#[test]
fn test_dictation_to_intelligent_upgrade() {
    let mut sm = StateMachine::new();

    // Enter Dictation
    sm.handle_modifier_change(mods(true, false, false), 0);
    assert_eq!(sm.state(), State::DictationActive);

    // Add Option -> upgrade to Intelligent
    sm.handle_modifier_change(mods(true, true, false), 0);
    assert_eq!(sm.state(), State::IntelligentActive);
}

#[test]
fn test_agent_ignores_other_modifiers() {
    let mut sm = StateMachine::new();

    // Enter Agent
    sm.handle_modifier_change(mods(true, false, true), 0);
    assert_eq!(sm.state(), State::AgentActive);

    // Release Command, keep Control -> still Agent
    sm.handle_modifier_change(mods(true, false, false), 0);
    assert_eq!(sm.state(), State::AgentActive);

    // Press Control+Option -> still Agent
    sm.handle_modifier_change(mods(true, true, false), 0);
    assert_eq!(sm.state(), State::AgentActive);
}

#[test]
fn test_agent_toggle_off() {
    let mut sm = StateMachine::new();

    // Enter Agent
    sm.handle_modifier_change(mods(true, false, true), 0);
    assert_eq!(sm.state(), State::AgentActive);

    // Release both
    sm.handle_modifier_change(ModifierState::default(), 0);
    assert_eq!(sm.state(), State::AgentActive); // Still in Agent

    // Press Control+Command again -> toggle off
    sm.handle_modifier_change(mods(true, false, true), 0);
    assert_eq!(sm.state(), State::Idle);
}

#[test]
fn test_dictation_entry_event() {
    // Idle, then {control:true}: Dictation entered, DictationStarted emitted.
    let mut sm = StateMachine::new();
    let events = sm.handle_modifier_change(mods(true, false, false), 10);
    assert_eq!(sm.state(), State::DictationActive);
    assert_eq!(events, vec![StateEvent::DictationStarted]);
}

#[test]
fn test_dictation_upgrade_events() {
    // From Dictation, {control, option}: DictationComplete then
    // IntelligentStarted, with the dwell duration of the dictation phase.
    let mut sm = StateMachine::new();
    sm.handle_modifier_change(mods(true, false, false), 100);
    let events = sm.handle_modifier_change(mods(true, true, false), 350);
    assert_eq!(sm.state(), State::IntelligentActive);
    assert_eq!(
        events,
        vec![
            StateEvent::DictationComplete { duration_ms: 250 },
            StateEvent::IntelligentStarted,
        ]
    );
}

#[test]
fn test_agent_toggle_events() {
    // Idle + {control, command}: Agent entered with AgentModeEntered; full
    // release is ignored; a fresh {control, command} edge leaves Agent with
    // AgentModeExited carrying the whole dwell.
    let mut sm = StateMachine::new();
    let entered = sm.handle_modifier_change(mods(true, false, true), 1_000);
    assert_eq!(sm.state(), State::AgentActive);
    assert_eq!(entered, vec![StateEvent::AgentModeEntered]);

    let released = sm.handle_modifier_change(ModifierState::default(), 2_000);
    assert_eq!(sm.state(), State::AgentActive);
    assert!(released.is_empty());

    let exited = sm.handle_modifier_change(mods(true, false, true), 5_500);
    assert_eq!(sm.state(), State::Idle);
    assert_eq!(exited, vec![StateEvent::AgentModeExited { duration_ms: 4_500 }]);
}

#[test]
fn test_replay_determinism() {
    // The same input sequence from the initial machine gives the same
    // states and the same events, twice over.
    let inputs = [
        (mods(true, false, false), 0),
        (mods(true, true, false), 5),
        (mods(false, false, false), 9),
        (mods(true, false, true), 20),
        (mods(false, false, false), 30),
        (mods(true, false, true), 44),
    ];
    let mut first_states = Vec::new();
    let mut first_events = Vec::new();
    let mut sm = StateMachine::new();
    for (m, t) in inputs.iter() {
        first_events.extend(sm.handle_modifier_change(*m, *t));
        first_states.push(sm.state());
    }
    let mut second_states = Vec::new();
    let mut second_events = Vec::new();
    let mut sm2 = StateMachine::new();
    for (m, t) in inputs.iter() {
        second_events.extend(sm2.handle_modifier_change(*m, *t));
        second_states.push(sm2.state());
    }
    assert_eq!(first_states, second_states);
    assert_eq!(first_events, second_events);
}

#[test]
fn test_resend_unchanged_is_noop() {
    // Re-sending the modifiers the machine last saw emits nothing and
    // leaves the mode alone.
    let mut sm = StateMachine::new();
    sm.handle_modifier_change(mods(true, false, false), 0);
    assert_eq!(sm.state(), State::DictationActive);
    let events = sm.handle_modifier_change(mods(true, false, false), 50);
    assert!(events.is_empty());
    assert_eq!(sm.state(), State::DictationActive);
}

#[test]
fn test_state_after_event() {
    assert_eq!(
        state_after_event(&StateEvent::DictationStarted),
        Some(State::DictationActive)
    );
    assert_eq!(
        state_after_event(&StateEvent::DictationComplete { duration_ms: 7 }),
        Some(State::Idle)
    );
    assert_eq!(
        state_after_event(&StateEvent::AgentModeEntered),
        Some(State::AgentActive)
    );
    assert_eq!(state_after_event(&StateEvent::AudioCaptureStarted), None);
}

#[test]
fn test_all_three_modifiers_is_agent() {
    // A fresh Control+Command edge wins even with Option also held.
    let mut sm = StateMachine::new();
    sm.handle_modifier_change(mods(true, true, true), 0);
    assert_eq!(sm.state(), State::AgentActive);
}

#[test]
fn test_agent_exit_with_option_held() {
    // The exit edge is also a Control+Command edge regardless of Option.
    let mut sm = StateMachine::new();
    sm.handle_modifier_change(mods(true, false, true), 0);
    assert_eq!(sm.state(), State::AgentActive);
    sm.handle_modifier_change(mods(false, false, false), 10);
    sm.handle_modifier_change(mods(true, true, true), 20);
    assert_eq!(sm.state(), State::Idle);
}

#[test]
fn test_dwell_zero_when_clock_does_not_advance() {
    // A timestamp earlier than the entry instant reports a zero dwell
    // rather than wrapping.
    let mut sm = StateMachine::new();
    sm.handle_modifier_change(mods(true, false, false), 100);
    let events = sm.handle_modifier_change(mods(false, false, false), 50);
    assert_eq!(events, vec![StateEvent::DictationComplete { duration_ms: 0 }]);
}

#[test]
fn test_dictation_upgrade_with_command_held() {
    // The upgrade out of Dictation needs only Control and Option held;
    // Command does not mask it.
    let mut sm = StateMachine::new();
    sm.handle_modifier_change(mods(true, false, false), 0);
    assert_eq!(sm.state(), State::DictationActive);
    sm.handle_modifier_change(mods(true, true, true), 10);
    assert_eq!(sm.state(), State::IntelligentActive);
}
