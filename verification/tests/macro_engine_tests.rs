use osk_typer::config::{AppConfig, KeyBinding};
use osk_typer::macro_engine::{actions, wait_step, MacroAction, MacroRunner, RunCommand, WaitStep};

#[test]
fn builds_modifier_order() {
    let mut c = AppConfig::default();
    c.slots[0].key = Some(KeyBinding {
        label: "A".into(),
        ctrl: true,
        shift: true,
    });
    let a = actions(&c);
    assert_eq!(a[0], MacroAction::ModifierDown("Ctrl"));
    assert_eq!(a[1], MacroAction::ModifierDown("Shift"));
    assert_eq!(a[2], MacroAction::KeyDown("A".into()));
    assert!(a.contains(&MacroAction::ModifierUp("Ctrl")));
}

fn two_slot_config() -> AppConfig {
    let mut c = AppConfig::default();
    c.slots[1].key = Some(KeyBinding { label: "A".into(), ctrl: true, shift: false });
    c.slots[1].press_duration_ms = 10;
    c.slots[1].release_delay_ms = 20;
    c.slots[1].interval_ms = 30;
    c.slots[4].key = Some(KeyBinding { label: "B".into(), ctrl: false, shift: true });
    c.slots[4].press_duration_ms = 40;
    c.slots[4].release_delay_ms = 50;
    c.slots[4].interval_ms = 60;
    c.slots[5].key = Some(KeyBinding { label: "C".into(), ctrl: false, shift: false });
    c.slots[5].enabled = false;
    c
}

#[test]
fn actions_of_two_slots() {
    let a = actions(&two_slot_config());
    assert_eq!(
        a,
        vec![
            MacroAction::ModifierDown("Ctrl"),
            MacroAction::KeyDown("A".into()),
            MacroAction::Hold(10),
            MacroAction::KeyUp("A".into()),
            MacroAction::ModifierUp("Ctrl"),
            MacroAction::Delay(20),
            MacroAction::Delay(30),
            MacroAction::ModifierDown("Shift"),
            MacroAction::KeyDown("B".into()),
            MacroAction::Hold(40),
            MacroAction::KeyUp("B".into()),
            MacroAction::ModifierUp("Shift"),
            MacroAction::Delay(50),
        ]
    );
}

#[test]
fn no_active_slot_means_no_action() {
    assert!(actions(&AppConfig::default()).is_empty());
}

#[test]
fn runner_hands_out_every_action_then_completes() {
    let c = two_slot_config();
    let expected = actions(&c);
    let mut r = MacroRunner::new(&c);
    let mut seen = Vec::new();
    loop {
        match r.next(true, false) {
            RunCommand::Finish(done) => {
                assert!(done);
                break;
            }
            RunCommand::Wait(ms) => seen.push(MacroAction::Delay(ms)),
            RunCommand::Perform(a) => seen.push(a),
        }
    }
    assert_eq!(seen.len(), expected.len());
    assert_eq!(seen[2], MacroAction::Delay(10));
    assert_eq!(seen[1], MacroAction::KeyDown("A".into()));
    assert_eq!(r.next(false, true), RunCommand::Finish(true));
}

#[test]
fn runner_stops_on_failure_and_on_request() {
    let c = two_slot_config();
    let mut r = MacroRunner::new(&c);
    assert_eq!(r.next(true, false), RunCommand::Perform(MacroAction::ModifierDown("Ctrl")));
    assert_eq!(r.next(false, false), RunCommand::Finish(false));
    assert_eq!(r.next(true, false), RunCommand::Finish(false));

    let mut r = MacroRunner::new(&c);
    assert_eq!(r.next(true, false), RunCommand::Perform(MacroAction::ModifierDown("Ctrl")));
    assert_eq!(r.next(true, false), RunCommand::Perform(MacroAction::KeyDown("A".into())));
    assert_eq!(r.next(true, true), RunCommand::Finish(false));

    let mut r = MacroRunner::new(&AppConfig::default());
    assert_eq!(r.next(true, true), RunCommand::Finish(true));
}

#[test]
fn runner_outcome_is_decided_at_the_ending_step() {
    let c = two_slot_config();
    let count = actions(&c).len();
    let mut r = MacroRunner::new(&c);
    for _ in 0..count {
        assert!(!matches!(r.next(true, false), RunCommand::Finish(_)));
    }
    // With no action left, a stop request no longer cancels the run.
    assert_eq!(r.next(true, true), RunCommand::Finish(true));
    assert_eq!(r.next(false, false), RunCommand::Finish(true));

    let mut r = MacroRunner::new(&c);
    for _ in 0..5 {
        assert!(!matches!(r.next(true, false), RunCommand::Finish(_)));
    }
    assert_eq!(r.next(false, false), RunCommand::Finish(false));
    for _ in 0..20 {
        assert_eq!(r.next(true, false), RunCommand::Finish(false));
    }
}

#[test]
fn wait_steps() {
    assert_eq!(wait_step(0, true), WaitStep::Done(true));
    assert_eq!(wait_step(0, false), WaitStep::Done(true));
    assert_eq!(wait_step(12, true), WaitStep::Done(false));
    assert_eq!(wait_step(12, false), WaitStep::Sleep(5));
    assert_eq!(wait_step(3, false), WaitStep::Sleep(3));
    let mut left = 12;
    let mut slept = Vec::new();
    loop {
        match wait_step(left, false) {
            WaitStep::Done(done) => {
                assert!(done);
                break;
            }
            WaitStep::Sleep(ms) => {
                slept.push(ms);
                left -= ms;
            }
        }
    }
    assert_eq!(slept, vec![5, 5, 2]);
}
