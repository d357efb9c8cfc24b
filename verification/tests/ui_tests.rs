use osk_typer::config::InputMode;
use osk_typer::ui::{
    apply_bar_fields, bar_fields, editor_result_accepted, hotkey_command, run_outcome,
    start_decision, RunOutcome, StartDecision, StartError,
};
use osk_typer::config::{AppConfig, KeyBinding};
use osk_typer::ui::{
    active_slot_count, binding_display, captured_binding, classify_command, interval_from_text,
    interval_text, key_from_text, key_label, key_text, parse_binding, UiCommand,
};

fn kb(label: &str, ctrl: bool, shift: bool) -> KeyBinding {
    KeyBinding { label: label.into(), ctrl, shift }
}

#[test]
fn display_and_parse() {
    assert_eq!(binding_display(&kb("A", true, true)), "Ctrl+Shift+A");
    assert_eq!(binding_display(&kb("A", true, false)), "Ctrl+A");
    assert_eq!(binding_display(&kb("A", false, true)), "Shift+A");
    assert_eq!(binding_display(&kb("A", false, false)), "A");
    assert_eq!(parse_binding("Ctrl+Shift+A"), kb("A", true, true));
    assert_eq!(parse_binding("control + x + y"), kb(" x + y", true, false));
    assert_eq!(parse_binding(" Shift "), kb("Shift", false, true));
    for b in [kb("F5", true, false), kb("a+b", false, true), kb(" Q ", true, true)] {
        assert_eq!(parse_binding(&binding_display(&b)), b);
    }
}

#[test]
fn key_boxes() {
    assert_eq!(key_text(&None), "Set");
    assert_eq!(key_from_text("Set"), None);
    assert_eq!(key_from_text("Press..."), None);
    assert_eq!(key_from_text("Press"), None);
    assert_eq!(key_from_text(""), None);
    assert_eq!(key_from_text("Ctrl+P"), Some(kb("P", true, false)));
    let k = Some(kb("Enter", false, true));
    assert_eq!(key_from_text(&key_text(&k)), k);
}

#[test]
fn interval_boxes() {
    assert_eq!(interval_from_text("250"), 250);
    assert_eq!(interval_from_text("abc"), 1000);
    assert_eq!(interval_from_text(""), 1000);
    assert_eq!(interval_text(1234567), "1234567");
    assert_eq!(interval_from_text(&interval_text(u64::MAX)), u64::MAX);
}

#[test]
fn captured_keys() {
    assert_eq!(key_label(0x20), "Space");
    assert_eq!(key_label(0x0D), "Enter");
    assert_eq!(key_label(0x70), "F1");
    assert_eq!(key_label(0x7B), "F12");
    assert_eq!(key_label(0x41), "A");
    assert_eq!(key_label(0x61), "A");
    assert_eq!(key_label(0xE9), "\u{e9}");
    assert_eq!(key_label(300), "VK300");
    assert_eq!(captured_binding(0x1B, true, true), None);
    assert_eq!(captured_binding(0x51, true, false), Some(kb("Q", true, false)));
}

#[test]
fn command_classification() {
    assert_eq!(classify_command(100), UiCommand::Start);
    assert_eq!(classify_command(0x0005_0065), UiCommand::Stop);
    assert_eq!(classify_command(102), UiCommand::Save);
    assert_eq!(classify_command(103), UiCommand::Load);
    assert_eq!(classify_command(0x0100_00CB), UiCommand::CaptureKey(3));
    assert_eq!(classify_command(203), UiCommand::Ignore);
    assert_eq!(classify_command(0x0100_0133), UiCommand::OpenEditor(7));
    assert_eq!(classify_command(0x0100_0134), UiCommand::Ignore);
    assert_eq!(classify_command(400), UiCommand::Sync);
    assert_eq!(classify_command(0x0001_0190), UiCommand::Ignore);
    assert_eq!(classify_command(0x0001_0068), UiCommand::Sync);
    assert_eq!(classify_command(104), UiCommand::Ignore);
    assert_eq!(classify_command(999), UiCommand::Ignore);
}

#[test]
fn counting_active_slots() {
    let mut c = AppConfig::default();
    assert_eq!(active_slot_count(&c), 0);
    c.slots[0].key = Some(kb("A", false, false));
    c.slots[1].key = Some(kb("B", false, false));
    c.slots[1].enabled = false;
    c.slots[7].key = Some(kb("C", false, false));
    assert_eq!(active_slot_count(&c), 2);
}

#[test]
fn start_requests() {
    let mut c = AppConfig::default();
    assert_eq!(start_decision(false, &c), StartDecision::Refuse(StartError::NoActiveSlot));
    assert_eq!(start_decision(true, &c), StartDecision::Ignore);
    c.slots[6].key = Some(kb("Z", false, false));
    assert_eq!(start_decision(false, &c), StartDecision::Start);
    assert_eq!(start_decision(true, &c), StartDecision::Ignore);
    c.slots[6].enabled = false;
    assert_eq!(start_decision(false, &c), StartDecision::Refuse(StartError::NoActiveSlot));
    assert_eq!(StartError::NoActiveSlot.message(), "Configure at least one enabled slot");
}

#[test]
fn run_outcomes() {
    assert_eq!(run_outcome(true, true, Some("x".into())), RunOutcome::Completed);
    assert_eq!(run_outcome(false, true, Some("x".into())), RunOutcome::Stopped);
    assert_eq!(run_outcome(false, false, Some("key A not found".into())), RunOutcome::Failed("key A not found".into()));
    assert_eq!(
        run_outcome(false, false, None),
        RunOutcome::Failed("OSK input failed or a key could not be found".into())
    );
}

#[test]
fn hotkeys_and_editor_results() {
    assert_eq!(hotkey_command(1), UiCommand::Start);
    assert_eq!(hotkey_command(2), UiCommand::Stop);
    assert_eq!(hotkey_command(0), UiCommand::Ignore);
    assert_eq!(hotkey_command(3), UiCommand::Ignore);
    assert!(editor_result_accepted(0));
    assert!(editor_result_accepted(7));
    assert!(!editor_result_accepted(8));
}

#[test]
fn bar_shows_and_reads_back_a_configuration() {
    let mut c = AppConfig::default();
    c.input_mode = InputMode::ScanCode;
    c.logging = true;
    c.slots[0].key = Some(kb("F5", true, false));
    c.slots[0].interval_ms = 250;
    c.slots[3].key = Some(kb("a+b", false, true));
    c.slots[3].enabled = false;
    c.slots[3].press_duration_ms = 7;
    let f = bar_fields(&c);
    assert_eq!(f.mode_index, 1);
    assert_eq!(f.slots.len(), 8);
    assert_eq!(f.slots[0].key, "Ctrl+F5");
    assert_eq!(f.slots[0].interval, "250");
    assert_eq!(f.slots[1].key, "Set");
    assert!(!f.slots[3].enabled);
    let mut back = AppConfig::default();
    back.logging = true;
    back.slots[3].press_duration_ms = 7;
    apply_bar_fields(&mut back, &f);
    assert_eq!(back, c);
}

#[test]
fn bar_reading_trims_and_falls_back() {
    let mut f = bar_fields(&AppConfig::default());
    f.mode_index = -1;
    f.slots[2].key = "  Shift+Q \t".into();
    f.slots[2].interval = " 40 ".into();
    f.slots[5].key = " Press... ".into();
    f.slots[5].interval = "soon".into();
    let mut c = AppConfig::default();
    c.input_mode = InputMode::ScanCode;
    c.slots[5].key = Some(kb("X", false, false));
    apply_bar_fields(&mut c, &f);
    assert_eq!(c.input_mode, InputMode::VirtualKey);
    assert_eq!(c.slots[2].key, Some(kb("Q", false, true)));
    assert_eq!(c.slots[2].interval_ms, 40);
    assert_eq!(c.slots[5].key, None);
    assert_eq!(c.slots[5].interval_ms, 1000);
}
