use osk_typer::config::{KeyBinding, MacroSlot};
use osk_typer::editor::{parse_binding, slot_from_fields, EditorError};

fn kb(label: &str, ctrl: bool, shift: bool) -> KeyBinding {
    KeyBinding { label: label.into(), ctrl, shift }
}

#[test]
fn editor_binding_parsing() {
    assert_eq!(parse_binding("A", false, false), kb("A", false, false));
    assert_eq!(parse_binding("ctrl + shift + a", false, false), kb("a", true, true));
    assert_eq!(parse_binding("Control+ B + C ", false, true), kb("B+C", true, true));
    assert_eq!(parse_binding("Ctrl+", false, false), kb("Ctrl+", true, false));
    assert_eq!(parse_binding(" Shift ", false, false), kb("Shift", false, true));
    assert_eq!(parse_binding("+", true, false), kb("+", true, false));
}

#[test]
fn editor_slot_fields() {
    assert_eq!(
        slot_from_fields(false, "Ctrl+Q", false, false, "10", "20", "30"),
        Ok(MacroSlot { enabled: false, key: Some(kb("Q", true, false)), interval_ms: 10, press_duration_ms: 20, release_delay_ms: 30 })
    );
    assert_eq!(slot_from_fields(true, "", false, false, "x", "20", "30"), Err(EditorError::EmptyKey));
    assert_eq!(slot_from_fields(true, "A", false, false, "x", "y", "30"), Err(EditorError::InvalidTimer));
    assert_eq!(slot_from_fields(true, "A", false, false, "1", "86400001", "x"), Err(EditorError::TimerTooLarge));
    assert_eq!(slot_from_fields(true, "A", false, false, "1", "2", "86400000").unwrap().release_delay_ms, 86_400_000);
    assert_eq!(EditorError::EmptyKey.message(), "key cannot be empty");
    assert_eq!(EditorError::InvalidTimer.message(), "timer must be a non-negative integer");
    assert_eq!(EditorError::TimerTooLarge.message(), "timer must not exceed 86,400,000 ms");
}

#[test]
fn editor_fields_read_back_unchanged() {
    let slot = MacroSlot { enabled: false, key: Some(kb("F7", true, true)), interval_ms: 0, press_duration_ms: 86_400_000, release_delay_ms: 12 };
    let f = osk_typer::editor::editor_fields(&slot);
    assert_eq!(f.key, "F7");
    assert!(f.ctrl && f.shift);
    assert_eq!((f.interval.as_str(), f.press.as_str(), f.release.as_str()), ("0", "86400000", "12"));
    assert_eq!(slot_from_fields(slot.enabled, &f.key, f.ctrl, f.shift, &f.interval, &f.press, &f.release), Ok(slot.clone()));
    let empty = MacroSlot { key: None, ..slot };
    let f = osk_typer::editor::editor_fields(&empty);
    assert_eq!(f.key, "");
    assert!(!f.ctrl && !f.shift);
}
