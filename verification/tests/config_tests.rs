use osk_typer::text::NumberError;
use osk_typer::config::{parse_bool, parse_timer};
use osk_typer::config::{parse, serialize, AppConfig, ConfigError, InputMode, KeyBinding, MacroSlot};

#[test]
fn round_trip() {
    let mut c = AppConfig::default();
    c.slots[0].key = Some(KeyBinding {
        label: "F1".into(),
        ctrl: true,
        shift: false,
    });
    let text = serialize(&c);
    let loaded = parse(&text).unwrap();
    assert_eq!(loaded, c);
}

#[test]
fn logging_setting_round_trips() {
    let config = parse("version=1\nlogging=false\ninput_mode=scan-code\n").unwrap();
    assert!(!config.logging);
    assert_eq!(config.input_mode, InputMode::ScanCode);
}

#[test]
fn rejects_ninth_slot() {
    let mut t = String::new();
    for i in 0..9 {
        t.push_str(&format!("slot.{i}.enabled=true\n"));
    }
    assert!(parse(&t).is_err());
}

#[test]
fn defaults_match_documented_values() {
    let c = AppConfig::default();
    assert_eq!(c.slots.len(), 8);
    assert!(c.logging);
    assert_eq!(c.input_mode, InputMode::VirtualKey);
    for s in c.slots.iter() {
        assert_eq!(
            *s,
            MacroSlot { enabled: true, key: None, interval_ms: 1000, press_duration_ms: 50, release_delay_ms: 50 }
        );
    }
}

#[test]
fn empty_text_gives_defaults() {
    assert_eq!(parse("").unwrap(), AppConfig::default());
}

#[test]
fn serialized_text_has_expected_lines() {
    let mut c = AppConfig::default();
    c.logging = false;
    c.input_mode = InputMode::ScanCode;
    c.slots[2].key = Some(KeyBinding { label: "A=B".into(), ctrl: false, shift: true });
    c.slots[2].interval_ms = 86_400_000;
    let text = serialize(&c);
    assert!(text.starts_with("version=1\nlogging=false\ninput_mode=scan-code\nslot.0.enabled=true\n"));
    assert!(text.contains("slot.2.key=A=B\nslot.2.ctrl=false\nslot.2.shift=true\nslot.2.interval_ms=86400000\n"));
    assert!(text.ends_with("slot.7.release_delay_ms=50\n"));
    assert_eq!(text.lines().count(), 3 + 8 * 7);
    assert_eq!(parse(&text).unwrap(), c);
}

#[test]
fn full_round_trip_of_every_slot() {
    let mut c = AppConfig::default();
    for i in 0..8 {
        c.slots[i].enabled = i % 2 == 0;
        c.slots[i].interval_ms = (i as u64) * 1234;
        c.slots[i].press_duration_ms = 86_400_000 - i as u64;
        c.slots[i].release_delay_ms = 0;
        if i != 3 {
            c.slots[i].key = Some(KeyBinding { label: format!(" key {i} "), ctrl: i % 3 == 0, shift: i % 2 == 1 });
        }
    }
    assert_eq!(parse(&serialize(&c)).unwrap(), c);
}

#[test]
fn booleans_accept_documented_spellings() {
    for (text, value) in [("TRUE", true), (" yes ", true), ("Y", true), ("1", true), ("False", false), ("no", false), ("n", false), ("0\t", false)] {
        let c = parse(&format!("logging={text}")).unwrap();
        assert_eq!(c.logging, value, "{text}");
    }
    assert_eq!(parse("logging=maybe"), Err(ConfigError::InvalidBoolean));
    assert_eq!(parse("slot.0.enabled=on"), Err(ConfigError::InvalidBoolean));
}

#[test]
fn crlf_lines_are_accepted() {
    let c = parse("logging=false\r\nslot.1.key=Q\r\nslot.1.ctrl=true\r\n").unwrap();
    assert!(!c.logging);
    assert_eq!(c.slots[1].key, Some(KeyBinding { label: "Q".into(), ctrl: true, shift: false }));
}

#[test]
fn final_line_keeps_its_carriage_return() {
    let c = parse("slot.0.key=Q\r").unwrap();
    assert_eq!(c.slots[0].key.as_ref().unwrap().label, "Q\r");
}

#[test]
fn input_mode_errors_and_values() {
    assert_eq!(parse("input_mode=virtual-key").unwrap().input_mode, InputMode::VirtualKey);
    assert_eq!(parse("input_mode=Scan-Code"), Err(ConfigError::InvalidInputMode));
}

#[test]
fn slot_index_errors() {
    assert_eq!(parse("slot.x.enabled=true"), Err(ConfigError::InvalidSlotIndex(NumberError::InvalidDigit)));
    assert_eq!(parse("slot..enabled=true"), Err(ConfigError::InvalidSlotIndex(NumberError::Empty)));
    assert_eq!(parse("slot.99999999999999999999999.enabled=true"), Err(ConfigError::InvalidSlotIndex(NumberError::PosOverflow)));
    assert_eq!(parse("slot.8.enabled=true"), Err(ConfigError::SlotIndexOutOfRange));
    assert_eq!(parse("slot.8.unknown=true"), Err(ConfigError::SlotIndexOutOfRange));
    assert!(parse("slot.+7.enabled=false").unwrap().slots[7].enabled == false);
}

#[test]
fn timer_errors_and_bounds() {
    assert_eq!(parse("slot.0.interval_ms=86400000").unwrap().slots[0].interval_ms, 86_400_000);
    assert_eq!(parse("slot.0.interval_ms=86400001"), Err(ConfigError::TimerTooLarge));
    assert_eq!(parse("slot.0.press_duration_ms=-1"), Err(ConfigError::InvalidTimer(NumberError::InvalidDigit)));
    assert_eq!(parse("slot.0.release_delay_ms= 5"), Err(ConfigError::InvalidTimer(NumberError::InvalidDigit)));
    assert_eq!(parse("slot.0.release_delay_ms=18446744073709551616"), Err(ConfigError::InvalidTimer(NumberError::PosOverflow)));
    assert_eq!(parse("slot.0.release_delay_ms=99999999999999999999"), Err(ConfigError::InvalidTimer(NumberError::PosOverflow)));
    assert_eq!(parse("slot.0.release_delay_ms=18446744073709551615"), Err(ConfigError::TimerTooLarge));
}

#[test]
fn ignored_lines() {
    let c = parse("no equals sign\nunknown=1\nslot.3=5\nslot.3.colour=red\n\n").unwrap();
    assert_eq!(c, AppConfig::default());
}

#[test]
fn modifiers_need_a_key() {
    let c = parse("slot.0.ctrl=true\nslot.0.key=A\nslot.0.shift=true\n").unwrap();
    assert_eq!(c.slots[0].key, Some(KeyBinding { label: "A".into(), ctrl: false, shift: true }));
    let c = parse("slot.0.key=A\nslot.0.ctrl=true\nslot.0.key=\n").unwrap();
    assert_eq!(c.slots[0].key, None);
}

#[test]
fn later_lines_win_and_errors_stop_everything() {
    let c = parse("logging=false\nlogging=true\n").unwrap();
    assert!(c.logging);
    assert_eq!(parse("logging=false\nslot.0.enabled=nope\nlogging=true"), Err(ConfigError::InvalidBoolean));
}

#[test]
fn error_messages() {
    assert_eq!(ConfigError::InvalidBoolean.message(), "invalid boolean");
    assert_eq!(ConfigError::InvalidInputMode.message(), "invalid input mode");
    assert_eq!(ConfigError::InvalidSlotIndex(NumberError::InvalidDigit).message(), "invalid slot index");
    assert_eq!(ConfigError::SlotIndexOutOfRange.message(), "slot index out of range");
    assert_eq!(ConfigError::InvalidTimer(NumberError::Empty).message(), "timer must be a non-negative integer");
    assert_eq!(ConfigError::TimerTooLarge.message(), "timer is too large");
}

#[test]
fn boolean_values_alone() {
    assert_eq!(parse_bool(" YES "), Ok(true));
    assert_eq!(parse_bool("\tn\n"), Ok(false));
    assert_eq!(parse_bool("0"), Ok(false));
    assert_eq!(parse_bool("off"), Err(ConfigError::InvalidBoolean));
    assert_eq!(parse_bool(""), Err(ConfigError::InvalidBoolean));
}

#[test]
fn timer_values_alone() {
    assert_eq!(parse_timer("86400000"), Ok(86_400_000));
    assert_eq!(parse_timer("+5"), Ok(5));
    assert_eq!(parse_timer("86400001"), Err(ConfigError::TimerTooLarge));
    assert_eq!(parse_timer("99999999999999999999"), Err(ConfigError::InvalidTimer(NumberError::PosOverflow)));
    assert_eq!(parse_timer(" 5"), Err(ConfigError::InvalidTimer(NumberError::InvalidDigit)));
    assert_eq!(parse_timer("-1"), Err(ConfigError::InvalidTimer(NumberError::InvalidDigit)));
}

#[test]
fn first_failing_line_decides_the_error() {
    assert_eq!(
        parse("slot.0.key=A\nlogging=maybe\ninput_mode=bad\n"),
        Err(ConfigError::InvalidBoolean)
    );
    assert_eq!(
        parse("input_mode=bad\nslot.9.enabled=true"),
        Err(ConfigError::InvalidInputMode)
    );
    assert_eq!(parse("slot.x.enabled=1"), Err(ConfigError::InvalidSlotIndex(NumberError::InvalidDigit)));
    assert_eq!(parse("slot.8.enabled=1"), Err(ConfigError::SlotIndexOutOfRange));
    assert_eq!(parse("slot.3.unknown=whatever\nslot.3=1\nnoise"), Ok(AppConfig::default()));
}

#[test]
fn parsed_configuration_keeps_its_limits() {
    let c = parse("slot.2.key=F5\nslot.2.interval_ms=86400000\nslot.2.key=\n").unwrap();
    assert_eq!(c.slots[2].key, None);
    assert_eq!(c.slots[2].interval_ms, 86_400_000);
    let c = parse("slot.1.key= Q \nslot.1.ctrl=yes").unwrap();
    assert_eq!(c.slots[1].key, Some(KeyBinding { label: " Q ".into(), ctrl: true, shift: false }));
}

#[test]
fn number_errors_name_their_cause() {
    assert_eq!(parse("slot.+.key=A"), Err(ConfigError::InvalidSlotIndex(NumberError::InvalidDigit)));
    assert_eq!(parse("slot.+1.key=A").unwrap().slots[1].key.is_some(), true);
    assert_eq!(parse_timer(""), Err(ConfigError::InvalidTimer(NumberError::Empty)));
    assert_eq!(parse_timer("+"), Err(ConfigError::InvalidTimer(NumberError::InvalidDigit)));
    assert_eq!(parse_timer("99999999999999999999x"), Err(ConfigError::InvalidTimer(NumberError::PosOverflow)));
    assert_eq!(parse_timer("9x9999999999999999999"), Err(ConfigError::InvalidTimer(NumberError::InvalidDigit)));
    assert_eq!(ConfigError::InvalidTimer(NumberError::PosOverflow).cause(), Some(NumberError::PosOverflow));
    assert_eq!(ConfigError::TimerTooLarge.cause(), None);
    assert_eq!(NumberError::Empty.message(), "cannot parse integer from empty string");
    assert_eq!(NumberError::InvalidDigit.message(), "invalid digit found in string");
    assert_eq!(NumberError::PosOverflow.message(), "number too large to fit in target type");
}
