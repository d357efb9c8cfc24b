use osk_typer::accessibility::{canonical_key_name, first_match, log_names, name_matches};

#[test]
fn matches_ui_automation_key_names() {
    assert!(name_matches("1", "1"));
    assert!(name_matches("Key 1", "1"));
    assert!(name_matches("Number one", "1"));
    assert!(name_matches("` ~ 1", "1"));
    assert!(name_matches("A", "a"));
    assert!(name_matches("Control", "Ctrl"));
    assert!(!name_matches("2", "1"));
}

#[test]
fn canonical_names() {
    assert_eq!(canonical_key_name("control"), "ctrl");
    assert_eq!(canonical_key_name("zero"), "0");
    assert_eq!(canonical_key_name("nine"), "9");
    assert_eq!(canonical_key_name("Nine"), "Nine");
    assert_eq!(canonical_key_name("tab"), "tab");
}

#[test]
fn more_name_matches() {
    assert!(name_matches("  Enter  ", "enter"));
    assert!(name_matches("Left Ctrl", "control"));
    assert!(!name_matches("Onetwo", "1"));
    assert!(!name_matches("", "a"));
    assert!(name_matches("", ""));
    assert!(name_matches("Shift+Tab", "TAB"));
    assert!(!name_matches("Tab", "Shift+Tab"));
}

#[test]
fn names_match_themselves() {
    for n in ["Tab", " q ", "Number one", "\u{e9}", ""] {
        assert!(name_matches(n, n));
    }
}

#[test]
fn element_search_finds_the_first_match() {
    let names: Vec<String> = vec!["".into(), "Esc".into(), "Left Ctrl".into(), "Control".into()];
    assert_eq!(first_match(&names, "ctrl"), Some(2));
    assert_eq!(first_match(&names, "Esc"), Some(1));
    assert_eq!(first_match(&names, "Tab"), None);
    assert_eq!(first_match(&Vec::new(), "Tab"), None);
}

#[test]
fn element_search_keeps_names_for_the_log() {
    let mut names: Vec<String> = vec!["".into(), "Esc".into()];
    for i in 0..30 {
        names.push(format!("K{i}"));
        names.push(String::new());
    }
    let kept = log_names(&names);
    assert_eq!(kept.len(), 24);
    assert_eq!(kept[0], "Esc");
    assert_eq!(kept[1], "K0");
    assert_eq!(kept[23], "K22");
    assert_eq!(log_names(&vec!["a".into(), "".into(), "b".into()]), vec!["a".to_string(), "b".to_string()]);
}
