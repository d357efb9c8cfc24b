use osk_typer::windows_search::{is_osk_window, osk_windows, WindowInfo};

fn w(visible: bool, class_name: &str, title: &str) -> WindowInfo {
    WindowInfo { visible, class_name: class_name.into(), title: title.into() }
}

#[test]
fn osk_windows_in_enumeration_order() {
    let ws = vec![
        w(true, "Notepad", "Untitled - Notepad"),
        w(true, "OSKMainClass", ""),
        w(false, "OSKMainClass", "On-Screen Keyboard"),
        w(true, "Other", "my ON-SCREEN KEYBOARD helper"),
        w(true, "Other", "On-Screen Keys"),
    ];
    assert_eq!(osk_windows(&ws), vec![1, 3]);
    assert_eq!(osk_windows(&Vec::new()), Vec::<usize>::new());
    assert!(is_osk_window("OSKMainClass", ""));
    assert!(!is_osk_window("oskmainclass", ""));
}
