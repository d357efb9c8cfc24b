use osk_typer::osk_start::{
    osk_start_step, osk_stop_step, OskStart, OskStartAction, OskStartError, OskStop,
    OskStopAction, CLOSE_TIMEOUT_MS, POLL_INTERVAL_MS, STARTUP_TIMEOUT_MS,
};

#[test]
fn start_closes_launches_and_accepts() {
    let mut s = OskStart::new();
    assert_eq!(osk_start_step(&mut s, true, 0), OskStartAction::CloseVisible);
    assert_eq!(osk_start_step(&mut s, true, 10), OskStartAction::Sleep(POLL_INTERVAL_MS));
    assert_eq!(osk_start_step(&mut s, true, 4_000), OskStartAction::Sleep(POLL_INTERVAL_MS));
    assert_eq!(osk_start_step(&mut s, false, 4_100), OskStartAction::Launch);
    assert_eq!(osk_start_step(&mut s, false, 4_200), OskStartAction::Sleep(POLL_INTERVAL_MS));
    assert_eq!(osk_start_step(&mut s, true, 4_300), OskStartAction::Accept);
    assert_eq!(osk_start_step(&mut s, false, 99_999), OskStartAction::Accept);
}

#[test]
fn start_without_old_window_launches_at_once() {
    let mut s = OskStart::new();
    assert_eq!(osk_start_step(&mut s, false, 0), OskStartAction::CloseVisible);
    assert_eq!(osk_start_step(&mut s, false, 0), OskStartAction::Launch);
}

#[test]
fn old_window_that_stays_fails_the_start() {
    let mut s = OskStart::new();
    assert_eq!(osk_start_step(&mut s, true, 0), OskStartAction::CloseVisible);
    assert_eq!(osk_start_step(&mut s, true, 1_000), OskStartAction::Sleep(POLL_INTERVAL_MS));
    assert_eq!(
        osk_start_step(&mut s, true, 1_000 + CLOSE_TIMEOUT_MS - 1),
        OskStartAction::Sleep(POLL_INTERVAL_MS)
    );
    assert_eq!(
        osk_start_step(&mut s, true, 1_000 + CLOSE_TIMEOUT_MS),
        OskStartAction::Fail(OskStartError::OldWindowStayed)
    );
    assert_eq!(
        osk_start_step(&mut s, false, 0),
        OskStartAction::Fail(OskStartError::OldWindowStayed)
    );
}

#[test]
fn launched_keyboard_without_window_is_ended() {
    let mut s = OskStart::new();
    assert_eq!(osk_start_step(&mut s, false, 0), OskStartAction::CloseVisible);
    assert_eq!(osk_start_step(&mut s, false, 5), OskStartAction::Launch);
    assert_eq!(osk_start_step(&mut s, false, 20), OskStartAction::Sleep(POLL_INTERVAL_MS));
    assert_eq!(
        osk_start_step(&mut s, false, 20 + STARTUP_TIMEOUT_MS - 1),
        OskStartAction::Sleep(POLL_INTERVAL_MS)
    );
    assert_eq!(
        osk_start_step(&mut s, false, 20 + STARTUP_TIMEOUT_MS),
        OskStartAction::TerminateAndFail(OskStartError::NoWindow)
    );
}

#[test]
fn start_error_messages() {
    assert_eq!(
        OskStartError::OldWindowStayed.message(),
        "an existing On-Screen Keyboard window did not close within 5 seconds"
    );
    assert_eq!(
        OskStartError::NoWindow.message(),
        "On-Screen Keyboard did not create a window within 10 seconds"
    );
}

#[test]
fn closing_waits_then_releases() {
    let mut s = OskStop::new();
    assert_eq!(osk_stop_step(&mut s, true, true, 0), OskStopAction::PostClose);
    assert_eq!(osk_stop_step(&mut s, true, true, 10), OskStopAction::Sleep(POLL_INTERVAL_MS));
    assert_eq!(osk_stop_step(&mut s, true, true, 2_000), OskStopAction::Sleep(POLL_INTERVAL_MS));
    assert_eq!(osk_stop_step(&mut s, false, false, 2_100), OskStopAction::CloseHandle);
    assert_eq!(osk_stop_step(&mut s, false, false, 2_200), OskStopAction::Done);
    assert_eq!(osk_stop_step(&mut s, true, true, 9_999), OskStopAction::Done);
}

#[test]
fn closing_ends_a_process_that_outlives_the_wait() {
    let mut s = OskStop::new();
    assert_eq!(osk_stop_step(&mut s, true, true, 0), OskStopAction::PostClose);
    assert_eq!(osk_stop_step(&mut s, true, true, 100), OskStopAction::Sleep(POLL_INTERVAL_MS));
    assert_eq!(
        osk_stop_step(&mut s, true, true, 100 + CLOSE_TIMEOUT_MS - 1),
        OskStopAction::Sleep(POLL_INTERVAL_MS)
    );
    assert_eq!(osk_stop_step(&mut s, true, true, 100 + CLOSE_TIMEOUT_MS), OskStopAction::Terminate);
    assert_eq!(osk_stop_step(&mut s, false, false, 0), OskStopAction::CloseHandle);
    assert_eq!(osk_stop_step(&mut s, false, false, 0), OskStopAction::Done);

    let mut s = OskStop::new();
    assert_eq!(osk_stop_step(&mut s, false, true, 0), OskStopAction::PostClose);
    assert_eq!(osk_stop_step(&mut s, false, true, 5), OskStopAction::Terminate);
}
