//! Starting a fresh On-Screen Keyboard: close the keyboards already shown,
//! wait up to 5 s for them to go, launch a new one, wait up to 10 s for its
//! window, and give up (ending the launched process) when it never shows;
//! and closing it again: ask its window to close, wait up to 5 s, end the
//! process if it outlives that, and release its handle once.
//!
//! The caller runs the loop: before each step it looks whether an
//! On-Screen Keyboard window is visible and reads a monotonic clock in
//! milliseconds, then performs the action the step returns.
use vstd::prelude::*;

verus! {

/// How long old keyboard windows may take to close.
pub const CLOSE_TIMEOUT_MS: u64 = 5_000;

/// How long a launched keyboard may take to show its window.
pub const STARTUP_TIMEOUT_MS: u64 = 10_000;

/// How long to sleep between two looks at the windows.
pub const POLL_INTERVAL_MS: u64 = 100;

/// Why starting the keyboard failed.
#[derive(Clone, Copy, Debug, PartialEq, Eq)]
pub enum OskStartError {
    OldWindowStayed,
    NoWindow,
}

/// What the caller does next.
#[derive(Clone, Copy, Debug, PartialEq, Eq)]
pub enum OskStartAction {
    /// Ask every visible keyboard window to close.
    CloseVisible,
    /// Sleep this many milliseconds, then step again.
    Sleep(u64),
    /// Launch the keyboard process, then step again.
    Launch,
    /// The visible keyboard window is the new session's window.
    Accept,
    /// Give up with this error.
    Fail(OskStartError),
    /// End the launched process, then give up with this error.
    TerminateAndFail(OskStartError),
}

/// How a finished start ended.
#[derive(Clone, Copy, Debug, PartialEq, Eq)]
pub enum OskStartEnd {
    Accepted,
    Failed(OskStartError),
    Terminated(OskStartError),
}

/// Where a start stands.
#[derive(Clone, Copy, Debug, PartialEq, Eq)]
pub enum OskStartPhase {
    /// Nothing done yet.
    Begin,
    /// The old windows were asked to close; not looked at since.
    CloseRequested,
    /// Waiting for the old windows to go, since the given time.
    Closing(u64),
    /// The keyboard was launched; its window not looked for yet.
    Launched,
    /// Waiting for the launched keyboard's window, since the given time.
    AwaitingWindow(u64),
    /// The start is over.
    Finished(OskStartEnd),
}

/// The state of a start.
#[derive(Clone, Copy, Debug, PartialEq, Eq)]
pub struct OskStart {
    pub phase: OskStartPhase,
}

pub open spec fn end_action(e: OskStartEnd) -> OskStartAction {
    match e {
        OskStartEnd::Accepted => OskStartAction::Accept,
        OskStartEnd::Failed(x) => OskStartAction::Fail(x),
        OskStartEnd::Terminated(x) => OskStartAction::TerminateAndFail(x),
    }
}

pub open spec fn finish(e: OskStartEnd) -> (OskStart, OskStartAction) {
    (OskStart { phase: OskStartPhase::Finished(e) }, end_action(e))
}

/// Waiting for old windows, given when the waiting began: launch once no
/// window is left; fail once one has stayed for the close timeout.
pub open spec fn closing_step(since: u64, visible: bool, now: u64) -> (OskStart, OskStartAction) {
    if !visible {
        (OskStart { phase: OskStartPhase::Launched }, OskStartAction::Launch)
    } else if now >= since + CLOSE_TIMEOUT_MS {
        finish(OskStartEnd::Failed(OskStartError::OldWindowStayed))
    } else {
        (OskStart { phase: OskStartPhase::Closing(since) }, OskStartAction::Sleep(POLL_INTERVAL_MS))
    }
}

/// Waiting for the launched window, given when the waiting began: accept
/// a visible window; give up once none showed for the startup timeout.
pub open spec fn awaiting_step(since: u64, visible: bool, now: u64) -> (OskStart, OskStartAction) {
    if visible {
        finish(OskStartEnd::Accepted)
    } else if now >= since + STARTUP_TIMEOUT_MS {
        finish(OskStartEnd::Terminated(OskStartError::NoWindow))
    } else {
        (
            OskStart { phase: OskStartPhase::AwaitingWindow(since) },
            OskStartAction::Sleep(POLL_INTERVAL_MS),
        )
    }
}

/// One step of a start, given whether a keyboard window is visible and the
/// clock `now`. The waiting periods start at the first look after closing
/// and after launching.
pub open spec fn spec_osk_start_step(s: OskStart, visible: bool, now: u64) -> (OskStart, OskStartAction) {
    match s.phase {
        OskStartPhase::Begin => (
            OskStart { phase: OskStartPhase::CloseRequested },
            OskStartAction::CloseVisible,
        ),
        OskStartPhase::CloseRequested => closing_step(now, visible, now),
        OskStartPhase::Closing(since) => closing_step(since, visible, now),
        OskStartPhase::Launched => awaiting_step(now, visible, now),
        OskStartPhase::AwaitingWindow(since) => awaiting_step(since, visible, now),
        OskStartPhase::Finished(e) => (s, end_action(e)),
    }
}

pub open spec fn error_text(e: OskStartError) -> Seq<char> {
    match e {
        OskStartError::OldWindowStayed => "an existing On-Screen Keyboard window did not close within 5 seconds"@,
        OskStartError::NoWindow => "On-Screen Keyboard did not create a window within 10 seconds"@,
    }
}

impl OskStartError {
    /// The sentence that describes the error to a user.
    pub fn message(&self) -> (m: &'static str)
        ensures
            m@ == error_text(*self),
    {
        match self {
            OskStartError::OldWindowStayed => "an existing On-Screen Keyboard window did not close within 5 seconds",
            OskStartError::NoWindow => "On-Screen Keyboard did not create a window within 10 seconds",
        }
    }
}

impl OskStart {
    /// A start before its first step.
    pub fn new() -> (s: Self)
        ensures
            s.phase == OskStartPhase::Begin,
    {
        OskStart { phase: OskStartPhase::Begin }
    }
}

fn closing(since: u64, visible: bool, now: u64) -> (r: (OskStart, OskStartAction))
    ensures
        r == closing_step(since, visible, now),
{
    if !visible {
        (OskStart { phase: OskStartPhase::Launched }, OskStartAction::Launch)
    } else if now as u128 >= since as u128 + CLOSE_TIMEOUT_MS as u128 {
        (
            OskStart { phase: OskStartPhase::Finished(OskStartEnd::Failed(OskStartError::OldWindowStayed)) },
            OskStartAction::Fail(OskStartError::OldWindowStayed),
        )
    } else {
        (OskStart { phase: OskStartPhase::Closing(since) }, OskStartAction::Sleep(POLL_INTERVAL_MS))
    }
}

fn awaiting(since: u64, visible: bool, now: u64) -> (r: (OskStart, OskStartAction))
    ensures
        r == awaiting_step(since, visible, now),
{
    if visible {
        (
            OskStart { phase: OskStartPhase::Finished(OskStartEnd::Accepted) },
            OskStartAction::Accept,
        )
    } else if now as u128 >= since as u128 + STARTUP_TIMEOUT_MS as u128 {
        (
            OskStart { phase: OskStartPhase::Finished(OskStartEnd::Terminated(OskStartError::NoWindow)) },
            OskStartAction::TerminateAndFail(OskStartError::NoWindow),
        )
    } else {
        (
            OskStart { phase: OskStartPhase::AwaitingWindow(since) },
            OskStartAction::Sleep(POLL_INTERVAL_MS),
        )
    }
}

/// The next action of a start: `osk_window_visible` tells whether an
/// On-Screen Keyboard window is visible now, `elapsed_ms` reads a clock
/// that does not go back.
pub fn osk_start_step(state: &mut OskStart, osk_window_visible: bool, elapsed_ms: u64) -> (a: OskStartAction)
    ensures
        (*final(state), a) == spec_osk_start_step(*old(state), osk_window_visible, elapsed_ms),
{
    let (next, action) = match state.phase {
        OskStartPhase::Begin => (
            OskStart { phase: OskStartPhase::CloseRequested },
            OskStartAction::CloseVisible,
        ),
        OskStartPhase::CloseRequested => closing(elapsed_ms, osk_window_visible, elapsed_ms),
        OskStartPhase::Closing(since) => closing(since, osk_window_visible, elapsed_ms),
        OskStartPhase::Launched => awaiting(elapsed_ms, osk_window_visible, elapsed_ms),
        OskStartPhase::AwaitingWindow(since) => awaiting(since, osk_window_visible, elapsed_ms),
        OskStartPhase::Finished(e) => {
            let a = match e {
                OskStartEnd::Accepted => OskStartAction::Accept,
                OskStartEnd::Failed(x) => OskStartAction::Fail(x),
                OskStartEnd::Terminated(x) => OskStartAction::TerminateAndFail(x),
            };
            (*state, a)
        },
    };
    *state = next;
    action
}

// ---------------------------------------------------------------------------
// Laws of a start
// ---------------------------------------------------------------------------

/// The state after the first `j` of the observations `obs` (each a pair of
/// window visibility and clock reading), starting from `s`.
pub open spec fn state_after(s: OskStart, obs: Seq<(bool, u64)>, j: nat) -> OskStart
    decreases j,
{
    if j == 0 {
        s
    } else {
        spec_osk_start_step(state_after(s, obs, (j - 1) as nat), obs[j - 1].0, obs[j - 1].1).0
    }
}

/// The actions of a start driven by the observations `obs`, one per step.
pub open spec fn start_actions(obs: Seq<(bool, u64)>) -> Seq<OskStartAction> {
    Seq::new(
        obs.len(),
        |j: int|
            spec_osk_start_step(
                state_after(OskStart { phase: OskStartPhase::Begin }, obs, j as nat),
                obs[j].0,
                obs[j].1,
            ).1,
    )
}

/// The phases in which the keyboard has not been launched.
pub open spec fn before_launch(p: OskStartPhase) -> bool {
    p is Begin || p is CloseRequested || p is Closing || p == OskStartPhase::Finished(
        OskStartEnd::Failed(OskStartError::OldWindowStayed),
    )
}

/// Launch is what a step that sees no old window left does while closing,
/// and nothing else launches.
pub proof fn lemma_launch_needs_no_old_window(s: OskStart, visible: bool, now: u64)
    ensures
        spec_osk_start_step(s, visible, now).1 == OskStartAction::Launch <==> (
        (s.phase is CloseRequested || s.phase is Closing) && !visible),
{
}

/// Fail happens exactly when an old window is still visible at least 5 000 ms
/// after the waiting for it began.
pub proof fn lemma_fail_iff_old_window_stayed(s: OskStart, visible: bool, now: u64)
    ensures
        (spec_osk_start_step(s, visible, now).1 is Fail && !(s.phase is Finished)) <==> (
        visible && match s.phase {
            OskStartPhase::Closing(since) => now >= since + CLOSE_TIMEOUT_MS,
            _ => false,
        }),
{
}

/// The launched process is ended exactly when no window showed at least
/// 10 000 ms after the waiting for it began.
pub proof fn lemma_terminate_iff_no_window(s: OskStart, visible: bool, now: u64)
    ensures
        (spec_osk_start_step(s, visible, now).1 is TerminateAndFail && !(s.phase is Finished))
            <==> (!visible && match s.phase {
            OskStartPhase::AwaitingWindow(since) => now >= since + STARTUP_TIMEOUT_MS,
            _ => false,
        }),
{
}

/// Before a Launch, no step of a start accepts, launches or ends a process.
proof fn lemma_prefix_before_launch(obs: Seq<(bool, u64)>, j: nat)
    requires
        j <= obs.len(),
        forall|i: int| 0 <= i < j ==> start_actions(obs)[i] != OskStartAction::Launch,
    ensures
        before_launch(state_after(OskStart { phase: OskStartPhase::Begin }, obs, j).phase),
    decreases j,
{
    if j > 0 {
        lemma_prefix_before_launch(obs, (j - 1) as nat);
        assert(start_actions(obs)[j - 1] != OskStartAction::Launch);
    }
}

/// A start accepts a window only on a step that sees one, after it launched
/// the keyboard.
pub proof fn lemma_accept_after_launch(obs: Seq<(bool, u64)>, j: int)
    requires
        0 <= j < obs.len(),
        start_actions(obs)[j] == OskStartAction::Accept,
    ensures
        exists|i: int| 0 <= i < j && start_actions(obs)[i] == OskStartAction::Launch,
{
    let begin = OskStart { phase: OskStartPhase::Begin };
    if !(exists|i: int| 0 <= i < j && start_actions(obs)[i] == OskStartAction::Launch) {
        lemma_prefix_before_launch(obs, j as nat);
        assert(start_actions(obs)[j] == spec_osk_start_step(
            state_after(begin, obs, j as nat),
            obs[j].0,
            obs[j].1,
        ).1);
    }
}

/// A step that accepts sees a window, and comes from waiting for the
/// launched keyboard (or repeats an accepted end).
pub proof fn lemma_accept_sees_window(s: OskStart, visible: bool, now: u64)
    requires
        spec_osk_start_step(s, visible, now).1 == OskStartAction::Accept,
        !(s.phase is Finished),
    ensures
        visible,
        s.phase is Launched || s.phase is AwaitingWindow,
{
}

// ---------------------------------------------------------------------------
// Closing the session's keyboard
// ---------------------------------------------------------------------------

/// Where closing the session's keyboard stands.
#[derive(Clone, Copy, Debug, PartialEq, Eq)]
pub enum OskStopPhase {
    /// The keyboard is open.
    Open,
    /// Its window was asked to close; not looked at since.
    CloseRequested,
    /// Waiting for its window to go, since the given time.
    Waiting(u64),
    /// The process is being ended.
    Terminating,
    /// The session is closed and its process handle released.
    Closed,
}

/// What the caller does next to close the keyboard.
#[derive(Clone, Copy, Debug, PartialEq, Eq)]
pub enum OskStopAction {
    /// Ask the session's window to close.
    PostClose,
    /// Sleep this many milliseconds, then step again.
    Sleep(u64),
    /// End the session's process.
    Terminate,
    /// Release the session's process handle.
    CloseHandle,
    /// Nothing is left to do.
    Done,
}

/// The state of closing a session's keyboard.
#[derive(Clone, Copy, Debug, PartialEq, Eq)]
pub struct OskStop {
    pub phase: OskStopPhase,
}

/// Waiting for the window to go, given when the waiting began: wait while
/// the window is there and the close timeout has not passed; then end the
/// process if its window or the process itself is still there, and release
/// the handle.
pub open spec fn waiting_stop(since: u64, window: bool, process: bool, now: u64) -> (OskStop, OskStopAction) {
    if window && now < since + CLOSE_TIMEOUT_MS {
        (OskStop { phase: OskStopPhase::Waiting(since) }, OskStopAction::Sleep(POLL_INTERVAL_MS))
    } else if window || process {
        (OskStop { phase: OskStopPhase::Terminating }, OskStopAction::Terminate)
    } else {
        (OskStop { phase: OskStopPhase::Closed }, OskStopAction::CloseHandle)
    }
}

/// One step of closing the keyboard, given whether the session's window
/// exists, whether its process runs, and the clock `now`. The waiting
/// starts at the first look after the close request; a closed session does
/// nothing more.
pub open spec fn spec_osk_stop_step(s: OskStop, window: bool, process: bool, now: u64) -> (OskStop, OskStopAction) {
    match s.phase {
        OskStopPhase::Open => (
            OskStop { phase: OskStopPhase::CloseRequested },
            OskStopAction::PostClose,
        ),
        OskStopPhase::CloseRequested => waiting_stop(now, window, process, now),
        OskStopPhase::Waiting(since) => waiting_stop(since, window, process, now),
        OskStopPhase::Terminating => (
            OskStop { phase: OskStopPhase::Closed },
            OskStopAction::CloseHandle,
        ),
        OskStopPhase::Closed => (s, OskStopAction::Done),
    }
}

impl OskStop {
    /// The state of an open session.
    pub fn new() -> (s: Self)
        ensures
            s.phase == OskStopPhase::Open,
    {
        OskStop { phase: OskStopPhase::Open }
    }
}

fn waiting(since: u64, window: bool, process: bool, now: u64) -> (r: (OskStop, OskStopAction))
    ensures
        r == waiting_stop(since, window, process, now),
{
    if window && (now as u128) < since as u128 + CLOSE_TIMEOUT_MS as u128 {
        (OskStop { phase: OskStopPhase::Waiting(since) }, OskStopAction::Sleep(POLL_INTERVAL_MS))
    } else if window || process {
        (OskStop { phase: OskStopPhase::Terminating }, OskStopAction::Terminate)
    } else {
        (OskStop { phase: OskStopPhase::Closed }, OskStopAction::CloseHandle)
    }
}

/// The next action of closing the keyboard: `window_exists` tells whether
/// the session's window exists now, `process_running` whether its process
/// runs, `elapsed_ms` reads a clock that does not go back.
pub fn osk_stop_step(state: &mut OskStop, window_exists: bool, process_running: bool, elapsed_ms: u64) -> (a: OskStopAction)
    ensures
        (*final(state), a) == spec_osk_stop_step(*old(state), window_exists, process_running, elapsed_ms),
{
    let (next, action) = match state.phase {
        OskStopPhase::Open => (
            OskStop { phase: OskStopPhase::CloseRequested },
            OskStopAction::PostClose,
        ),
        OskStopPhase::CloseRequested => waiting(elapsed_ms, window_exists, process_running, elapsed_ms),
        OskStopPhase::Waiting(since) => waiting(since, window_exists, process_running, elapsed_ms),
        OskStopPhase::Terminating => (
            OskStop { phase: OskStopPhase::Closed },
            OskStopAction::CloseHandle,
        ),
        OskStopPhase::Closed => (*state, OskStopAction::Done),
    };
    *state = next;
    action
}

/// The window is asked to close exactly when the session is open.
pub proof fn lemma_close_posted_once(s: OskStop, window: bool, process: bool, now: u64)
    ensures
        spec_osk_stop_step(s, window, process, now).1 == OskStopAction::PostClose <==> s.phase
            == OskStopPhase::Open,
{
}

/// The process is ended exactly when, waiting for the window, the window
/// is still there at least 5 000 ms after the waiting began, or the window
/// is gone while the process still runs.
pub proof fn lemma_terminate_when_outlived(s: OskStop, window: bool, process: bool, now: u64)
    ensures
        spec_osk_stop_step(s, window, process, now).1 == OskStopAction::Terminate <==> match s.phase {
            OskStopPhase::CloseRequested => !window && process,
            OskStopPhase::Waiting(since) => (window && now >= since + CLOSE_TIMEOUT_MS) || (
            !window && process),
            _ => false,
        },
{
}

/// The state after the first `j` of the observations `obs` (each whether the
/// window exists, whether the process runs, and the clock), from `s`.
pub open spec fn stop_state_after(s: OskStop, obs: Seq<(bool, bool, u64)>, j: nat) -> OskStop
    decreases j,
{
    if j == 0 {
        s
    } else {
        let o = obs[j - 1];
        spec_osk_stop_step(stop_state_after(s, obs, (j - 1) as nat), o.0, o.1, o.2).0
    }
}

/// The action of step `j` of closing from `s`.
pub open spec fn stop_action_at(s: OskStop, obs: Seq<(bool, bool, u64)>, j: nat) -> OskStopAction {
    let o = obs[j as int];
    spec_osk_stop_step(stop_state_after(s, obs, j), o.0, o.1, o.2).1
}

proof fn lemma_closed_stays_closed(s: OskStop, obs: Seq<(bool, bool, u64)>, j: nat, k: nat)
    requires
        stop_state_after(s, obs, j).phase == OskStopPhase::Closed,
        j <= k,
    ensures
        stop_state_after(s, obs, k).phase == OskStopPhase::Closed,
        stop_action_at(s, obs, k) == OskStopAction::Done,
    decreases k - j,
{
    if j < k {
        lemma_closed_stays_closed(s, obs, j + 1, k);
    }
}

/// Closing releases the process handle at most once, however often it is
/// stepped: after the step that releases it, every step does nothing.
pub proof fn lemma_handle_released_once(s: OskStop, obs: Seq<(bool, bool, u64)>, j: nat, k: nat)
    requires
        stop_action_at(s, obs, j) == OskStopAction::CloseHandle,
        j < k,
    ensures
        stop_action_at(s, obs, k) == OskStopAction::Done,
{
    assert(stop_state_after(s, obs, j + 1).phase == OskStopPhase::Closed);
    lemma_closed_stays_closed(s, obs, j + 1, k);
}

} // verus!
