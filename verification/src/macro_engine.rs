//! The macro engine: the ordered list of key actions a configuration stands
//! for, and the decisions of a cancellable run through that list.
use vstd::prelude::*;
use crate::config::{AppConfig, AppConfigView, MacroSlotView, SLOT_COUNT};

verus! {

#[derive(Clone, Debug, PartialEq, Eq)]
pub enum MacroAction {
    ModifierDown(&'static str),
    KeyDown(String),
    Hold(u64),
    KeyUp(String),
    ModifierUp(&'static str),
    Delay(u64),
}

pub enum ActionView {
    ModifierDown(Seq<char>),
    KeyDown(Seq<char>),
    Hold(u64),
    KeyUp(Seq<char>),
    ModifierUp(Seq<char>),
    Delay(u64),
}

impl View for MacroAction {
    type V = ActionView;

    open spec fn view(&self) -> ActionView {
        match self {
            MacroAction::ModifierDown(m) => ActionView::ModifierDown(m@),
            MacroAction::KeyDown(k) => ActionView::KeyDown(k@),
            MacroAction::Hold(ms) => ActionView::Hold(*ms),
            MacroAction::KeyUp(k) => ActionView::KeyUp(k@),
            MacroAction::ModifierUp(m) => ActionView::ModifierUp(m@),
            MacroAction::Delay(ms) => ActionView::Delay(*ms),
        }
    }
}

pub open spec fn actions_view(v: Seq<MacroAction>) -> Seq<ActionView> {
    v.map_values(|a: MacroAction| a@)
}

/// A slot takes part in a run when it is enabled and has a key.
pub open spec fn is_active(s: MacroSlotView) -> bool {
    s.enabled && s.key is Some
}

/// The slots that take part in a run, in slot order.
pub open spec fn active_slots(slots: Seq<MacroSlotView>) -> Seq<MacroSlotView>
    decreases slots.len(),
{
    if slots.len() == 0 {
        Seq::empty()
    } else {
        let r = active_slots(slots.drop_last());
        if is_active(slots.last()) {
            r.push(slots.last())
        } else {
            r
        }
    }
}

pub open spec fn when(b: bool, a: ActionView) -> Seq<ActionView> {
    if b {
        seq![a]
    } else {
        Seq::empty()
    }
}

/// The actions of one active slot: modifiers down (Ctrl before Shift), the
/// key pressed for its press duration and released, modifiers up in reverse
/// order, the release delay, and the slot interval unless it is the last slot.
pub open spec fn slot_actions(s: MacroSlotView, last: bool) -> Seq<ActionView> {
    let k = s.key->0;
    when(k.ctrl, ActionView::ModifierDown("Ctrl"@)) + when(
        k.shift,
        ActionView::ModifierDown("Shift"@),
    ) + seq![
        ActionView::KeyDown(k.label),
        ActionView::Hold(s.press_duration_ms),
        ActionView::KeyUp(k.label),
    ] + when(k.shift, ActionView::ModifierUp("Shift"@)) + when(
        k.ctrl,
        ActionView::ModifierUp("Ctrl"@),
    ) + seq![ActionView::Delay(s.release_delay_ms)] + when(
        !last,
        ActionView::Delay(s.interval_ms),
    )
}

/// The actions of the first `n` of the slots `active`.
pub open spec fn actions_upto(active: Seq<MacroSlotView>, n: nat) -> Seq<ActionView>
    decreases n,
{
    if n == 0 {
        Seq::empty()
    } else {
        actions_upto(active, (n - 1) as nat) + slot_actions(active[n - 1], n == active.len())
    }
}

/// The actions a configuration stands for.
pub open spec fn spec_actions(c: AppConfigView) -> Seq<ActionView> {
    actions_upto(active_slots(c.slots), active_slots(c.slots).len())
}

/// The ordered actions that running `config` performs.
pub fn actions(config: &AppConfig) -> (result: Vec<MacroAction>)
    ensures
        actions_view(result@) == spec_actions(config@),
{
    let ghost slots = config@.slots;
    let mut enabled: Vec<usize> = Vec::new();
    let mut i: usize = 0;
    while i < SLOT_COUNT
        invariant
            i <= SLOT_COUNT,
            slots == config@.slots,
            slots.len() == SLOT_COUNT,
            forall|j: int| 0 <= j < enabled@.len() ==> enabled@[j] < SLOT_COUNT,
            enabled@.map_values(|j: usize| slots[j as int]) == active_slots(slots.take(i as int)),
        decreases SLOT_COUNT - i,
    {
        let s = &config.slots[i];
        let ghost before = enabled@;
        assert(slots.take(i + 1).drop_last() =~= slots.take(i as int));
        assert(s@ == slots[i as int]);
        if s.enabled && s.key.is_some() {
            enabled.push(i);
            assert(enabled@.map_values(|j: usize| slots[j as int]) =~= before.map_values(
                |j: usize| slots[j as int],
            ).push(slots[i as int]));
        }
        i += 1;
    }
    assert(slots.take(SLOT_COUNT as int) =~= slots);
    let ghost active = active_slots(slots);
    let mut result: Vec<MacroAction> = Vec::new();
    let count = enabled.len();
    let mut n: usize = 0;
    while n < count
        invariant
            n <= count == enabled@.len() == active.len(),
            active == active_slots(slots),
            slots == config@.slots,
            slots.len() == SLOT_COUNT,
            forall|j: int| 0 <= j < enabled@.len() ==> enabled@[j] < SLOT_COUNT,
            enabled@.map_values(|j: usize| slots[j as int]) == active,
            actions_view(result@) == actions_upto(active, n as nat),
        decreases count - n,
    {
        let slot = &config.slots[enabled[n]];
        assert(slot@ == active[n as int]);
        let ghost before = actions_view(result@);
        match &slot.key {
            Some(key) => {
                if key.ctrl {
                    result.push(MacroAction::ModifierDown("Ctrl"));
                }
                if key.shift {
                    result.push(MacroAction::ModifierDown("Shift"));
                }
                result.push(MacroAction::KeyDown(key.label.clone()));
                result.push(MacroAction::Hold(slot.press_duration_ms));
                result.push(MacroAction::KeyUp(key.label.clone()));
                if key.shift {
                    result.push(MacroAction::ModifierUp("Shift"));
                }
                if key.ctrl {
                    result.push(MacroAction::ModifierUp("Ctrl"));
                }
                result.push(MacroAction::Delay(slot.release_delay_ms));
                if n + 1 < count {
                    result.push(MacroAction::Delay(slot.interval_ms));
                }
                assert(actions_view(result@) =~= before + slot_actions(
                    active[n as int],
                    n + 1 == active.len(),
                ));
            },
            None => {
                proof {
                    lemma_active_slots_active(slots);
                    assert(is_active(active[n as int]));
                }
                assert(false);
            },
        }
        n += 1;
    }
    result
}

/// Every slot that takes part in a run is active.
pub proof fn lemma_active_slots_active(slots: Seq<MacroSlotView>)
    ensures
        forall|j: int|
            0 <= j < active_slots(slots).len() ==> is_active(#[trigger] active_slots(slots)[j]),
    decreases slots.len(),
{
    if slots.len() > 0 {
        let r = active_slots(slots.drop_last());
        lemma_active_slots_active(slots.drop_last());
        assert forall|j: int| 0 <= j < active_slots(slots).len() implies is_active(
            #[trigger] active_slots(slots)[j],
        ) by {
            if j < r.len() {
                assert(active_slots(slots)[j] == r[j]);
            }
        }
    }
}

// ---------------------------------------------------------------------------
// Running a macro
// ---------------------------------------------------------------------------

/// What the caller has to do next in a run.
#[derive(Debug, PartialEq, Eq)]
pub enum RunCommand {
    /// Carry out this key action; report whether it succeeded.
    Perform(MacroAction),
    /// Wait this many milliseconds unless a stop is requested; report whether
    /// the wait ran to its end.
    Wait(u64),
    /// The run is over: whether it completed.
    Finish(bool),
}

pub enum CommandView {
    Perform(ActionView),
    Wait(u64),
    Finish(bool),
}

impl View for RunCommand {
    type V = CommandView;

    open spec fn view(&self) -> CommandView {
        match self {
            RunCommand::Perform(a) => CommandView::Perform(a@),
            RunCommand::Wait(ms) => CommandView::Wait(*ms),
            RunCommand::Finish(b) => CommandView::Finish(*b),
        }
    }
}

/// The state of a run: the actions, how many of them were handed out, and
/// the outcome once the run is over.
pub struct MacroRunner {
    actions: Vec<MacroAction>,
    position: usize,
    outcome: Option<bool>,
}

pub struct RunnerView {
    pub actions: Seq<ActionView>,
    pub position: nat,
    pub outcome: Option<bool>,
}

impl View for MacroRunner {
    type V = RunnerView;

    closed spec fn view(&self) -> RunnerView {
        RunnerView {
            actions: actions_view(self.actions@),
            position: self.position as nat,
            outcome: self.outcome,
        }
    }
}

/// Holds and delays are waits; every other action is performed.
pub open spec fn command_for(a: ActionView) -> CommandView {
    match a {
        ActionView::Hold(ms) => CommandView::Wait(ms),
        ActionView::Delay(ms) => CommandView::Wait(ms),
        _ => CommandView::Perform(a),
    }
}

/// One decision of a run, given whether the previous command succeeded and
/// whether a stop has been requested. A failure ends the run unsuccessfully;
/// after the last action the run completes; a stop requested before an
/// action ends the run unsuccessfully; otherwise the next action is handed out.
pub open spec fn spec_next(r: RunnerView, succeeded: bool, stop: bool) -> (RunnerView, CommandView) {
    match r.outcome {
        Some(b) => (r, CommandView::Finish(b)),
        None => if !succeeded {
            (RunnerView { outcome: Some(false), ..r }, CommandView::Finish(false))
        } else if r.position >= r.actions.len() {
            (RunnerView { outcome: Some(true), ..r }, CommandView::Finish(true))
        } else if stop {
            (RunnerView { outcome: Some(false), ..r }, CommandView::Finish(false))
        } else {
            (RunnerView { position: r.position + 1, ..r }, command_for(r.actions[r.position as int]))
        },
    }
}

fn copy_action(a: &MacroAction) -> (r: MacroAction)
    ensures
        r@ == a@,
{
    match a {
        MacroAction::ModifierDown(m) => MacroAction::ModifierDown(m),
        MacroAction::KeyDown(k) => MacroAction::KeyDown(k.clone()),
        MacroAction::Hold(ms) => MacroAction::Hold(*ms),
        MacroAction::KeyUp(k) => MacroAction::KeyUp(k.clone()),
        MacroAction::ModifierUp(m) => MacroAction::ModifierUp(m),
        MacroAction::Delay(ms) => MacroAction::Delay(*ms),
    }
}

impl MacroRunner {
    /// A run of the actions of `config`, before its first step.
    pub fn new(config: &AppConfig) -> (r: Self)
        ensures
            r@ == (RunnerView { actions: spec_actions(config@), position: 0, outcome: None }),
    {
        MacroRunner { actions: actions(config), position: 0, outcome: None }
    }

    /// The next command of the run. `succeeded` reports how the previous
    /// command went (pass `true` for the first step); `stop_requested` whether
    /// the user asked the run to stop.
    pub fn next(&mut self, succeeded: bool, stop_requested: bool) -> (cmd: RunCommand)
        ensures
            (final(self)@, cmd@) == spec_next(old(self)@, succeeded, stop_requested),
    {
        match self.outcome {
            Some(b) => RunCommand::Finish(b),
            None => {
                if !succeeded {
                    self.outcome = Some(false);
                    RunCommand::Finish(false)
                } else if self.position >= self.actions.len() {
                    self.outcome = Some(true);
                    RunCommand::Finish(true)
                } else if stop_requested {
                    self.outcome = Some(false);
                    RunCommand::Finish(false)
                } else {
                    let a = copy_action(&self.actions[self.position]);
                    self.position = self.position + 1;
                    match a {
                        MacroAction::Hold(ms) => RunCommand::Wait(ms),
                        MacroAction::Delay(ms) => RunCommand::Wait(ms),
                        other => RunCommand::Perform(other),
                    }
                }
            },
        }
    }
}

/// The commands of `steps` decisions when every command succeeds and no stop
/// is requested.
pub open spec fn commands_without_failure(r: RunnerView, steps: nat) -> Seq<CommandView>
    decreases steps,
{
    if steps == 0 {
        Seq::empty()
    } else {
        let (r2, c) = spec_next(r, true, false);
        seq![c] + commands_without_failure(r2, (steps - 1) as nat)
    }
}

/// A run in which every command succeeds and no stop is requested hands out
/// every action once, in order (holds and delays as waits), then completes.
pub proof fn lemma_run_without_failure(actions: Seq<ActionView>)
    ensures
        commands_without_failure(
            RunnerView { actions: actions, position: 0, outcome: None },
            actions.len() + 1,
        ) == actions.map_values(|a: ActionView| command_for(a)).push(CommandView::Finish(true)),
{
    lemma_run_from(actions, 0);
    assert(actions.skip(0) =~= actions);
}

proof fn lemma_run_from(actions: Seq<ActionView>, p: nat)
    requires
        p <= actions.len(),
    ensures
        commands_without_failure(
            RunnerView { actions: actions, position: p, outcome: None },
            (actions.len() - p + 1) as nat,
        ) == actions.skip(p as int).map_values(|a: ActionView| command_for(a)).push(
            CommandView::Finish(true),
        ),
    decreases actions.len() - p,
{
    let r = RunnerView { actions: actions, position: p, outcome: None };
    if p == actions.len() {
        let (r2, c) = spec_next(r, true, false);
        assert(commands_without_failure(r2, 0) == Seq::<CommandView>::empty());
        assert(actions.skip(p as int).map_values(|a: ActionView| command_for(a)) =~= Seq::<
            CommandView,
        >::empty());
        assert(commands_without_failure(r, 1) =~= seq![CommandView::Finish(true)]);
    } else {
        lemma_run_from(actions, p + 1);
        let tail = actions.skip(p + 1int).map_values(|a: ActionView| command_for(a));
        assert(actions.skip(p as int).map_values(|a: ActionView| command_for(a)) =~= seq![
            command_for(actions[p as int]),
        ] + tail);
        assert(commands_without_failure(r, (actions.len() - p + 1) as nat) =~= seq![
            command_for(actions[p as int]),
        ] + tail.push(CommandView::Finish(true)));
    }
}

/// Once a run is over, every further decision reports the same outcome and
/// changes nothing.
pub proof fn lemma_finished_run_stays_finished(r: RunnerView, succeeded: bool, stop: bool)
    requires
        r.outcome is Some,
    ensures
        spec_next(r, succeeded, stop) == (r, CommandView::Finish(r.outcome->0)),
{
}

/// A stop requested before an action ends the run without that action: the
/// run completes only if no action was left.
pub proof fn lemma_stop_performs_nothing(r: RunnerView)
    requires
        r.outcome is None,
    ensures
        spec_next(r, true, true).1 == CommandView::Finish(r.position >= r.actions.len()),
{
}

/// The On-Screen Keyboard key that an action invokes: modifiers and key
/// presses invoke the key they name; a UI Automation invoke is a whole key
/// press, so key releases, holds and delays invoke nothing.
pub open spec fn spec_invoke_target(a: ActionView) -> Option<Seq<char>> {
    match a {
        ActionView::ModifierDown(m) => Some(m),
        ActionView::ModifierUp(m) => Some(m),
        ActionView::KeyDown(k) => Some(k),
        _ => None,
    }
}

/// The On-Screen Keyboard key that `action` invokes, if any.
pub fn invoke_target(action: &MacroAction) -> (r: Option<&str>)
    ensures
        match r {
            Some(s) => spec_invoke_target(action@) == Some(s@),
            None => spec_invoke_target(action@) is None,
        },
{
    match action {
        MacroAction::ModifierDown(m) => Some(*m),
        MacroAction::ModifierUp(m) => Some(*m),
        MacroAction::KeyDown(k) => Some(k.as_str()),
        _ => None,
    }
}

// ---------------------------------------------------------------------------
// What the actions of a run press and release
// ---------------------------------------------------------------------------

/// The keys that the actions `a` invoke on the On-Screen Keyboard, in order.
pub open spec fn invoked_keys(a: Seq<ActionView>) -> Seq<Seq<char>>
    decreases a.len(),
{
    if a.len() == 0 {
        Seq::empty()
    } else {
        let r = invoked_keys(a.drop_last());
        match spec_invoke_target(a.last()) {
            Some(k) => r.push(k),
            None => r,
        }
    }
}

pub open spec fn key_if(b: bool, k: Seq<char>) -> Seq<Seq<char>> {
    if b {
        seq![k]
    } else {
        Seq::empty()
    }
}

/// The keys one active slot's turn invokes: Ctrl and Shift toggled on as
/// it has them, its key once, then Shift and Ctrl toggled off again.
pub open spec fn slot_keys(s: MacroSlotView) -> Seq<Seq<char>> {
    let k = s.key->0;
    key_if(k.ctrl, "Ctrl"@) + key_if(k.shift, "Shift"@) + seq![k.label] + key_if(
        k.shift,
        "Shift"@,
    ) + key_if(k.ctrl, "Ctrl"@)
}

/// The keys the turns of the first `n` of the slots `active` invoke.
pub open spec fn keys_upto(active: Seq<MacroSlotView>, n: nat) -> Seq<Seq<char>>
    decreases n,
{
    if n == 0 {
        Seq::empty()
    } else {
        keys_upto(active, (n - 1) as nat) + slot_keys(active[n - 1])
    }
}

/// Releasing a key, holding it and waiting invoke nothing; pressing a key
/// or a modifier, and releasing a modifier, invoke that key.
pub proof fn lemma_only_presses_invoke(a: ActionView)
    ensures
        (a is KeyUp || a is Hold || a is Delay) ==> spec_invoke_target(a) is None,
        a matches ActionView::KeyDown(k) ==> spec_invoke_target(a) == Some(k),
        a matches ActionView::ModifierDown(m) ==> spec_invoke_target(a) == Some(m),
        a matches ActionView::ModifierUp(m) ==> spec_invoke_target(a) == Some(m),
{
}

proof fn lemma_invoked_keys_add(x: Seq<ActionView>, y: Seq<ActionView>)
    ensures
        invoked_keys(x + y) == invoked_keys(x) + invoked_keys(y),
    decreases y.len(),
{
    if y.len() == 0 {
        assert(x + y =~= x);
        assert(invoked_keys(x) + Seq::<Seq<char>>::empty() =~= invoked_keys(x));
    } else {
        lemma_invoked_keys_add(x, y.drop_last());
        assert((x + y).drop_last() =~= x + y.drop_last());
        assert((x + y).last() == y.last());
        match spec_invoke_target(y.last()) {
            Some(k) => {
                assert(invoked_keys(x) + invoked_keys(y) =~= (invoked_keys(x) + invoked_keys(
                    y.drop_last(),
                )).push(k));
            },
            None => {},
        }
    }
}

proof fn lemma_invoked_keys_one(a: ActionView)
    ensures
        invoked_keys(seq![a]) == match spec_invoke_target(a) {
            Some(k) => seq![k],
            None => Seq::<Seq<char>>::empty(),
        },
{
    let e = Seq::<ActionView>::empty();
    assert(seq![a].drop_last() =~= e);
    assert(seq![a].last() == a);
    assert(invoked_keys(e) == Seq::<Seq<char>>::empty());
    assert(invoked_keys(seq![a]) == match spec_invoke_target(a) {
        Some(k) => invoked_keys(e).push(k),
        None => invoked_keys(e),
    });
    assert(Seq::<Seq<char>>::empty().push(spec_invoke_target(a)->0) =~= seq![
        spec_invoke_target(a)->0,
    ]);
}

proof fn lemma_invoked_keys_when(b: bool, a: ActionView)
    ensures
        invoked_keys(when(b, a)) == if b {
            match spec_invoke_target(a) {
                Some(k) => seq![k],
                None => Seq::<Seq<char>>::empty(),
            }
        } else {
            Seq::<Seq<char>>::empty()
        },
{
    lemma_invoked_keys_one(a);
}

/// The turn of an active slot invokes, in order, Ctrl and Shift as the slot
/// has them, its key exactly once, then Shift and Ctrl again to release
/// them; its hold, release and delays invoke nothing.
pub proof fn lemma_slot_turn_invokes(s: MacroSlotView, last: bool)
    requires
        is_active(s),
    ensures
        invoked_keys(slot_actions(s, last)) == slot_keys(s),
{
    let k = s.key->0;
    let a1 = when(k.ctrl, ActionView::ModifierDown("Ctrl"@));
    let a2 = when(k.shift, ActionView::ModifierDown("Shift"@));
    let a3 = seq![
        ActionView::KeyDown(k.label),
        ActionView::Hold(s.press_duration_ms),
        ActionView::KeyUp(k.label),
    ];
    let a4 = when(k.shift, ActionView::ModifierUp("Shift"@));
    let a5 = when(k.ctrl, ActionView::ModifierUp("Ctrl"@));
    let a6 = seq![ActionView::Delay(s.release_delay_ms)];
    let a7 = when(!last, ActionView::Delay(s.interval_ms));
    assert(slot_actions(s, last) == a1 + a2 + a3 + a4 + a5 + a6 + a7);
    lemma_invoked_keys_add(a1 + a2 + a3 + a4 + a5 + a6, a7);
    lemma_invoked_keys_add(a1 + a2 + a3 + a4 + a5, a6);
    lemma_invoked_keys_add(a1 + a2 + a3 + a4, a5);
    lemma_invoked_keys_add(a1 + a2 + a3, a4);
    lemma_invoked_keys_add(a1 + a2, a3);
    lemma_invoked_keys_add(a1, a2);
    lemma_invoked_keys_when(k.ctrl, ActionView::ModifierDown("Ctrl"@));
    lemma_invoked_keys_when(k.shift, ActionView::ModifierDown("Shift"@));
    lemma_invoked_keys_when(k.shift, ActionView::ModifierUp("Shift"@));
    lemma_invoked_keys_when(k.ctrl, ActionView::ModifierUp("Ctrl"@));
    lemma_invoked_keys_when(!last, ActionView::Delay(s.interval_ms));
    lemma_invoked_keys_one(ActionView::Delay(s.release_delay_ms));
    let b = seq![ActionView::KeyDown(k.label), ActionView::Hold(s.press_duration_ms)];
    lemma_invoked_keys_add(b, seq![ActionView::KeyUp(k.label)]);
    lemma_invoked_keys_add(seq![ActionView::KeyDown(k.label)], seq![ActionView::Hold(s.press_duration_ms)]);
    lemma_invoked_keys_one(ActionView::KeyDown(k.label));
    lemma_invoked_keys_one(ActionView::Hold(s.press_duration_ms));
    lemma_invoked_keys_one(ActionView::KeyUp(k.label));
    assert(b + seq![ActionView::KeyUp(k.label)] =~= a3);
    assert(seq![ActionView::KeyDown(k.label)] + seq![ActionView::Hold(s.press_duration_ms)] =~= b);
    assert(invoked_keys(a3) =~= seq![k.label]);
    assert(invoked_keys(slot_actions(s, last)) =~= slot_keys(s));
}

/// A run of a configuration invokes, slot after active slot, the keys of
/// each slot's turn: every active slot's key exactly once, each modifier it
/// presses released again.
pub proof fn lemma_run_invokes(c: AppConfigView)
    ensures
        invoked_keys(spec_actions(c)) == keys_upto(active_slots(c.slots), active_slots(c.slots).len()),
{
    lemma_active_slots_active(c.slots);
    lemma_actions_invoke_upto(active_slots(c.slots), active_slots(c.slots).len());
}

proof fn lemma_actions_invoke_upto(active: Seq<MacroSlotView>, n: nat)
    requires
        n <= active.len(),
        forall|j: int| 0 <= j < active.len() ==> is_active(#[trigger] active[j]),
    ensures
        invoked_keys(actions_upto(active, n)) == keys_upto(active, n),
    decreases n,
{
    if n > 0 {
        lemma_actions_invoke_upto(active, (n - 1) as nat);
        lemma_invoked_keys_add(
            actions_upto(active, (n - 1) as nat),
            slot_actions(active[n - 1], n == active.len()),
        );
        lemma_slot_turn_invokes(active[n - 1], n == active.len());
    }
}

proof fn lemma_contains_add(p: Seq<ActionView>, q: Seq<ActionView>, a: ActionView)
    ensures
        (p + q).contains(a) <==> p.contains(a) || q.contains(a),
{
    if (p + q).contains(a) {
        let i = choose|i: int| 0 <= i < (p + q).len() && (p + q)[i] == a;
        if i < p.len() {
            assert(p[i] == a);
        } else {
            assert(q[i - p.len()] == a);
        }
    }
    if p.contains(a) {
        let i = choose|i: int| 0 <= i < p.len() && p[i] == a;
        assert((p + q)[i] == a);
    }
    if q.contains(a) {
        let i = choose|i: int| 0 <= i < q.len() && q[i] == a;
        assert((p + q)[i + p.len()] == a);
    }
}

proof fn lemma_contains_when(b: bool, x: ActionView, a: ActionView)
    ensures
        (when(b, x).contains(a) <==> b && x == a),
{
    if b {
        assert(seq![x][0] == x);
    }
}

/// An active slot's turn presses a modifier exactly when its key has it and
/// releases it exactly when it pressed it, for Ctrl and Shift each, whatever
/// the other modifier is.
pub proof fn lemma_slot_turn_releases_its_modifiers(s: MacroSlotView, last: bool)
    requires
        is_active(s),
    ensures
        slot_actions(s, last).contains(ActionView::ModifierDown("Ctrl"@)) <==> s.key->0.ctrl,
        slot_actions(s, last).contains(ActionView::ModifierUp("Ctrl"@)) <==> s.key->0.ctrl,
        slot_actions(s, last).contains(ActionView::ModifierDown("Shift"@)) <==> s.key->0.shift,
        slot_actions(s, last).contains(ActionView::ModifierUp("Shift"@)) <==> s.key->0.shift,
{
    reveal_strlit("Ctrl");
    reveal_strlit("Shift");
    assert("Ctrl"@.len() != "Shift"@.len());
    let k = s.key->0;
    let a1 = when(k.ctrl, ActionView::ModifierDown("Ctrl"@));
    let a2 = when(k.shift, ActionView::ModifierDown("Shift"@));
    let a3 = seq![
        ActionView::KeyDown(k.label),
        ActionView::Hold(s.press_duration_ms),
        ActionView::KeyUp(k.label),
    ];
    let a4 = when(k.shift, ActionView::ModifierUp("Shift"@));
    let a5 = when(k.ctrl, ActionView::ModifierUp("Ctrl"@));
    let a6 = seq![ActionView::Delay(s.release_delay_ms)];
    let a7 = when(!last, ActionView::Delay(s.interval_ms));
    assert(slot_actions(s, last) == a1 + a2 + a3 + a4 + a5 + a6 + a7);
    let ms = seq![
        ActionView::ModifierDown("Ctrl"@),
        ActionView::ModifierUp("Ctrl"@),
        ActionView::ModifierDown("Shift"@),
        ActionView::ModifierUp("Shift"@),
    ];
    assert forall|j: int| 0 <= j < 4 implies (slot_actions(s, last).contains(#[trigger] ms[j])
        <==> (if j < 2 {
        k.ctrl
    } else {
        k.shift
    })) by {
        let m = ms[j];
        lemma_contains_add(a1 + a2 + a3 + a4 + a5 + a6, a7, m);
        lemma_contains_add(a1 + a2 + a3 + a4 + a5, a6, m);
        lemma_contains_add(a1 + a2 + a3 + a4, a5, m);
        lemma_contains_add(a1 + a2 + a3, a4, m);
        lemma_contains_add(a1 + a2, a3, m);
        lemma_contains_add(a1, a2, m);
        lemma_contains_when(k.ctrl, ActionView::ModifierDown("Ctrl"@), m);
        lemma_contains_when(k.shift, ActionView::ModifierDown("Shift"@), m);
        lemma_contains_when(k.shift, ActionView::ModifierUp("Shift"@), m);
        lemma_contains_when(k.ctrl, ActionView::ModifierUp("Ctrl"@), m);
        lemma_contains_when(!last, ActionView::Delay(s.interval_ms), m);
        assert(!a3.contains(m)) by {
            assert forall|i: int| 0 <= i < 3 implies a3[i] != m by {}
        }
        assert(!a6.contains(m)) by {
            assert(a6[0] != m);
        }
    }
    assert(slot_actions(s, last).contains(ms[0]) <==> k.ctrl);
    assert(slot_actions(s, last).contains(ms[1]) <==> k.ctrl);
    assert(slot_actions(s, last).contains(ms[2]) <==> k.shift);
    assert(slot_actions(s, last).contains(ms[3]) <==> k.shift);
}

/// A configuration without an enabled slot that has a key stands for no
/// action at all, and a run of it completes at its first step.
pub proof fn lemma_no_active_slot_no_action(c: AppConfigView, stop: bool)
    requires
        active_slots(c.slots).len() == 0,
    ensures
        spec_actions(c) == Seq::<ActionView>::empty(),
        spec_next(
            RunnerView { actions: spec_actions(c), position: 0, outcome: None },
            true,
            stop,
        ).1 == CommandView::Finish(true),
{
}

// ---------------------------------------------------------------------------
// Waiting
// ---------------------------------------------------------------------------

/// The longest single sleep of a wait, so that a stop request is seen soon.
pub const WAIT_SLICE_MS: u64 = 5;

/// What a wait does next.
#[derive(Clone, Copy, Debug, PartialEq, Eq)]
pub enum WaitStep {
    /// Sleep this many milliseconds, then step again with that much less left.
    Sleep(u64),
    /// The wait is over: whether it ran to its end.
    Done(bool),
}

pub open spec fn spec_wait_step(left_ms: u64, stop_requested: bool) -> WaitStep {
    if left_ms == 0 {
        WaitStep::Done(true)
    } else if stop_requested {
        WaitStep::Done(false)
    } else if left_ms < WAIT_SLICE_MS {
        WaitStep::Sleep(left_ms)
    } else {
        WaitStep::Sleep(WAIT_SLICE_MS)
    }
}

/// One step of a wait with `left_ms` milliseconds left: a wait with nothing
/// left has run to its end; otherwise a stop request ends it early, and
/// else it sleeps at most `WAIT_SLICE_MS`.
pub fn wait_step(left_ms: u64, stop_requested: bool) -> (s: WaitStep)
    ensures
        s == spec_wait_step(left_ms, stop_requested),
{
    if left_ms == 0 {
        WaitStep::Done(true)
    } else if stop_requested {
        WaitStep::Done(false)
    } else if left_ms < WAIT_SLICE_MS {
        WaitStep::Sleep(left_ms)
    } else {
        WaitStep::Sleep(WAIT_SLICE_MS)
    }
}

/// The sleeps of a wait of `left` milliseconds that no stop interrupts.
pub open spec fn wait_sleeps(left: u64) -> Seq<u64>
    decreases left,
{
    match spec_wait_step(left, false) {
        WaitStep::Sleep(ms) => if 0 < ms <= left {
            seq![ms] + wait_sleeps((left - ms) as u64)
        } else {
            Seq::empty()
        },
        WaitStep::Done(_) => Seq::empty(),
    }
}

pub open spec fn total(s: Seq<u64>) -> int
    decreases s.len(),
{
    if s.len() == 0 {
        0
    } else {
        s[0] + total(s.drop_first())
    }
}

/// A wait that no stop interrupts sleeps, in slices of at most
/// `WAIT_SLICE_MS`, exactly as long as asked, and then runs to its end.
pub proof fn lemma_wait_sleeps(left: u64)
    ensures
        total(wait_sleeps(left)) == left,
        forall|k: int|
            0 <= k < wait_sleeps(left).len() ==> 0 < #[trigger] wait_sleeps(left)[k]
                <= WAIT_SLICE_MS,
    decreases left,
{
    if left > 0 {
        let ms: u64 = if left < WAIT_SLICE_MS {
            left
        } else {
            WAIT_SLICE_MS
        };
        let rest = (left - ms) as u64;
        lemma_wait_sleeps(rest);
        let s = wait_sleeps(left);
        assert(s == seq![ms] + wait_sleeps(rest));
        assert(s.drop_first() =~= wait_sleeps(rest));
        assert forall|k: int| 0 <= k < s.len() implies 0 < #[trigger] s[k] <= WAIT_SLICE_MS by {
            if k > 0 {
                assert(s[k] == wait_sleeps(rest)[k - 1]);
            }
        }
    }
}

// ---------------------------------------------------------------------------
// A whole run
// ---------------------------------------------------------------------------

/// A run of `actions` before its first step.
pub open spec fn run_start(actions: Seq<ActionView>) -> RunnerView {
    RunnerView { actions: actions, position: 0, outcome: None }
}

/// The state after the first `j` steps of a run from `r`, where step `i` is
/// told `events[i]`: whether the previous command succeeded, and whether a
/// stop was requested.
pub open spec fn state_after(r: RunnerView, events: Seq<(bool, bool)>, j: nat) -> RunnerView
    decreases j,
{
    if j == 0 {
        r
    } else {
        let e = events[j - 1];
        spec_next(state_after(r, events, (j - 1) as nat), e.0, e.1).0
    }
}

/// The command of step `j` of a run from `r`.
pub open spec fn command_at(r: RunnerView, events: Seq<(bool, bool)>, j: nat) -> CommandView {
    let e = events[j as int];
    spec_next(state_after(r, events, j), e.0, e.1).1
}

/// Step `i` lets the run go on: the previous command succeeded, no stop was
/// requested, and an action is left.
pub open spec fn continues(actions: Seq<ActionView>, events: Seq<(bool, bool)>, i: int) -> bool {
    events[i].0 && !events[i].1 && i < actions.len()
}

/// Ends a run at step `f` with a failure, a stop, or no action left.
pub open spec fn run_ends_at(actions: Seq<ActionView>, events: Seq<(bool, bool)>, f: nat) -> bool {
    &&& forall|i: int| 0 <= i < f ==> #[trigger] continues(actions, events, i)
    &&& !continues(actions, events, f as int)
}

/// While every earlier step let the run go on, step `j` hands out action `j`
/// (holds and delays as waits), or finishes: unsuccessfully on a failure or a
/// stop request, successfully when no action is left.
pub proof fn lemma_run_prefix(actions: Seq<ActionView>, events: Seq<(bool, bool)>, j: nat)
    requires
        forall|i: int| 0 <= i < j ==> #[trigger] continues(actions, events, i),
    ensures
        j <= actions.len(),
        state_after(run_start(actions), events, j) == (RunnerView {
            actions: actions,
            position: j,
            outcome: None,
        }),
        command_at(run_start(actions), events, j) == (if !events[j as int].0 {
            CommandView::Finish(false)
        } else if j == actions.len() {
            CommandView::Finish(true)
        } else if events[j as int].1 {
            CommandView::Finish(false)
        } else {
            command_for(actions[j as int])
        }),
    decreases j,
{
    if j > 0 {
        lemma_run_prefix(actions, events, (j - 1) as nat);
        assert(continues(actions, events, j - 1));
    }
}

/// The commands that a run hands out before it ends at step `f` are the
/// first `f` actions in order, each once; the step that ends it reports
/// success exactly when every action was handed out, each succeeded, and no
/// stop came before the end.
pub proof fn lemma_run_commands(actions: Seq<ActionView>, events: Seq<(bool, bool)>, f: nat)
    requires
        run_ends_at(actions, events, f),
    ensures
        f <= actions.len(),
        Seq::new(f, |i: int| command_at(run_start(actions), events, i as nat)) == actions.take(
            f as int,
        ).map_values(|a: ActionView| command_for(a)),
        command_at(run_start(actions), events, f) == CommandView::Finish(
            events[f as int].0 && f == actions.len(),
        ),
{
    lemma_run_prefix(actions, events, f);
    assert forall|i: int| 0 <= i < f implies command_at(run_start(actions), events, i as nat)
        == command_for(actions[i]) by {
        lemma_run_prefix(actions, events, i as nat);
        assert(continues(actions, events, i));
    }
    assert(Seq::new(f, |i: int| command_at(run_start(actions), events, i as nat)) =~= actions.take(
        f as int,
    ).map_values(|a: ActionView| command_for(a)));
}

/// After a step that finishes a run with outcome `b`, the run's state holds `b`.
proof fn lemma_finish_sets_outcome(r: RunnerView, events: Seq<(bool, bool)>, j: nat)
    requires
        command_at(r, events, j) is Finish,
    ensures
        state_after(r, events, j + 1).outcome == Some(command_at(r, events, j)->Finish_0),
{
    assert(state_after(r, events, j + 1) == spec_next(
        state_after(r, events, j),
        events[j as int].0,
        events[j as int].1,
    ).0);
}

/// Once a step finishes a run, every later step finishes it with the same
/// outcome: no further action is handed out.
pub proof fn lemma_run_stays_finished(r: RunnerView, events: Seq<(bool, bool)>, j: nat, k: nat)
    requires
        command_at(r, events, j) is Finish,
        j <= k,
    ensures
        command_at(r, events, k) == command_at(r, events, j),
    decreases k - j,
{
    if j < k {
        lemma_finish_sets_outcome(r, events, j);
        lemma_run_stays_finished(r, events, j + 1, k);
    }
}

} // verus!
