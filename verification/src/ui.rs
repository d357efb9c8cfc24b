//! The desktop bar's rules: how a slot's key and interval are shown in its
//! edit boxes and read back from them, what a captured key press becomes,
//! and what a control notification asks for.
use vstd::prelude::*;
use crate::config::{
    set_enabled, set_interval, set_key, AppConfig, AppConfigView, InputMode, KeyBinding,
    KeyBindingView, MacroSlotView, SLOT_COUNT,
};
use crate::key_binding::{
    is_ctrl_word, is_shift_word, join_plus, lemma_join_split, lemma_split_plus_concat, split_plus,
    strip_modifier_parts, strip_modifiers,
};
use crate::macro_engine::active_slots;
use crate::text::{
    ascii_lower, chars_of, is_space, lemma_to_decimal, lemma_trim_ends, parse_unsigned,
    parse_unsigned_span, push_char, push_decimal, span_is, string_of, to_decimal, trim,
    trim_bounds, trim_end, trim_start, trimmed,
};

verus! {

broadcast use vstd::string::group_string_axioms;

// ---------------------------------------------------------------------------
// Key bindings in the slot edit boxes
// ---------------------------------------------------------------------------

/// The binding that the text of a slot's key box stands for: leading
/// `Ctrl`/`Control`/`Shift` parts are modifiers, the rest is the label
/// (the whole trimmed text when nothing is left).
pub open spec fn spec_parse_binding(value: Seq<char>) -> KeyBindingView {
    let (rest, c, s) = strip_modifiers(split_plus(value), false, false);
    let label = join_plus(rest);
    KeyBindingView {
        label: if label.len() == 0 {
            trim(value)
        } else {
            label
        },
        ctrl: c,
        shift: s,
    }
}

/// How a binding is shown: `Ctrl+`, then `Shift+`, then the label.
pub open spec fn spec_display(b: KeyBindingView) -> Seq<char> {
    (if b.ctrl {
        "Ctrl+"@
    } else {
        Seq::empty()
    }) + (if b.shift {
        "Shift+"@
    } else {
        Seq::empty()
    }) + b.label
}

/// The texts a key box shows when it holds no binding.
pub open spec fn is_placeholder(t: Seq<char>) -> bool {
    t.len() == 0 || t == "Set"@ || t == "Press"@ || t == "Press..."@
}

/// The key a slot's key box stands for.
pub open spec fn spec_key_from_text(t: Seq<char>) -> Option<KeyBindingView> {
    if is_placeholder(t) {
        None
    } else {
        Some(spec_parse_binding(t))
    }
}

/// What a slot's key box shows for `key`.
pub open spec fn spec_key_text(key: Option<KeyBindingView>) -> Seq<char> {
    match key {
        Some(b) => spec_display(b),
        None => "Set"@,
    }
}

/// The interval a slot's interval box stands for; text that is no number
/// stands for the default of one second.
pub open spec fn spec_interval_from_text(t: Seq<char>) -> u64 {
    match parse_unsigned(t, u64::MAX as nat) {
        Some(n) => n as u64,
        None => 1000,
    }
}

/// A binding that its shown text reads back as: a label that is not empty
/// and does not start with a modifier word.
pub open spec fn displayable(b: KeyBindingView) -> bool {
    &&& b.label.len() > 0
    &&& !is_ctrl_word(split_plus(b.label)[0])
    &&& !is_shift_word(split_plus(b.label)[0])
}

/// The binding that the text of a slot's key box stands for.
pub fn parse_binding(value: &str) -> (b: KeyBinding)
    ensures
        b@ == spec_parse_binding(value@),
{
    let v = chars_of(value);
    let n = v.len();
    assert(v@.subrange(0, n as int) =~= value@);
    let (start, c, s) = strip_modifier_parts(&v, 0, n, false, false);
    let label = match start {
        Some(p) => {
            proof {
                lemma_join_split(v@.subrange(p as int, n as int));
            }
            string_of(&v, p, n)
        },
        None => String::new(),
    };
    if label.as_str().is_empty() {
        let (a, b) = trim_bounds(&v, 0, n);
        KeyBinding { label: string_of(&v, a, b), ctrl: c, shift: s }
    } else {
        KeyBinding { label, ctrl: c, shift: s }
    }
}

/// How `binding` is shown in a key box.
pub fn binding_display(binding: &KeyBinding) -> (s: String)
    ensures
        s@ == spec_display(binding@),
{
    let mut s = String::new();
    if binding.ctrl {
        s.append("Ctrl+");
    }
    if binding.shift {
        s.append("Shift+");
    }
    s.append(binding.label.as_str());
    assert(s@ =~= spec_display(binding@));
    s
}

/// What a slot's key box shows for `key`.
pub fn key_text(key: &Option<KeyBinding>) -> (s: String)
    ensures
        s@ == spec_key_text(crate::config::key_view(*key)),
{
    match key {
        Some(b) => binding_display(b),
        None => String::from_str("Set"),
    }
}

/// The key that the text of a slot's key box stands for.
pub fn key_from_text(text: &str) -> (k: Option<KeyBinding>)
    ensures
        crate::config::key_view(k) == spec_key_from_text(text@),
{
    let v = chars_of(text);
    let n = v.len();
    assert(v@.subrange(0, n as int) =~= text@);
    if n == 0 || span_is(&v, 0, n, "Set") || span_is(&v, 0, n, "Press") || span_is(
        &v,
        0,
        n,
        "Press...",
    ) {
        None
    } else {
        Some(parse_binding(text))
    }
}

/// The interval that the text of a slot's interval box stands for.
pub fn interval_from_text(text: &str) -> (ms: u64)
    ensures
        ms == spec_interval_from_text(text@),
{
    let v = chars_of(text);
    assert(v@.subrange(0, v@.len() as int) =~= text@);
    match parse_unsigned_span(&v, 0, v.len(), u64::MAX) {
        Some(n) => n,
        None => 1000,
    }
}

/// What an interval box shows for `ms`.
pub fn interval_text(ms: u64) -> (s: String)
    ensures
        s@ == to_decimal(ms as nat),
{
    let mut s = String::new();
    push_decimal(&mut s, ms);
    assert(s@ =~= to_decimal(ms as nat));
    s
}

proof fn lemma_modifier_literals()
    ensures
        "Ctrl+"@ == "Ctrl"@ + seq!['+'],
        "Shift+"@ == "Shift"@ + seq!['+'],
        is_ctrl_word("Ctrl"@),
        !is_shift_word("Ctrl"@),
        !is_ctrl_word("Shift"@),
        is_shift_word("Shift"@),
        forall|i: int| 0 <= i < "Ctrl"@.len() ==> "Ctrl"@[i] != '+',
        forall|i: int| 0 <= i < "Shift"@.len() ==> "Shift"@[i] != '+',
{
    reveal_strlit("Ctrl+");
    reveal_strlit("Shift+");
    reveal_strlit("Ctrl");
    reveal_strlit("Shift");
    reveal_strlit("ctrl");
    reveal_strlit("control");
    reveal_strlit("shift");
    assert("Ctrl+"@ =~= "Ctrl"@ + seq!['+']);
    assert("Shift+"@ =~= "Shift"@ + seq!['+']);
    let c = "Ctrl"@;
    let s = "Shift"@;
    assert(trim_start(c) == c);
    assert(trim_end(c) == c);
    assert(trim_start(s) == s);
    assert(trim_end(s) == s);
    assert(ascii_lower(trim(c)) =~= "ctrl"@);
    assert(ascii_lower(trim(s)) =~= "shift"@);
}

/// A shown binding reads back as the binding, when its label is not empty
/// and does not start with a modifier word.
pub proof fn lemma_display_parse_round_trip(b: KeyBindingView)
    requires
        displayable(b),
    ensures
        spec_parse_binding(spec_display(b)) == b,
{
    lemma_modifier_literals();
    let l = b.label;
    lemma_join_split(l);
    crate::key_binding::lemma_split_plus_step(l);
    let sl = split_plus(l);
    assert(strip_modifiers(sl, b.ctrl, b.shift) == (sl, b.ctrl, b.shift));
    let shifted = if b.shift {
        "Shift"@ + seq!['+'] + l
    } else {
        l
    };
    if b.shift {
        lemma_split_plus_concat("Shift"@, l);
        let parts = split_plus(shifted);
        assert(parts.drop_first() =~= sl);
        assert(strip_modifiers(parts, b.ctrl, false) == strip_modifiers(sl, b.ctrl, true));
    }
    assert(strip_modifiers(split_plus(shifted), b.ctrl, false) == (sl, b.ctrl, b.shift));
    if b.ctrl {
        lemma_split_plus_concat("Ctrl"@, shifted);
        let parts = split_plus("Ctrl"@ + seq!['+'] + shifted);
        assert(parts.drop_first() =~= split_plus(shifted));
        assert(spec_display(b) =~= "Ctrl"@ + seq!['+'] + shifted);
        assert(strip_modifiers(parts, false, false) == strip_modifiers(split_plus(shifted), true, false));
    } else {
        assert(spec_display(b) =~= shifted);
    }
}

/// The key box reads leading `Shift` and `Ctrl` parts as modifiers in
/// either order: `Shift+Ctrl+<l>` and `Ctrl+Shift+<l>` both give the label
/// `l` with Ctrl and Shift on, for a non-empty label without `+` that is no
/// modifier word.
pub proof fn lemma_modifiers_in_any_order(l: Seq<char>)
    requires
        l.len() > 0,
        !crate::text::has_char(l, '+'),
        !is_ctrl_word(l),
        !is_shift_word(l),
    ensures
        spec_parse_binding("Shift"@ + seq!['+'] + "Ctrl"@ + seq!['+'] + l) == (KeyBindingView {
            label: l,
            ctrl: true,
            shift: true,
        }),
        spec_parse_binding("Ctrl"@ + seq!['+'] + "Shift"@ + seq!['+'] + l) == (KeyBindingView {
            label: l,
            ctrl: true,
            shift: true,
        }),
{
    crate::key_binding::lemma_modifiers_in_any_order(l, false, false);
}

/// A slot's key shown in its key box reads back as that key, when the key
/// is absent or displayable and not shown as a placeholder text.
pub proof fn lemma_key_text_round_trip(key: Option<KeyBindingView>)
    requires
        key matches Some(b) ==> displayable(b) && !is_placeholder(spec_display(b)),
    ensures
        spec_key_from_text(spec_key_text(key)) == key,
{
    reveal_strlit("Set");
    match key {
        Some(b) => {
            lemma_display_parse_round_trip(b);
        },
        None => {},
    }
}

/// A slot's interval shown in its interval box reads back as that interval.
pub proof fn lemma_interval_text_round_trip(ms: u64)
    ensures
        spec_interval_from_text(to_decimal(ms as nat)) == ms,
{
    crate::text::lemma_parse_to_decimal(ms as nat, u64::MAX as nat);
}

// ---------------------------------------------------------------------------
// Capturing a key press
// ---------------------------------------------------------------------------

/// `char::to_ascii_uppercase`.
pub open spec fn upper_char(c: char) -> char {
    if 'a' <= c && c <= 'z' {
        ((c as u32) - 32) as char
    } else {
        c
    }
}

/// The label of the virtual key `vk`: names for Space and Enter, `F1` to
/// `F12` for the function keys, the upper-cased character for the other
/// codes below 256, and `VK<code>` above.
pub open spec fn spec_key_label(vk: u32) -> Seq<char> {
    if vk == 0x20 {
        "Space"@
    } else if vk == 0x0D {
        "Enter"@
    } else if vk == 0x1B {
        "Press"@
    } else if 0x70 <= vk && vk <= 0x7B {
        seq!['F'] + to_decimal((vk - 0x6F) as nat)
    } else if vk < 256 {
        seq![upper_char(vk as char)]
    } else {
        "VK"@ + to_decimal(vk as nat)
    }
}

/// What pressing the virtual key `vk` in a key box sets the slot's key to:
/// Escape clears it, any other key binds it with the modifiers held down.
pub open spec fn spec_captured_binding(vk: u32, ctrl: bool, shift: bool) -> Option<KeyBindingView> {
    if vk == 0x1B {
        None
    } else {
        Some(KeyBindingView { label: spec_key_label(vk), ctrl: ctrl, shift: shift })
    }
}

/// The label of the virtual key `vk`.
pub fn key_label(vk: u32) -> (s: String)
    ensures
        s@ == spec_key_label(vk),
{
    let mut s = String::new();
    if vk == 0x20 {
        s.append("Space");
    } else if vk == 0x0D {
        s.append("Enter");
    } else if vk == 0x1B {
        s.append("Press");
    } else if 0x70 <= vk && vk <= 0x7B {
        push_char(&mut s, 'F');
        push_decimal(&mut s, (vk - 0x6F) as u64);
    } else if vk < 256 {
        let b: u8 = vk as u8;
        let c: char = b as char;
        assert(c == vk as char);
        let u = if 'a' <= c && c <= 'z' {
            let lower_code: u8 = b - 32;
            lower_code as char
        } else {
            c
        };
        push_char(&mut s, u);
    } else {
        s.append("VK");
        push_decimal(&mut s, vk as u64);
    }
    assert(s@ =~= spec_key_label(vk));
    s
}

/// What pressing the virtual key `vk` in a key box sets the slot's key to,
/// with Ctrl and Shift held down as `ctrl` and `shift` say.
pub fn captured_binding(vk: u32, ctrl: bool, shift: bool) -> (k: Option<KeyBinding>)
    ensures
        crate::config::key_view(k) == spec_captured_binding(vk, ctrl, shift),
{
    if vk == 0x1B {
        None
    } else {
        Some(KeyBinding { label: key_label(vk), ctrl, shift })
    }
}

// ---------------------------------------------------------------------------
// The bar's controls and the configuration
// ---------------------------------------------------------------------------

/// What the bar shows of one slot: its switch, the text of its key box and
/// the text of its interval box.
pub struct SlotFields {
    pub enabled: bool,
    pub key: String,
    pub interval: String,
}

pub struct SlotFieldsView {
    pub enabled: bool,
    pub key: Seq<char>,
    pub interval: Seq<char>,
}

impl View for SlotFields {
    type V = SlotFieldsView;

    open spec fn view(&self) -> SlotFieldsView {
        SlotFieldsView { enabled: self.enabled, key: self.key@, interval: self.interval@ }
    }
}

/// What the bar shows of a configuration: the selection of the input-mode
/// list (0 for virtual keys, 1 for scan codes) and the fields of each slot.
pub struct BarFields {
    pub mode_index: isize,
    pub slots: Vec<SlotFields>,
}

pub struct BarFieldsView {
    pub mode_index: isize,
    pub slots: Seq<SlotFieldsView>,
}

impl View for BarFields {
    type V = BarFieldsView;

    open spec fn view(&self) -> BarFieldsView {
        BarFieldsView {
            mode_index: self.mode_index,
            slots: self.slots@.map_values(|f: SlotFields| f@),
        }
    }
}

/// The fields that show slot `s`.
pub open spec fn spec_slot_fields(s: MacroSlotView) -> SlotFieldsView {
    SlotFieldsView {
        enabled: s.enabled,
        key: spec_key_text(s.key),
        interval: to_decimal(s.interval_ms as nat),
    }
}

/// The fields that show configuration `c`.
pub open spec fn spec_bar_fields(c: AppConfigView) -> BarFieldsView {
    BarFieldsView {
        mode_index: match c.input_mode {
            InputMode::VirtualKey => 0,
            InputMode::ScanCode => 1,
        },
        slots: c.slots.map_values(|s: MacroSlotView| spec_slot_fields(s)),
    }
}

/// Slot `s` as the fields `f` set it: the switch, the key of the trimmed key
/// text and the interval of the trimmed interval text; the press duration
/// and release delay are not shown and stay.
pub open spec fn spec_read_slot(s: MacroSlotView, f: SlotFieldsView) -> MacroSlotView {
    MacroSlotView {
        enabled: f.enabled,
        key: spec_key_from_text(trim(f.key)),
        interval_ms: spec_interval_from_text(trim(f.interval)),
        ..s
    }
}

/// Configuration `c` as the fields `f` set it: selection 1 is scan codes and
/// any other selection virtual keys; logging is not shown and stays.
pub open spec fn spec_read_bar(c: AppConfigView, f: BarFieldsView) -> AppConfigView {
    AppConfigView {
        input_mode: if f.mode_index == 1 {
            InputMode::ScanCode
        } else {
            InputMode::VirtualKey
        },
        slots: Seq::new(c.slots.len(), |i: int| spec_read_slot(c.slots[i], f.slots[i])),
        ..c
    }
}

/// The fields that show `config`.
pub fn bar_fields(config: &AppConfig) -> (f: BarFields)
    ensures
        f@ == spec_bar_fields(config@),
{
    let ghost slots = config@.slots;
    let mut fields: Vec<SlotFields> = Vec::new();
    let mut i: usize = 0;
    while i < SLOT_COUNT
        invariant
            i <= SLOT_COUNT,
            slots == config@.slots,
            slots.len() == SLOT_COUNT,
            fields@.len() == i,
            forall|j: int|
                0 <= j < i ==> (#[trigger] fields@[j])@ == spec_slot_fields(slots[j]),
        decreases SLOT_COUNT - i,
    {
        let s = &config.slots[i];
        assert(s@ == slots[i as int]);
        let f = SlotFields {
            enabled: s.enabled,
            key: key_text(&s.key),
            interval: interval_text(s.interval_ms),
        };
        fields.push(f);
        i += 1;
    }
    let mode_index: isize = match config.input_mode {
        InputMode::VirtualKey => 0,
        InputMode::ScanCode => 1,
    };
    let r = BarFields { mode_index, slots: fields };
    assert(r@.slots =~= spec_bar_fields(config@).slots);
    r
}

/// Reads the fields `fields` back into `config`.
pub fn apply_bar_fields(config: &mut AppConfig, fields: &BarFields)
    requires
        fields.slots@.len() == SLOT_COUNT,
    ensures
        final(config)@ == spec_read_bar(old(config)@, fields@),
{
    let ghost c0 = config@;
    config.input_mode = if fields.mode_index == 1 {
        InputMode::ScanCode
    } else {
        InputMode::VirtualKey
    };
    let mut i: usize = 0;
    while i < SLOT_COUNT
        invariant
            i <= SLOT_COUNT,
            fields.slots@.len() == SLOT_COUNT,
            c0.slots.len() == SLOT_COUNT,
            config@.slots.len() == SLOT_COUNT,
            config@.logging == c0.logging,
            config@.input_mode == spec_read_bar(c0, fields@).input_mode,
            forall|j: int|
                0 <= j < i ==> #[trigger] config@.slots[j] == spec_read_slot(
                    c0.slots[j],
                    fields@.slots[j],
                ),
            forall|j: int| i <= j < SLOT_COUNT ==> #[trigger] config@.slots[j] == c0.slots[j],
        decreases SLOT_COUNT - i,
    {
        let f = &fields.slots[i];
        assert(f@ == fields@.slots[i as int]);
        let key = key_from_text(trimmed(f.key.as_str()).as_str());
        let interval = interval_from_text(trimmed(f.interval.as_str()).as_str());
        set_enabled(config, i, f.enabled);
        set_key(config, i, key);
        set_interval(config, i, interval);
        i += 1;
    }
    assert(config@.slots =~= spec_read_bar(c0, fields@).slots);
}

/// A shown binding is its own trim when its label is.
proof fn lemma_display_trimmed(b: KeyBindingView)
    requires
        b.label.len() > 0,
        b.label == trim(b.label),
    ensures
        trim(spec_display(b)) == spec_display(b),
{
    reveal_strlit("Ctrl+");
    reveal_strlit("Shift+");
    lemma_trim_ends(b.label);
    let d = spec_display(b);
    let pre = d.len() - b.label.len();
    assert(d.last() == b.label.last()) by {
        assert(d[d.len() - 1] == b.label[b.label.len() - 1]);
    }
    if b.ctrl {
        assert(d[0] == 'C');
    } else if b.shift {
        assert(d[0] == 'S');
    } else {
        assert(d =~= b.label);
    }
    lemma_trim_ends(d);
}

/// A key that its key box shows faithfully: absent, or with a label that is
/// not empty, equals its trim, does not start with a modifier word and is
/// not shown as a placeholder text.
pub open spec fn shown_faithfully(key: Option<KeyBindingView>) -> bool {
    match key {
        Some(b) => {
            &&& displayable(b)
            &&& b.label == trim(b.label)
            &&& !is_placeholder(spec_display(b))
        },
        None => true,
    }
}

/// Showing a configuration in the bar and reading the bar back gives the
/// configuration again, when each slot's key label is not empty, equals its
/// trim, does not start with a modifier word and is not shown as a
/// placeholder text.
pub proof fn lemma_refresh_then_sync(c: AppConfigView)
    requires
        c.slots.len() == SLOT_COUNT,
        forall|i: int| 0 <= i < SLOT_COUNT ==> shown_faithfully((#[trigger] c.slots[i]).key),
    ensures
        spec_read_bar(c, spec_bar_fields(c)) == c,
{
    let f = spec_bar_fields(c);
    assert forall|i: int| 0 <= i < SLOT_COUNT implies #[trigger] spec_read_slot(
        c.slots[i],
        f.slots[i],
    ) == c.slots[i] by {
        let s = c.slots[i];
        let t = to_decimal(s.interval_ms as nat);
        lemma_to_decimal(s.interval_ms as nat);
        assert(!is_space(t[0]) && !is_space(t.last())) by {
            assert(crate::text::is_digit(t[0]));
            assert(crate::text::is_digit(t[t.len() - 1]));
        }
        lemma_trim_ends(t);
        lemma_interval_text_round_trip(s.interval_ms);
        match s.key {
            Some(b) => {
                lemma_display_trimmed(b);
            },
            None => {
                reveal_strlit("Set");
                let set = "Set"@;
                assert(!is_space(set[0]) && !is_space(set.last()));
                lemma_trim_ends(set);
            },
        }
        lemma_key_text_round_trip(s.key);
    }
    assert(spec_read_bar(c, f).slots =~= c.slots);
    match c.input_mode {
        InputMode::VirtualKey => {},
        InputMode::ScanCode => {},
    }
}

// ---------------------------------------------------------------------------
// Starting a run
// ---------------------------------------------------------------------------

/// How many slots of `config` take part in a run; a run may start only when
/// there is at least one.
pub fn active_slot_count(config: &AppConfig) -> (n: usize)
    ensures
        n == active_slots(config@.slots).len(),
{
    let ghost slots = config@.slots;
    let mut n: usize = 0;
    let mut i: usize = 0;
    while i < SLOT_COUNT
        invariant
            i <= SLOT_COUNT,
            n <= i,
            slots == config@.slots,
            slots.len() == SLOT_COUNT,
            n == active_slots(slots.take(i as int)).len(),
        decreases SLOT_COUNT - i,
    {
        let s = &config.slots[i];
        assert(slots.take(i + 1).drop_last() =~= slots.take(i as int));
        assert(s@ == slots[i as int]);
        if s.enabled && s.key.is_some() {
            n += 1;
        }
        i += 1;
    }
    assert(slots.take(SLOT_COUNT as int) =~= slots);
    n
}

/// Why a run was refused.
#[derive(Clone, Copy, Debug, PartialEq, Eq)]
pub enum StartError {
    /// No slot is enabled and has a key.
    NoActiveSlot,
}

impl StartError {
    /// The text the bar shows for this refusal.
    pub fn message(&self) -> (m: &'static str)
        ensures
            m@ == "Configure at least one enabled slot"@,
    {
        match self {
            StartError::NoActiveSlot => "Configure at least one enabled slot",
        }
    }
}

/// What a start request leads to.
#[derive(Clone, Copy, Debug, PartialEq, Eq)]
pub enum StartDecision {
    /// A run is going on: the request is ignored.
    Ignore,
    /// The run is refused.
    Refuse(StartError),
    /// A run of the configuration starts.
    Start,
}

/// What a start request leads to while `running` tells whether a run is
/// going on, with `config` read from the bar.
pub fn start_decision(running: bool, config: &AppConfig) -> (d: StartDecision)
    ensures
        d == (if running {
            StartDecision::Ignore
        } else if active_slots(config@.slots).len() == 0 {
            StartDecision::Refuse(StartError::NoActiveSlot)
        } else {
            StartDecision::Start
        }),
{
    if running {
        StartDecision::Ignore
    } else if active_slot_count(config) == 0 {
        StartDecision::Refuse(StartError::NoActiveSlot)
    } else {
        StartDecision::Start
    }
}

/// How a run ended, as the bar reports it.
#[derive(Clone, Debug, PartialEq, Eq)]
pub enum RunOutcome {
    Completed,
    Stopped,
    Failed(String),
}

pub enum RunOutcomeView {
    Completed,
    Stopped,
    Failed(Seq<char>),
}

impl View for RunOutcome {
    type V = RunOutcomeView;

    open spec fn view(&self) -> RunOutcomeView {
        match self {
            RunOutcome::Completed => RunOutcomeView::Completed,
            RunOutcome::Stopped => RunOutcomeView::Stopped,
            RunOutcome::Failed(m) => RunOutcomeView::Failed(m@),
        }
    }
}

/// The outcome of a run that `completed` or not, with `stop_requested`
/// telling whether a stop was requested and `failure` the error of the key
/// action that failed, if one did: a run that did not complete failed unless
/// a stop was requested, with the action's error or, when there is none, a
/// general message.
pub open spec fn spec_run_outcome(
    completed: bool,
    stop_requested: bool,
    failure: Option<Seq<char>>,
) -> RunOutcomeView {
    if completed {
        RunOutcomeView::Completed
    } else if stop_requested {
        RunOutcomeView::Stopped
    } else {
        RunOutcomeView::Failed(
            match failure {
                Some(m) => m,
                None => "OSK input failed or a key could not be found"@,
            },
        )
    }
}

pub open spec fn text_view(t: Option<String>) -> Option<Seq<char>> {
    match t {
        Some(m) => Some(m@),
        None => None,
    }
}

/// The outcome of a run; see `spec_run_outcome`.
pub fn run_outcome(completed: bool, stop_requested: bool, failure: Option<String>) -> (o: RunOutcome)
    ensures
        o@ == spec_run_outcome(completed, stop_requested, text_view(failure)),
{
    if completed {
        RunOutcome::Completed
    } else if stop_requested {
        RunOutcome::Stopped
    } else {
        match failure {
            Some(m) => RunOutcome::Failed(m),
            None => RunOutcome::Failed(String::from_str("OSK input failed or a key could not be found")),
        }
    }
}

// ---------------------------------------------------------------------------
// Control notifications
// ---------------------------------------------------------------------------

pub const ID_START: usize = 100;
pub const ID_STOP: usize = 101;
pub const ID_SAVE: usize = 102;
pub const ID_LOAD: usize = 103;
pub const ID_MODE: usize = 104;
pub const ID_SLOT_BASE: usize = 200;
pub const ID_TIMER_BASE: usize = 300;
pub const ID_TOGGLE_BASE: usize = 400;

/// What a control notification asks the bar to do.
#[derive(Clone, Copy, Debug, PartialEq, Eq)]
pub enum UiCommand {
    Start,
    Stop,
    Save,
    Load,
    /// Wait for a key press for the key box of this slot.
    CaptureKey(usize),
    /// Open the slot editor for this slot.
    OpenEditor(usize),
    /// Read the controls back into the configuration.
    Sync,
    Ignore,
}

/// The command of the notification whose `WPARAM` is `wparam`: the control
/// id is its low word and the notification code its high word. Key boxes
/// act when they gain the focus, interval boxes open the editor when they
/// gain the focus, slot switches sync when clicked and the mode list syncs
/// when its selection changes.
pub open spec fn spec_classify_command(wparam: usize) -> UiCommand {
    let id = (wparam as int) % 0x10000;
    let code = ((wparam as int) / 0x10000) % 0x10000;
    if id == ID_START {
        UiCommand::Start
    } else if id == ID_STOP {
        UiCommand::Stop
    } else if id == ID_SAVE {
        UiCommand::Save
    } else if id == ID_LOAD {
        UiCommand::Load
    } else if ID_SLOT_BASE <= id < ID_SLOT_BASE + SLOT_COUNT {
        if code == 0x0100 {
            UiCommand::CaptureKey((id - ID_SLOT_BASE) as usize)
        } else {
            UiCommand::Ignore
        }
    } else if ID_TIMER_BASE <= id < ID_TIMER_BASE + SLOT_COUNT {
        if code == 0x0100 {
            UiCommand::OpenEditor((id - ID_TIMER_BASE) as usize)
        } else {
            UiCommand::Ignore
        }
    } else if ID_TOGGLE_BASE <= id < ID_TOGGLE_BASE + SLOT_COUNT {
        if code == 0 {
            UiCommand::Sync
        } else {
            UiCommand::Ignore
        }
    } else if id == ID_MODE {
        if code == 1 {
            UiCommand::Sync
        } else {
            UiCommand::Ignore
        }
    } else {
        UiCommand::Ignore
    }
}

/// The command of the notification whose `WPARAM` is `wparam`.
pub fn classify_command(wparam: usize) -> (c: UiCommand)
    ensures
        c == spec_classify_command(wparam),
{
    let id = wparam & 0xffff;
    let code = (wparam >> 16) & 0xffff;
    assert(wparam & 0xffff == wparam % 0x10000) by (bit_vector);
    assert((wparam >> 16) & 0xffff == (wparam / 0x10000) % 0x10000) by (bit_vector);
    if id == ID_START {
        UiCommand::Start
    } else if id == ID_STOP {
        UiCommand::Stop
    } else if id == ID_SAVE {
        UiCommand::Save
    } else if id == ID_LOAD {
        UiCommand::Load
    } else if ID_SLOT_BASE <= id && id < ID_SLOT_BASE + SLOT_COUNT {
        if code == 0x0100 {
            UiCommand::CaptureKey(id - ID_SLOT_BASE)
        } else {
            UiCommand::Ignore
        }
    } else if ID_TIMER_BASE <= id && id < ID_TIMER_BASE + SLOT_COUNT {
        if code == 0x0100 {
            UiCommand::OpenEditor(id - ID_TIMER_BASE)
        } else {
            UiCommand::Ignore
        }
    } else if ID_TOGGLE_BASE <= id && id < ID_TOGGLE_BASE + SLOT_COUNT {
        if code == 0 {
            UiCommand::Sync
        } else {
            UiCommand::Ignore
        }
    } else if id == ID_MODE {
        if code == 1 {
            UiCommand::Sync
        } else {
            UiCommand::Ignore
        }
    } else {
        UiCommand::Ignore
    }
}

/// The command of the global hot key with id `id`: 1 starts a run, 2 stops it.
pub fn hotkey_command(id: usize) -> (c: UiCommand)
    ensures
        c == (if id == 1 {
            UiCommand::Start
        } else if id == 2 {
            UiCommand::Stop
        } else {
            UiCommand::Ignore
        }),
{
    if id == 1 {
        UiCommand::Start
    } else if id == 2 {
        UiCommand::Stop
    } else {
        UiCommand::Ignore
    }
}

/// Whether the slot editor's result for slot `index` is taken into the
/// configuration: only for one of its slots.
pub fn editor_result_accepted(index: usize) -> (b: bool)
    ensures
        b == (index < SLOT_COUNT),
{
    index < SLOT_COUNT
}

} // verus!
