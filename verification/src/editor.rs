//! The slot editor dialog's rules: how the key field is read as a binding and
//! when the entered settings are accepted.
use vstd::prelude::*;
use crate::config::{KeyBinding, KeyBindingView, MacroSlot, MacroSlotView, MAX_TIMER_MS};
use crate::key_binding::{
    is_ctrl_word, is_shift_word, join_plus, lemma_split_plus_step, split_plus,
    strip_modifier_parts, strip_modifiers, trim_all,
};
use crate::text::{
    chars_of, find_char, has_char, lemma_first_index, lemma_parse_to_decimal, parse_unsigned,
    parse_unsigned_span, push_char, push_decimal, push_span, to_decimal, trim, trim_bounds,
};

verus! {

broadcast use vstd::string::group_string_axioms;

/// The label of an editor binding: the trimmed parts left after the modifier
/// words, joined by `+`; the whole trimmed text when nothing is left.
pub open spec fn editor_label(value: Seq<char>, rest: Seq<Seq<char>>) -> Seq<char> {
    let label = join_plus(trim_all(rest));
    if label.len() == 0 {
        trim(value)
    } else {
        label
    }
}

/// The binding that the key field `value` stands for, with the Ctrl and
/// Shift boxes `ctrl` and `shift`: leading `Ctrl`/`Control`/`Shift` parts
/// also switch their modifier on.
pub open spec fn spec_parse_binding(value: Seq<char>, ctrl: bool, shift: bool) -> KeyBindingView {
    let (rest, c, s) = strip_modifiers(split_plus(value), ctrl, shift);
    KeyBindingView { label: editor_label(value, rest), ctrl: c, shift: s }
}

/// Why the editor refuses the entered settings.
#[derive(Clone, Copy, Debug, PartialEq, Eq)]
pub enum EditorError {
    EmptyKey,
    InvalidTimer,
    TimerTooLarge,
}

pub open spec fn editor_error_message(e: EditorError) -> Seq<char> {
    match e {
        EditorError::EmptyKey => "key cannot be empty"@,
        EditorError::InvalidTimer => "timer must be a non-negative integer"@,
        EditorError::TimerTooLarge => "timer must not exceed 86,400,000 ms"@,
    }
}

/// A timer field: an unsigned decimal number of milliseconds, at most one day.
pub open spec fn spec_editor_timer(t: Seq<char>) -> Result<u64, EditorError> {
    match parse_unsigned(t, u64::MAX as nat) {
        None => Err(EditorError::InvalidTimer),
        Some(n) => if n > MAX_TIMER_MS {
            Err(EditorError::TimerTooLarge)
        } else {
            Ok(n as u64)
        },
    }
}

/// The slot the editor produces from its fields, checked in the order key,
/// interval, press duration, release delay.
pub open spec fn spec_slot_from_fields(
    enabled: bool,
    key: Seq<char>,
    ctrl: bool,
    shift: bool,
    interval: Seq<char>,
    press: Seq<char>,
    release: Seq<char>,
) -> Result<MacroSlotView, EditorError> {
    if key.len() == 0 {
        Err(EditorError::EmptyKey)
    } else {
        match spec_editor_timer(interval) {
            Err(e) => Err(e),
            Ok(i) => match spec_editor_timer(press) {
                Err(e) => Err(e),
                Ok(p) => match spec_editor_timer(release) {
                    Err(e) => Err(e),
                    Ok(r) => Ok(
                        MacroSlotView {
                            enabled: enabled,
                            key: Some(spec_parse_binding(key, ctrl, shift)),
                            interval_ms: i,
                            press_duration_ms: p,
                            release_delay_ms: r,
                        },
                    ),
                },
            },
        }
    }
}

pub open spec fn slot_result_view(r: Result<MacroSlot, EditorError>) -> Result<
    MacroSlotView,
    EditorError,
> {
    match r {
        Ok(s) => Ok(s@),
        Err(e) => Err(e),
    }
}

impl EditorError {
    /// The sentence that describes the error to a user.
    pub fn message(&self) -> (m: &'static str)
        ensures
            m@ == editor_error_message(*self),
    {
        match self {
            EditorError::EmptyKey => "key cannot be empty",
            EditorError::InvalidTimer => "timer must be a non-negative integer",
            EditorError::TimerTooLarge => "timer must not exceed 86,400,000 ms",
        }
    }
}

/// Appends the trimmed parts of `v[p..hi]`, joined by `+`.
fn push_trimmed_parts(out: &mut String, v: &Vec<char>, start: usize, hi: usize)
    requires
        start <= hi <= v@.len(),
    ensures
        final(out)@ == old(out)@ + join_plus(
            trim_all(split_plus(v@.subrange(start as int, hi as int))),
        ),
{
    let ghost target = old(out)@ + join_plus(
        trim_all(split_plus(v@.subrange(start as int, hi as int))),
    );
    let mut p = start;
    let mut started = false;
    loop
        invariant
            p <= hi <= v@.len(),
            target == old(out)@ + join_plus(
                trim_all(split_plus(v@.subrange(start as int, hi as int))),
            ),
            target == out@ + (if started {
                seq!['+']
            } else {
                Seq::<char>::empty()
            }) + join_plus(trim_all(split_plus(v@.subrange(p as int, hi as int)))),
        decreases hi - p,
    {
        let ghost part_text = v@.subrange(p as int, hi as int);
        let ghost o = out@;
        let ghost sep = if started {
            seq!['+']
        } else {
            Seq::<char>::empty()
        };
        let q = find_char(v, p, hi, '+');
        let (a, b) = trim_bounds(v, p, q);
        if started {
            push_char(out, '+');
        }
        push_span(out, v, a, b);
        proof {
            lemma_split_plus_step(part_text);
            let parts = split_plus(part_text);
            if q < hi {
                let rest_text = v@.subrange(q + 1, hi as int);
                assert(part_text.take(q - p) =~= v@.subrange(p as int, q as int));
                assert(part_text.skip(q - p + 1) =~= rest_text);
                lemma_split_plus_step(rest_text);
                let t = trim_all(parts);
                assert(t.drop_first() =~= trim_all(split_plus(rest_text)));
                assert(t[0] == trim(v@.subrange(p as int, q as int)));
                assert(join_plus(t) == t[0] + seq!['+'] + join_plus(t.drop_first()));
            } else {
                assert(part_text =~= v@.subrange(p as int, q as int));
                assert(trim_all(parts) =~= seq![trim(part_text)]);
            }
        }
        if q == hi {
            assert(out@ =~= o + sep + join_plus(trim_all(split_plus(part_text))));
            return;
        }
        assert(out@ + seq!['+'] + join_plus(trim_all(split_plus(v@.subrange(q + 1, hi as int))))
            =~= o + sep + join_plus(trim_all(split_plus(part_text))));
        started = true;
        p = q + 1;
    }
}

/// The binding that the key field `value` stands for, with the Ctrl and
/// Shift boxes `ctrl` and `shift`.
pub fn parse_binding(value: &str, ctrl: bool, shift: bool) -> (b: KeyBinding)
    ensures
        b@ == spec_parse_binding(value@, ctrl, shift),
{
    let v = chars_of(value);
    let n = v.len();
    assert(v@.subrange(0, n as int) =~= value@);
    let (start, c, s) = strip_modifier_parts(&v, 0, n, ctrl, shift);
    let mut label = String::new();
    match start {
        Some(p) => {
            push_trimmed_parts(&mut label, &v, p, n);
        },
        None => {
            assert(join_plus(trim_all(Seq::<Seq<char>>::empty())) == Seq::<char>::empty());
        },
    }
    if label.as_str().is_empty() {
        let (a, b) = trim_bounds(&v, 0, n);
        let mut whole = String::new();
        push_span(&mut whole, &v, a, b);
        assert(whole@ =~= trim(value@));
        KeyBinding { label: whole, ctrl: c, shift: s }
    } else {
        KeyBinding { label, ctrl: c, shift: s }
    }
}

fn timer_field(t: &str) -> (r: Result<u64, EditorError>)
    ensures
        r == spec_editor_timer(t@),
{
    let v = chars_of(t);
    assert(v@.subrange(0, v@.len() as int) =~= t@);
    match parse_unsigned_span(&v, 0, v.len(), u64::MAX) {
        None => Err(EditorError::InvalidTimer),
        Some(n) => if n > MAX_TIMER_MS {
            Err(EditorError::TimerTooLarge)
        } else {
            Ok(n)
        },
    }
}

/// The slot that the editor's fields describe: `key` is the key field,
/// `ctrl` and `shift` the modifier boxes, and the three timers the timer
/// fields, all as read from the dialog; `enabled` is kept from the slot
/// being edited.
pub fn slot_from_fields(
    enabled: bool,
    key: &str,
    ctrl: bool,
    shift: bool,
    interval: &str,
    press: &str,
    release: &str,
) -> (r: Result<MacroSlot, EditorError>)
    ensures
        slot_result_view(r) == spec_slot_from_fields(
            enabled,
            key@,
            ctrl,
            shift,
            interval@,
            press@,
            release@,
        ),
{
    if key.is_empty() {
        return Err(EditorError::EmptyKey);
    }
    let binding = parse_binding(key, ctrl, shift);
    let interval_ms = timer_field(interval)?;
    let press_duration_ms = timer_field(press)?;
    let release_delay_ms = timer_field(release)?;
    Ok(MacroSlot { enabled, key: Some(binding), interval_ms, press_duration_ms, release_delay_ms })
}

/// What the editor's fields show when it opens for a slot.
pub struct EditorFields {
    pub key: String,
    pub ctrl: bool,
    pub shift: bool,
    pub interval: String,
    pub press: String,
    pub release: String,
}

pub struct EditorFieldsView {
    pub key: Seq<char>,
    pub ctrl: bool,
    pub shift: bool,
    pub interval: Seq<char>,
    pub press: Seq<char>,
    pub release: Seq<char>,
}

impl View for EditorFields {
    type V = EditorFieldsView;

    open spec fn view(&self) -> EditorFieldsView {
        EditorFieldsView {
            key: self.key@,
            ctrl: self.ctrl,
            shift: self.shift,
            interval: self.interval@,
            press: self.press@,
            release: self.release@,
        }
    }
}

/// The editor's fields for `s`: the key label (empty without a key), its
/// modifiers, and the three timers in decimal.
pub open spec fn spec_editor_fields(s: MacroSlotView) -> EditorFieldsView {
    EditorFieldsView {
        key: match s.key {
            Some(k) => k.label,
            None => Seq::empty(),
        },
        ctrl: match s.key {
            Some(k) => k.ctrl,
            None => false,
        },
        shift: match s.key {
            Some(k) => k.shift,
            None => false,
        },
        interval: to_decimal(s.interval_ms as nat),
        press: to_decimal(s.press_duration_ms as nat),
        release: to_decimal(s.release_delay_ms as nat),
    }
}

fn decimal_string(n: u64) -> (s: String)
    ensures
        s@ == to_decimal(n as nat),
{
    let mut s = String::new();
    push_decimal(&mut s, n);
    assert(s@ =~= to_decimal(n as nat));
    s
}

/// What the editor's fields show when it opens for `slot`.
pub fn editor_fields(slot: &MacroSlot) -> (f: EditorFields)
    ensures
        f@ == spec_editor_fields(slot@),
{
    let (key, ctrl, shift) = match &slot.key {
        Some(k) => (k.label.clone(), k.ctrl, k.shift),
        None => (String::new(), false, false),
    };
    EditorFields {
        key,
        ctrl,
        shift,
        interval: decimal_string(slot.interval_ms),
        press: decimal_string(slot.press_duration_ms),
        release: decimal_string(slot.release_delay_ms),
    }
}

/// A key label that the editor shows and reads back unchanged: not empty,
/// without `+`, without surrounding whitespace, and no modifier word.
pub open spec fn editable_label(l: Seq<char>) -> bool {
    &&& l.len() > 0
    &&& !has_char(l, '+')
    &&& trim(l) == l
    &&& !is_ctrl_word(l)
    &&& !is_shift_word(l)
}

/// Opening the editor for a slot and accepting it unchanged keeps the slot,
/// when the slot has a key with an editable label and timers within range.
pub proof fn lemma_editor_round_trip(s: MacroSlotView)
    requires
        s.key matches Some(k) && editable_label(k.label),
        s.interval_ms <= MAX_TIMER_MS,
        s.press_duration_ms <= MAX_TIMER_MS,
        s.release_delay_ms <= MAX_TIMER_MS,
    ensures
        ({
            let f = spec_editor_fields(s);
            spec_slot_from_fields(s.enabled, f.key, f.ctrl, f.shift, f.interval, f.press, f.release)
                == Ok::<MacroSlotView, EditorError>(s)
        }),
{
    let k = s.key->0;
    let l = k.label;
    lemma_parse_to_decimal(s.interval_ms as nat, u64::MAX as nat);
    lemma_parse_to_decimal(s.press_duration_ms as nat, u64::MAX as nat);
    lemma_parse_to_decimal(s.release_delay_ms as nat, u64::MAX as nat);
    lemma_first_index(l, '+', l.len() as int);
    assert(split_plus(l) == seq![l]);
    assert(strip_modifiers(seq![l], k.ctrl, k.shift) == (seq![l], k.ctrl, k.shift));
    assert(trim_all(seq![l]) =~= seq![l]);
    assert(spec_parse_binding(l, k.ctrl, k.shift) == k);
}

/// The editor reads leading `Shift` and `Ctrl` parts as modifiers in either
/// order: `Shift+Ctrl+<l>` and `Ctrl+Shift+<l>` both give the label `l` with
/// Ctrl and Shift on, whatever the boxes say, for an editable label `l`.
pub proof fn lemma_editor_modifiers_in_any_order(l: Seq<char>, ctrl: bool, shift: bool)
    requires
        editable_label(l),
    ensures
        spec_parse_binding("Shift"@ + seq!['+'] + "Ctrl"@ + seq!['+'] + l, ctrl, shift)
            == (KeyBindingView { label: l, ctrl: true, shift: true }),
        spec_parse_binding("Ctrl"@ + seq!['+'] + "Shift"@ + seq!['+'] + l, ctrl, shift)
            == (KeyBindingView { label: l, ctrl: true, shift: true }),
{
    crate::key_binding::lemma_modifiers_in_any_order(l, ctrl, shift);
    assert(trim_all(seq![l]) =~= seq![l]);
}

} // verus!
