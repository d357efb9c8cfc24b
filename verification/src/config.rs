//! The macro configuration: eight slots, the input mode and the logging switch,
//! and the versioned `key=value` text format it is stored in.
use vstd::prelude::*;
use crate::text::{
    ascii_lower, chars_of, push_char, push_decimal, to_decimal, find_char, first_index, lemma_first_index_found, lower_span_is,
    number_error, parse_unsigned, parse_unsigned_span, span_is, spec_number_error, string_of, trim,
    trim_bounds, NumberError,
};

verus! {

broadcast use vstd::string::group_string_axioms;

/// How many programmable slots a configuration holds.
pub const SLOT_COUNT: usize = 8;

/// The largest accepted timer value, in milliseconds (one day).
pub const MAX_TIMER_MS: u64 = 86_400_000;

#[derive(Clone, Copy, Debug, PartialEq, Eq)]
pub enum InputMode {
    VirtualKey,
    ScanCode,
}

#[derive(Clone, Debug, PartialEq, Eq)]
pub struct KeyBinding {
    pub label: String,
    pub ctrl: bool,
    pub shift: bool,
}

#[derive(Clone, Debug, PartialEq, Eq)]
pub struct MacroSlot {
    pub enabled: bool,
    pub key: Option<KeyBinding>,
    pub interval_ms: u64,
    pub press_duration_ms: u64,
    pub release_delay_ms: u64,
}

#[derive(Clone, Debug, PartialEq, Eq)]
pub struct AppConfig {
    pub slots: [MacroSlot; SLOT_COUNT],
    pub input_mode: InputMode,
    pub logging: bool,
}

/// Why a configuration text was rejected.
#[derive(Clone, Copy, Debug, PartialEq, Eq)]
pub enum ConfigError {
    InvalidBoolean,
    InvalidInputMode,
    /// The slot index is no number, for the given reason.
    InvalidSlotIndex(NumberError),
    SlotIndexOutOfRange,
    /// A timer is no number, for the given reason.
    InvalidTimer(NumberError),
    TimerTooLarge,
}

// ---------------------------------------------------------------------------
// Mathematical model
// ---------------------------------------------------------------------------

pub struct KeyBindingView {
    pub label: Seq<char>,
    pub ctrl: bool,
    pub shift: bool,
}

pub struct MacroSlotView {
    pub enabled: bool,
    pub key: Option<KeyBindingView>,
    pub interval_ms: u64,
    pub press_duration_ms: u64,
    pub release_delay_ms: u64,
}

pub struct AppConfigView {
    pub slots: Seq<MacroSlotView>,
    pub input_mode: InputMode,
    pub logging: bool,
}

impl View for KeyBinding {
    type V = KeyBindingView;

    open spec fn view(&self) -> KeyBindingView {
        KeyBindingView { label: self.label@, ctrl: self.ctrl, shift: self.shift }
    }
}

pub open spec fn key_view(k: Option<KeyBinding>) -> Option<KeyBindingView> {
    match k {
        Some(b) => Some(b@),
        None => None,
    }
}

impl View for MacroSlot {
    type V = MacroSlotView;

    open spec fn view(&self) -> MacroSlotView {
        MacroSlotView {
            enabled: self.enabled,
            key: key_view(self.key),
            interval_ms: self.interval_ms,
            press_duration_ms: self.press_duration_ms,
            release_delay_ms: self.release_delay_ms,
        }
    }
}

impl View for AppConfig {
    type V = AppConfigView;

    open spec fn view(&self) -> AppConfigView {
        AppConfigView {
            slots: self.slots@.map_values(|s: MacroSlot| s@),
            input_mode: self.input_mode,
            logging: self.logging,
        }
    }
}

impl AppConfigView {
    pub open spec fn with_slot(self, i: int, s: MacroSlotView) -> AppConfigView {
        AppConfigView { slots: self.slots.update(i, s), ..self }
    }
}

pub open spec fn default_slot() -> MacroSlotView {
    MacroSlotView {
        enabled: true,
        key: None,
        interval_ms: 1000,
        press_duration_ms: 50,
        release_delay_ms: 50,
    }
}

pub open spec fn default_config() -> AppConfigView {
    AppConfigView {
        slots: Seq::new(SLOT_COUNT as nat, |i: int| default_slot()),
        input_mode: InputMode::VirtualKey,
        logging: true,
    }
}

/// The number error beneath `e`, if there is one.
pub open spec fn error_cause(e: ConfigError) -> Option<NumberError> {
    match e {
        ConfigError::InvalidSlotIndex(n) => Some(n),
        ConfigError::InvalidTimer(n) => Some(n),
        _ => None,
    }
}

pub open spec fn error_message(e: ConfigError) -> Seq<char> {
    match e {
        ConfigError::InvalidBoolean => "invalid boolean"@,
        ConfigError::InvalidInputMode => "invalid input mode"@,
        ConfigError::InvalidSlotIndex(_) => "invalid slot index"@,
        ConfigError::SlotIndexOutOfRange => "slot index out of range"@,
        ConfigError::InvalidTimer(_) => "timer must be a non-negative integer"@,
        ConfigError::TimerTooLarge => "timer is too large"@,
    }
}

/// A boolean setting: surrounding whitespace and letter case are ignored.
pub open spec fn spec_parse_bool(v: Seq<char>) -> Result<bool, ConfigError> {
    let t = ascii_lower(trim(v));
    if t == "true"@ || t == "1"@ || t == "yes"@ || t == "y"@ {
        Ok(true)
    } else if t == "false"@ || t == "0"@ || t == "no"@ || t == "n"@ {
        Ok(false)
    } else {
        Err(ConfigError::InvalidBoolean)
    }
}

/// A timer setting: an unsigned decimal number of milliseconds, at most one day.
pub open spec fn spec_parse_timer(v: Seq<char>) -> Result<u64, ConfigError> {
    match parse_unsigned(v, u64::MAX as nat) {
        None => Err(ConfigError::InvalidTimer(spec_number_error(v, u64::MAX as nat))),
        Some(n) => if n > MAX_TIMER_MS {
            Err(ConfigError::TimerTooLarge)
        } else {
            Ok(n as u64)
        },
    }
}

/// The effect of the entry `slot.<i>.<field>=<value>` on `c`.
pub open spec fn apply_field(
    c: AppConfigView,
    i: int,
    field: Seq<char>,
    value: Seq<char>,
) -> Result<AppConfigView, ConfigError> {
    let s = c.slots[i];
    if field == "enabled"@ {
        match spec_parse_bool(value) {
            Ok(b) => Ok(c.with_slot(i, MacroSlotView { enabled: b, ..s })),
            Err(e) => Err(e),
        }
    } else if field == "key"@ {
        let key = if value.len() == 0 {
            None
        } else {
            Some(KeyBindingView { label: value, ctrl: false, shift: false })
        };
        Ok(c.with_slot(i, MacroSlotView { key: key, ..s }))
    } else if field == "ctrl"@ {
        match spec_parse_bool(value) {
            Ok(b) => Ok(
                c.with_slot(
                    i,
                    MacroSlotView {
                        key: match s.key {
                            Some(k) => Some(KeyBindingView { ctrl: b, ..k }),
                            None => None,
                        },
                        ..s
                    },
                ),
            ),
            Err(e) => Err(e),
        }
    } else if field == "shift"@ {
        match spec_parse_bool(value) {
            Ok(b) => Ok(
                c.with_slot(
                    i,
                    MacroSlotView {
                        key: match s.key {
                            Some(k) => Some(KeyBindingView { shift: b, ..k }),
                            None => None,
                        },
                        ..s
                    },
                ),
            ),
            Err(e) => Err(e),
        }
    } else if field == "interval_ms"@ {
        match spec_parse_timer(value) {
            Ok(t) => Ok(c.with_slot(i, MacroSlotView { interval_ms: t, ..s })),
            Err(e) => Err(e),
        }
    } else if field == "press_duration_ms"@ {
        match spec_parse_timer(value) {
            Ok(t) => Ok(c.with_slot(i, MacroSlotView { press_duration_ms: t, ..s })),
            Err(e) => Err(e),
        }
    } else if field == "release_delay_ms"@ {
        match spec_parse_timer(value) {
            Ok(t) => Ok(c.with_slot(i, MacroSlotView { release_delay_ms: t, ..s })),
            Err(e) => Err(e),
        }
    } else {
        Ok(c)
    }
}

/// The effect of the slot entry with key `slot.<rest>` and value `value` on `c`.
pub open spec fn apply_slot_entry(
    c: AppConfigView,
    rest: Seq<char>,
    value: Seq<char>,
) -> Result<AppConfigView, ConfigError> {
    match first_index(rest, '.') {
        None => Ok(c),
        Some(d) => match parse_unsigned(rest.take(d as int), usize::MAX as nat) {
            None => Err(
                ConfigError::InvalidSlotIndex(spec_number_error(rest.take(d as int), usize::MAX as nat)),
            ),
            Some(i) => if i >= SLOT_COUNT {
                Err(ConfigError::SlotIndexOutOfRange)
            } else {
                apply_field(c, i as int, rest.skip(d + 1int), value)
            },
        },
    }
}

/// The effect of the entry `<k>=<v>` on `c`. A key that is neither a known
/// setting nor starts with `slot.` leaves `c` as it is.
pub open spec fn apply_entry(k: Seq<char>, v: Seq<char>, c: AppConfigView) -> Result<
    AppConfigView,
    ConfigError,
> {
    if k == "logging"@ {
        match spec_parse_bool(v) {
            Ok(b) => Ok(AppConfigView { logging: b, ..c }),
            Err(x) => Err(x),
        }
    } else if k == "input_mode"@ {
        if v == "scan-code"@ {
            Ok(AppConfigView { input_mode: InputMode::ScanCode, ..c })
        } else if v == "virtual-key"@ {
            Ok(AppConfigView { input_mode: InputMode::VirtualKey, ..c })
        } else {
            Err(ConfigError::InvalidInputMode)
        }
    } else if k.len() >= 5 && k.take(5) == "slot."@ {
        apply_slot_entry(c, k.skip(5), v)
    } else {
        Ok(c)
    }
}

/// The effect of one line of configuration text on `c`: a line without `=`
/// is ignored, otherwise it is split at its first `=` into key and value.
pub open spec fn parse_line(line: Seq<char>, c: AppConfigView) -> Result<
    AppConfigView,
    ConfigError,
> {
    match first_index(line, '=') {
        None => Ok(c),
        Some(e) => apply_entry(line.take(e as int), line.skip(e + 1int), c),
    }
}

/// A line as `str::lines` hands it out: without the `\r` of a `\r\n` ending.
pub open spec fn strip_cr(s: Seq<char>) -> Seq<char> {
    if s.len() > 0 && s.last() == '\r' {
        s.drop_last()
    } else {
        s
    }
}

/// Applies the lines of `rest` to `c` in order, stopping at the first error.
pub open spec fn parse_from(rest: Seq<char>, c: AppConfigView) -> Result<
    AppConfigView,
    ConfigError,
>
    decreases rest.len(),
{
    if rest.len() == 0 {
        Ok(c)
    } else {
        match first_index(rest, '\n') {
            None => parse_line(rest, c),
            Some(k) => {
                proof {
                    lemma_first_index_found(rest, '\n');
                }
                match parse_line(strip_cr(rest.take(k as int)), c) {
                    Err(e) => Err(e),
                    Ok(c2) => parse_from(rest.skip(k + 1int), c2),
                }
            },
        }
    }
}

/// What a configuration text means: the defaults, changed by each line in turn.
pub open spec fn spec_parse(text: Seq<char>) -> Result<AppConfigView, ConfigError> {
    parse_from(text, default_config())
}

pub open spec fn result_view(r: Result<AppConfig, ConfigError>) -> Result<
    AppConfigView,
    ConfigError,
> {
    match r {
        Ok(c) => Ok(c@),
        Err(e) => Err(e),
    }
}

// ---------------------------------------------------------------------------
// Executable code
// ---------------------------------------------------------------------------

impl ConfigError {
    /// The sentence that describes the error to a user.
    pub fn message(&self) -> (m: &'static str)
        ensures
            m@ == error_message(*self),
    {
        match self {
            ConfigError::InvalidBoolean => "invalid boolean",
            ConfigError::InvalidInputMode => "invalid input mode",
            ConfigError::InvalidSlotIndex(_) => "invalid slot index",
            ConfigError::SlotIndexOutOfRange => "slot index out of range",
            ConfigError::InvalidTimer(_) => "timer must be a non-negative integer",
            ConfigError::TimerTooLarge => "timer is too large",
        }
    }

    /// The number error beneath this error, if there is one.
    pub fn cause(&self) -> (c: Option<NumberError>)
        ensures
            c == error_cause(*self),
    {
        match self {
            ConfigError::InvalidSlotIndex(n) => Some(*n),
            ConfigError::InvalidTimer(n) => Some(*n),
            _ => None,
        }
    }
}

impl Default for MacroSlot {
    fn default() -> (s: Self)
        ensures
            s@ == default_slot(),
    {
        MacroSlot {
            enabled: true,
            key: None,
            interval_ms: 1000,
            press_duration_ms: 50,
            release_delay_ms: 50,
        }
    }
}

impl Default for AppConfig {
    fn default() -> (c: Self)
        ensures
            c@ == default_config(),
    {
        let c = AppConfig {
            slots: [
                MacroSlot::default(),
                MacroSlot::default(),
                MacroSlot::default(),
                MacroSlot::default(),
                MacroSlot::default(),
                MacroSlot::default(),
                MacroSlot::default(),
                MacroSlot::default(),
            ],
            input_mode: InputMode::VirtualKey,
            logging: true,
        };
        assert(c@.slots =~= default_config().slots);
        c
    }
}

/// `spec_parse_bool(v[lo..hi])`.
fn parse_bool_span(v: &Vec<char>, lo: usize, hi: usize) -> (r: Result<bool, ConfigError>)
    requires
        lo <= hi <= v@.len(),
    ensures
        r == spec_parse_bool(v@.subrange(lo as int, hi as int)),
{
    let (a, b) = trim_bounds(v, lo, hi);
    if lower_span_is(v, a, b, "true") || lower_span_is(v, a, b, "1") || lower_span_is(
        v,
        a,
        b,
        "yes",
    ) || lower_span_is(v, a, b, "y") {
        Ok(true)
    } else if lower_span_is(v, a, b, "false") || lower_span_is(v, a, b, "0") || lower_span_is(
        v,
        a,
        b,
        "no",
    ) || lower_span_is(v, a, b, "n") {
        Ok(false)
    } else {
        Err(ConfigError::InvalidBoolean)
    }
}

/// `spec_parse_timer(v[lo..hi])`.
fn parse_timer_span(v: &Vec<char>, lo: usize, hi: usize) -> (r: Result<u64, ConfigError>)
    requires
        lo <= hi <= v@.len(),
    ensures
        r == spec_parse_timer(v@.subrange(lo as int, hi as int)),
{
    match parse_unsigned_span(v, lo, hi, u64::MAX) {
        None => Err(ConfigError::InvalidTimer(number_error(v, lo, hi, u64::MAX))),
        Some(n) => if n > MAX_TIMER_MS {
            Err(ConfigError::TimerTooLarge)
        } else {
            Ok(n)
        },
    }
}

/// Reads a boolean setting: `true`, `1`, `yes`, `y` and `false`, `0`, `no`,
/// `n`, ignoring surrounding whitespace and letter case.
pub fn parse_bool(v: &str) -> (r: Result<bool, ConfigError>)
    ensures
        r == spec_parse_bool(v@),
{
    let chars = chars_of(v);
    assert(chars@.subrange(0, chars@.len() as int) =~= v@);
    parse_bool_span(&chars, 0, chars.len())
}

/// Reads a timer setting: an unsigned decimal number of milliseconds, at
/// most one day.
pub fn parse_timer(v: &str) -> (r: Result<u64, ConfigError>)
    ensures
        r == spec_parse_timer(v@),
{
    let chars = chars_of(v);
    assert(chars@.subrange(0, chars@.len() as int) =~= v@);
    parse_timer_span(&chars, 0, chars.len())
}

// Single-field updates of slot `i`.

pub(crate) fn set_enabled(config: &mut AppConfig, i: usize, b: bool)
    requires
        i < SLOT_COUNT,
    ensures
        final(config)@ == old(config)@.with_slot(
            i as int,
            MacroSlotView { enabled: b, ..old(config)@.slots[i as int] },
        ),
{
    let ghost c0 = config@;
    config.slots[i].enabled = b;
    assert(config@.slots =~= c0.slots.update(
        i as int,
        MacroSlotView { enabled: b, ..c0.slots[i as int] },
    ));
}

pub(crate) fn set_key(config: &mut AppConfig, i: usize, key: Option<KeyBinding>)
    requires
        i < SLOT_COUNT,
    ensures
        final(config)@ == old(config)@.with_slot(
            i as int,
            MacroSlotView { key: key_view(key), ..old(config)@.slots[i as int] },
        ),
{
    let ghost c0 = config@;
    config.slots[i].key = key;
    assert(config@.slots =~= c0.slots.update(
        i as int,
        MacroSlotView { key: key_view(key), ..c0.slots[i as int] },
    ));
}

fn set_ctrl(config: &mut AppConfig, i: usize, b: bool)
    requires
        i < SLOT_COUNT,
    ensures
        final(config)@ == old(config)@.with_slot(
            i as int,
            MacroSlotView {
                key: match old(config)@.slots[i as int].key {
                    Some(k) => Some(KeyBindingView { ctrl: b, ..k }),
                    None => None,
                },
                ..old(config)@.slots[i as int]
            },
        ),
{
    let ghost c0 = config@;
    match &mut config.slots[i].key {
        Some(k) => {
            k.ctrl = b;
        },
        None => {},
    }
    assert(config@.slots =~= c0.slots.update(
        i as int,
        MacroSlotView {
            key: match c0.slots[i as int].key {
                Some(k) => Some(KeyBindingView { ctrl: b, ..k }),
                None => None,
            },
            ..c0.slots[i as int]
        },
    ));
}

fn set_shift(config: &mut AppConfig, i: usize, b: bool)
    requires
        i < SLOT_COUNT,
    ensures
        final(config)@ == old(config)@.with_slot(
            i as int,
            MacroSlotView {
                key: match old(config)@.slots[i as int].key {
                    Some(k) => Some(KeyBindingView { shift: b, ..k }),
                    None => None,
                },
                ..old(config)@.slots[i as int]
            },
        ),
{
    let ghost c0 = config@;
    match &mut config.slots[i].key {
        Some(k) => {
            k.shift = b;
        },
        None => {},
    }
    assert(config@.slots =~= c0.slots.update(
        i as int,
        MacroSlotView {
            key: match c0.slots[i as int].key {
                Some(k) => Some(KeyBindingView { shift: b, ..k }),
                None => None,
            },
            ..c0.slots[i as int]
        },
    ));
}

pub(crate) fn set_interval(config: &mut AppConfig, i: usize, t: u64)
    requires
        i < SLOT_COUNT,
    ensures
        final(config)@ == old(config)@.with_slot(
            i as int,
            MacroSlotView { interval_ms: t, ..old(config)@.slots[i as int] },
        ),
{
    let ghost c0 = config@;
    config.slots[i].interval_ms = t;
    assert(config@.slots =~= c0.slots.update(
        i as int,
        MacroSlotView { interval_ms: t, ..c0.slots[i as int] },
    ));
}

fn set_press(config: &mut AppConfig, i: usize, t: u64)
    requires
        i < SLOT_COUNT,
    ensures
        final(config)@ == old(config)@.with_slot(
            i as int,
            MacroSlotView { press_duration_ms: t, ..old(config)@.slots[i as int] },
        ),
{
    let ghost c0 = config@;
    config.slots[i].press_duration_ms = t;
    assert(config@.slots =~= c0.slots.update(
        i as int,
        MacroSlotView { press_duration_ms: t, ..c0.slots[i as int] },
    ));
}

fn set_release(config: &mut AppConfig, i: usize, t: u64)
    requires
        i < SLOT_COUNT,
    ensures
        final(config)@ == old(config)@.with_slot(
            i as int,
            MacroSlotView { release_delay_ms: t, ..old(config)@.slots[i as int] },
        ),
{
    let ghost c0 = config@;
    config.slots[i].release_delay_ms = t;
    assert(config@.slots =~= c0.slots.update(
        i as int,
        MacroSlotView { release_delay_ms: t, ..c0.slots[i as int] },
    ));
}

/// Applies `slot.<i>.<v[flo..fhi]>=<v[vlo..vhi]>` to `config`.
fn apply_field_span(
    config: &mut AppConfig,
    i: usize,
    v: &Vec<char>,
    flo: usize,
    fhi: usize,
    vlo: usize,
    vhi: usize,
) -> (r: Result<(), ConfigError>)
    requires
        i < SLOT_COUNT,
        flo <= fhi <= v@.len(),
        vlo <= vhi <= v@.len(),
    ensures
        match apply_field(
            old(config)@,
            i as int,
            v@.subrange(flo as int, fhi as int),
            v@.subrange(vlo as int, vhi as int),
        ) {
            Ok(c) => r is Ok && final(config)@ == c,
            Err(e) => r == Err::<(), ConfigError>(e),
        },
{
    if span_is(v, flo, fhi, "enabled") {
        let b = parse_bool_span(v, vlo, vhi)?;
        set_enabled(config, i, b);
    } else if span_is(v, flo, fhi, "key") {
        if vlo == vhi {
            set_key(config, i, None);
        } else {
            let label = string_of(v, vlo, vhi);
            set_key(config, i, Some(KeyBinding { label, ctrl: false, shift: false }));
        }
    } else if span_is(v, flo, fhi, "ctrl") {
        let b = parse_bool_span(v, vlo, vhi)?;
        set_ctrl(config, i, b);
    } else if span_is(v, flo, fhi, "shift") {
        let b = parse_bool_span(v, vlo, vhi)?;
        set_shift(config, i, b);
    } else if span_is(v, flo, fhi, "interval_ms") {
        let t = parse_timer_span(v, vlo, vhi)?;
        set_interval(config, i, t);
    } else if span_is(v, flo, fhi, "press_duration_ms") {
        let t = parse_timer_span(v, vlo, vhi)?;
        set_press(config, i, t);
    } else if span_is(v, flo, fhi, "release_delay_ms") {
        let t = parse_timer_span(v, vlo, vhi)?;
        set_release(config, i, t);
    }
    Ok(())
}

/// Applies `slot.<v[lo..eq]>=<v[eq + 1..hi]>` to `config`.
fn apply_slot_entry_span(
    config: &mut AppConfig,
    v: &Vec<char>,
    lo: usize,
    eq: usize,
    hi: usize,
) -> (r: Result<(), ConfigError>)
    requires
        lo <= eq < hi <= v@.len(),
    ensures
        match apply_slot_entry(
            old(config)@,
            v@.subrange(lo as int, eq as int),
            v@.subrange(eq + 1, hi as int),
        ) {
            Ok(c) => r is Ok && final(config)@ == c,
            Err(e) => r == Err::<(), ConfigError>(e),
        },
{
    let ghost rest = v@.subrange(lo as int, eq as int);
    let dot = find_char(v, lo, eq, '.');
    if dot == eq {
        return Ok(());
    }
    assert(rest.take(dot - lo) =~= v@.subrange(lo as int, dot as int));
    assert(rest.skip(dot - lo + 1) =~= v@.subrange(dot + 1, eq as int));
    match parse_unsigned_span(v, lo, dot, usize::MAX as u64) {
        None => Err(ConfigError::InvalidSlotIndex(number_error(v, lo, dot, usize::MAX as u64))),
        Some(n) => {
            if n >= SLOT_COUNT as u64 {
                Err(ConfigError::SlotIndexOutOfRange)
            } else {
                apply_field_span(config, n as usize, v, dot + 1, eq, eq + 1, hi)
            }
        },
    }
}

/// Applies the line `v[lo..hi]` to `config`.
fn parse_line_span(config: &mut AppConfig, v: &Vec<char>, lo: usize, hi: usize) -> (r: Result<
    (),
    ConfigError,
>)
    requires
        lo <= hi <= v@.len(),
    ensures
        match parse_line(v@.subrange(lo as int, hi as int), old(config)@) {
            Ok(c) => r is Ok && final(config)@ == c,
            Err(e) => r == Err::<(), ConfigError>(e),
        },
{
    let ghost line = v@.subrange(lo as int, hi as int);
    let eq = find_char(v, lo, hi, '=');
    if eq == hi {
        return Ok(());
    }
    let ghost k = line.take(eq - lo);
    let ghost val = line.skip(eq - lo + 1);
    assert(k =~= v@.subrange(lo as int, eq as int));
    assert(val =~= v@.subrange(eq + 1, hi as int));
    assert(eq - lo >= 5 ==> k.take(5) =~= v@.subrange(lo as int, lo + 5));
    if span_is(v, lo, eq, "logging") {
        match parse_bool_span(v, eq + 1, hi) {
            Ok(b) => {
                config.logging = b;
                Ok(())
            },
            Err(e) => Err(e),
        }
    } else if span_is(v, lo, eq, "input_mode") {
        if span_is(v, eq + 1, hi, "scan-code") {
            config.input_mode = InputMode::ScanCode;
            Ok(())
        } else if span_is(v, eq + 1, hi, "virtual-key") {
            config.input_mode = InputMode::VirtualKey;
            Ok(())
        } else {
            Err(ConfigError::InvalidInputMode)
        }
    } else if eq - lo >= 5 && span_is(v, lo, lo + 5, "slot.") {
        assert(k.take(5) =~= v@.subrange(lo as int, lo + 5));
        assert(k.skip(5) =~= v@.subrange(lo + 5, eq as int));
        apply_slot_entry_span(config, v, lo + 5, eq, hi)
    } else {
        Ok(())
    }
}

/// Reads a configuration text. Lines are applied in order to the defaults;
/// the first malformed value rejects the whole text.
pub fn parse(text: &str) -> (r: Result<AppConfig, ConfigError>)
    ensures
        result_view(r) == spec_parse(text@),
{
    let v = chars_of(text);
    let n = v.len();
    let mut config = AppConfig::default();
    let mut pos: usize = 0;
    assert(v@.skip(0) =~= text@);
    while pos < n
        invariant
            pos <= n == v@.len(),
            spec_parse(text@) == parse_from(v@.skip(pos as int), config@),
        decreases n - pos,
    {
        let ghost rest = v@.skip(pos as int);
        assert(rest =~= v@.subrange(pos as int, n as int));
        let k = find_char(&v, pos, n, '\n');
        if k == n {
            match parse_line_span(&mut config, &v, pos, n) {
                Err(e) => {
                    return Err(e);
                },
                Ok(()) => {
                    return Ok(config);
                },
            }
        }
        let mut end = k;
        if end > pos && v[end - 1] == '\r' {
            end = end - 1;
        }
        assert(strip_cr(rest.take(k - pos)) =~= v@.subrange(pos as int, end as int));
        assert(rest.skip(k - pos + 1) =~= v@.skip(k + 1));
        match parse_line_span(&mut config, &v, pos, end) {
            Err(e) => {
                return Err(e);
            },
            Ok(()) => {},
        }
        pos = k + 1;
    }
    assert(v@.skip(pos as int) =~= Seq::<char>::empty());
    Ok(config)
}

// ---------------------------------------------------------------------------
// Writing a configuration
// ---------------------------------------------------------------------------

/// How a boolean setting is written (`Display` for `bool`).
pub open spec fn bool_text(b: bool) -> Seq<char> {
    if b {
        "true"@
    } else {
        "false"@
    }
}

pub open spec fn mode_text(m: InputMode) -> Seq<char> {
    match m {
        InputMode::VirtualKey => "virtual-key"@,
        InputMode::ScanCode => "scan-code"@,
    }
}

/// One line of the format: `<key>=<value>` and a line feed.
pub open spec fn entry(key: Seq<char>, value: Seq<char>) -> Seq<char> {
    key + seq!['='] + value + seq!['\n']
}

/// The key `slot.<i>.<field>`.
pub open spec fn slot_key(i: nat, field: Seq<char>) -> Seq<char> {
    "slot."@ + to_decimal(i) + seq!['.'] + field
}

pub open spec fn label_text(k: Option<KeyBindingView>) -> Seq<char> {
    match k {
        Some(b) => b.label,
        None => Seq::empty(),
    }
}

pub open spec fn ctrl_of(k: Option<KeyBindingView>) -> bool {
    match k {
        Some(b) => b.ctrl,
        None => false,
    }
}

pub open spec fn shift_of(k: Option<KeyBindingView>) -> bool {
    match k {
        Some(b) => b.shift,
        None => false,
    }
}

/// The lines of slot `i` for its switch and key binding.
pub open spec fn slot_head(i: nat, s: MacroSlotView) -> Seq<char> {
    entry(slot_key(i, "enabled"@), bool_text(s.enabled)) + (entry(
        slot_key(i, "key"@),
        label_text(s.key),
    ) + (entry(slot_key(i, "ctrl"@), bool_text(ctrl_of(s.key))) + entry(
        slot_key(i, "shift"@),
        bool_text(shift_of(s.key)),
    )))
}

/// The lines of slot `i` for its three timers.
pub open spec fn slot_timers(i: nat, s: MacroSlotView) -> Seq<char> {
    entry(slot_key(i, "interval_ms"@), to_decimal(s.interval_ms as nat)) + (entry(
        slot_key(i, "press_duration_ms"@),
        to_decimal(s.press_duration_ms as nat),
    ) + entry(slot_key(i, "release_delay_ms"@), to_decimal(s.release_delay_ms as nat)))
}

/// The seven lines that describe slot `i`.
#[verifier::opaque]
pub open spec fn slot_text(i: nat, s: MacroSlotView) -> Seq<char> {
    slot_head(i, s) + slot_timers(i, s)
}

/// The lines of the first `n` slots.
pub open spec fn slots_text(slots: Seq<MacroSlotView>, n: nat) -> Seq<char>
    decreases n,
{
    if n == 0 {
        Seq::empty()
    } else {
        slots_text(slots, (n - 1) as nat) + slot_text((n - 1) as nat, slots[n - 1])
    }
}

/// The text a configuration is saved as: the format version, the logging
/// switch, the input mode, then every slot in order.
pub open spec fn spec_serialize(c: AppConfigView) -> Seq<char> {
    entry("version"@, "1"@) + (entry("logging"@, bool_text(c.logging)) + (entry(
        "input_mode"@,
        mode_text(c.input_mode),
    ) + slots_text(c.slots, c.slots.len())))
}

fn push_bool(out: &mut String, b: bool)
    ensures
        final(out)@ == old(out)@ + bool_text(b),
{
    if b {
        out.append("true");
    } else {
        out.append("false");
    }
}

/// Appends `slot.<i>.<field>=`.
fn push_slot_key(out: &mut String, i: usize, field: &str)
    ensures
        final(out)@ == old(out)@ + slot_key(i as nat, field@) + seq!['='],
{
    let ghost o = out@;
    out.append("slot.");
    push_decimal(out, i as u64);
    push_char(out, '.');
    out.append(field);
    push_char(out, '=');
    assert(out@ =~= o + slot_key(i as nat, field@) + seq!['=']);
}

fn push_slot_bool(out: &mut String, i: usize, field: &str, b: bool)
    ensures
        final(out)@ == old(out)@ + entry(slot_key(i as nat, field@), bool_text(b)),
{
    let ghost o = out@;
    push_slot_key(out, i, field);
    push_bool(out, b);
    push_char(out, '\n');
    assert(out@ =~= o + entry(slot_key(i as nat, field@), bool_text(b)));
}

fn push_slot_timer(out: &mut String, i: usize, field: &str, t: u64)
    ensures
        final(out)@ == old(out)@ + entry(slot_key(i as nat, field@), to_decimal(t as nat)),
{
    let ghost o = out@;
    push_slot_key(out, i, field);
    push_decimal(out, t);
    push_char(out, '\n');
    assert(out@ =~= o + entry(slot_key(i as nat, field@), to_decimal(t as nat)));
}

fn push_slot_label(out: &mut String, i: usize, key: &Option<KeyBinding>)
    ensures
        final(out)@ == old(out)@ + entry(slot_key(i as nat, "key"@), label_text(key_view(*key))),
{
    let ghost o = out@;
    push_slot_key(out, i, "key");
    match key {
        Some(k) => {
            out.append(k.label.as_str());
        },
        None => {},
    }
    push_char(out, '\n');
    assert(out@ =~= o + entry(slot_key(i as nat, "key"@), label_text(key_view(*key))));
}

fn push_slot_head(out: &mut String, i: usize, s: &MacroSlot)
    ensures
        final(out)@ == old(out)@ + slot_head(i as nat, s@),
{
    let ghost o = out@;
    let (ctrl, shift) = match &s.key {
        Some(k) => (k.ctrl, k.shift),
        None => (false, false),
    };
    assert(ctrl == ctrl_of(s@.key) && shift == shift_of(s@.key));
    push_slot_bool(out, i, "enabled", s.enabled);
    let ghost o1 = out@;
    push_slot_label(out, i, &s.key);
    let ghost o2 = out@;
    push_slot_bool(out, i, "ctrl", ctrl);
    let ghost o3 = out@;
    push_slot_bool(out, i, "shift", shift);
    assert(out@ =~= o + slot_head(i as nat, s@));
}

fn push_slot_timers(out: &mut String, i: usize, s: &MacroSlot)
    ensures
        final(out)@ == old(out)@ + slot_timers(i as nat, s@),
{
    let ghost o = out@;
    push_slot_timer(out, i, "interval_ms", s.interval_ms);
    push_slot_timer(out, i, "press_duration_ms", s.press_duration_ms);
    push_slot_timer(out, i, "release_delay_ms", s.release_delay_ms);
    assert(out@ =~= o + slot_timers(i as nat, s@));
}

fn push_slot(out: &mut String, i: usize, s: &MacroSlot)
    ensures
        final(out)@ == old(out)@ + slot_text(i as nat, s@),
{
    let ghost o = out@;
    push_slot_head(out, i, s);
    push_slot_timers(out, i, s);
    reveal(slot_text);
    assert(out@ =~= o + slot_text(i as nat, s@));
}

/// The text `config` is saved as.
pub fn serialize(config: &AppConfig) -> (out: String)
    ensures
        out@ == spec_serialize(config@),
{
    let mut out = String::new();
    out.append("version");
    push_char(&mut out, '=');
    out.append("1");
    push_char(&mut out, '\n');
    out.append("logging");
    push_char(&mut out, '=');
    push_bool(&mut out, config.logging);
    push_char(&mut out, '\n');
    out.append("input_mode");
    push_char(&mut out, '=');
    match config.input_mode {
        InputMode::VirtualKey => out.append("virtual-key"),
        InputMode::ScanCode => out.append("scan-code"),
    }
    push_char(&mut out, '\n');
    let ghost header = out@;
    assert(header =~= entry("version"@, "1"@) + (entry("logging"@, bool_text(config@.logging))
        + entry("input_mode"@, mode_text(config@.input_mode))));
    let mut i: usize = 0;
    while i < SLOT_COUNT
        invariant
            i <= SLOT_COUNT,
            config@.slots.len() == SLOT_COUNT,
            out@ == header + slots_text(config@.slots, i as nat),
        decreases SLOT_COUNT - i,
    {
        push_slot(&mut out, i, &config.slots[i]);
        assert(out@ =~= header + slots_text(config@.slots, (i + 1) as nat));
        i += 1;
    }
    assert(out@ =~= spec_serialize(config@));
    out
}

} // verus!
