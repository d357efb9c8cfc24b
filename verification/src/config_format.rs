//! Laws of the configuration text format: what `parse` makes of the text
//! that `serialize` writes.
use vstd::prelude::*;
use crate::config::{
    apply_slot_entry, apply_entry, apply_field, bool_text, ctrl_of, entry, label_text, mode_text, parse_from,
    parse_line, shift_of, slot_head, slot_key, slot_text, slot_timers, slots_text, spec_parse,
    spec_parse_bool, spec_parse_timer, spec_serialize, strip_cr, default_config, AppConfigView,
    ConfigError, KeyBindingView, MacroSlotView, MAX_TIMER_MS, SLOT_COUNT,
};
use crate::text::{
    parse_unsigned, ascii_lower, first_index, has_char, is_digit, lemma_first_index,
    lemma_first_index_found, lemma_parse_to_decimal, lemma_to_decimal, lemma_to_decimal_lacks,
    lower_char, spec_number_error, to_decimal, trim, trim_end, trim_start,
};

verus! {

broadcast use vstd::string::group_string_axioms;

/// A key label that survives being written and read back: not empty, on one
/// line, and not ending in a carriage return.
pub open spec fn savable_label(l: Seq<char>) -> bool {
    &&& l.len() > 0
    &&& !has_char(l, '\n')
    &&& l.last() != '\r'
}

/// A slot whose settings survive being written and read back.
pub open spec fn savable_slot(s: MacroSlotView) -> bool {
    &&& (s.key matches Some(k) ==> savable_label(k.label))
    &&& s.interval_ms <= MAX_TIMER_MS
    &&& s.press_duration_ms <= MAX_TIMER_MS
    &&& s.release_delay_ms <= MAX_TIMER_MS
}

/// A configuration that survives being written and read back.
pub open spec fn savable(c: AppConfigView) -> bool {
    &&& c.slots.len() == SLOT_COUNT
    &&& forall|i: int| 0 <= i < SLOT_COUNT ==> savable_slot(#[trigger] c.slots[i])
}

/// Reading a text made of complete lines followed by more text is reading
/// the lines, then the rest.
pub proof fn lemma_parse_from_concat(x: Seq<char>, y: Seq<char>, c: AppConfigView)
    requires
        x.len() == 0 || x.last() == '\n',
    ensures
        parse_from(x + y, c) == (match parse_from(x, c) {
            Ok(c2) => parse_from(y, c2),
            Err(e) => Err(e),
        }),
    decreases x.len(),
{
    if x.len() == 0 {
        assert(x + y =~= y);
    } else {
        lemma_first_index_found(x, '\n');
        let k = first_index(x, '\n')->0 as int;
        let xy = x + y;
        assert forall|i: int| 0 <= i < k implies xy[i] != '\n' by {
            assert(xy[i] == x[i]);
        }
        lemma_first_index(xy, '\n', k);
        assert(xy.take(k) =~= x.take(k));
        let rest = x.skip(k + 1);
        assert(xy.skip(k + 1) =~= rest + y);
        if rest.len() > 0 {
            assert(rest.last() == x.last());
        }
        match parse_line(strip_cr(x.take(k)), c) {
            Ok(c2) => {
                lemma_parse_from_concat(rest, y, c2);
            },
            Err(e) => {},
        }
    }
}

/// One complete entry line means what its key and value mean.
pub proof fn lemma_parse_entry(k: Seq<char>, v: Seq<char>, c: AppConfigView)
    requires
        !has_char(k, '\n'),
        !has_char(k, '='),
        !has_char(v, '\n'),
        v.len() == 0 || v.last() != '\r',
    ensures
        parse_from(entry(k, v), c) == apply_entry(k, v, c),
        entry(k, v).last() == '\n',
{
    let line = k + seq!['='] + v;
    let e = entry(k, v);
    assert(e == line + seq!['\n']);
    assert forall|i: int| 0 <= i < line.len() implies e[i] != '\n' by {
        assert(e[i] == line[i]);
        if i < k.len() {
            assert(line[i] == k[i]);
        } else if i > k.len() {
            assert(line[i] == v[i - k.len() - 1]);
        }
    }
    lemma_first_index(e, '\n', line.len() as int);
    assert forall|c2: AppConfigView| parse_from(Seq::<char>::empty(), c2) == Ok::<AppConfigView, ConfigError>(c2) by {}
    assert(e.take(line.len() as int) =~= line);
    assert(e.skip(line.len() + 1int) =~= Seq::<char>::empty());
    assert(strip_cr(line) == line);
    assert forall|i: int| 0 <= i < k.len() implies line[i] != '=' by {
        assert(line[i] == k[i]);
    }
    lemma_first_index(line, '=', k.len() as int);
    assert(line.take(k.len() as int) =~= k);
    assert(line.skip(k.len() + 1int) =~= v);
    assert(parse_line(line, c) == apply_entry(k, v, c));
    assert(e.len() > 0);
    assert(parse_from(e, c) == (match parse_line(line, c) {
        Err(x) => Err(x),
        Ok(c2) => parse_from(Seq::<char>::empty(), c2),
    }));
}

/// Slot keys hold neither `=` nor a line feed.
pub proof fn lemma_slot_key_chars(i: nat, field: Seq<char>)
    requires
        !has_char(field, '='),
        !has_char(field, '\n'),
    ensures
        !has_char(slot_key(i, field), '='),
        !has_char(slot_key(i, field), '\n'),
{
    reveal_strlit("slot.");
    lemma_to_decimal_lacks(i, '=');
    lemma_to_decimal_lacks(i, '\n');
    let d = to_decimal(i);
    let k = slot_key(i, field);
    assert forall|j: int| 0 <= j < k.len() implies k[j] != '=' && k[j] != '\n' by {
        if j < 5 {
            assert(k[j] == "slot."@[j]);
        } else if j < 5 + d.len() {
            assert(k[j] == d[j - 5]);
        } else if j > 5 + d.len() {
            assert(k[j] == field[j - 6 - d.len()]);
        }
    }
}

/// The entry `slot.<i>.<field>=<v>` of an index in range changes that slot's field.
pub proof fn lemma_slot_entry(i: nat, field: Seq<char>, v: Seq<char>, c: AppConfigView)
    requires
        i < SLOT_COUNT,
    ensures
        apply_entry(slot_key(i, field), v, c) == apply_field(c, i as int, field, v),
{
    reveal_strlit("slot.");
    reveal_strlit("logging");
    reveal_strlit("input_mode");
    let k = slot_key(i, field);
    let d = to_decimal(i);
    lemma_to_decimal(i);
    assert(k[0] == 's');
    assert(k != "logging"@);
    assert(k != "input_mode"@);
    assert(k.take(5) =~= "slot."@);
    let rest = k.skip(5);
    assert(rest =~= d + seq!['.'] + field);
    lemma_to_decimal_lacks(i, '.');
    assert forall|j: int| 0 <= j < d.len() implies rest[j] != '.' by {
        assert(rest[j] == d[j]);
    }
    lemma_first_index(rest, '.', d.len() as int);
    assert(rest.take(d.len() as int) =~= d);
    assert(rest.skip(d.len() + 1int) =~= field);
    lemma_parse_to_decimal(i, usize::MAX as nat);
}

/// A slot entry line, read on its own.
pub proof fn lemma_slot_line(i: nat, field: Seq<char>, v: Seq<char>, c: AppConfigView)
    requires
        i < SLOT_COUNT,
        !has_char(field, '='),
        !has_char(field, '\n'),
        !has_char(v, '\n'),
        v.len() == 0 || v.last() != '\r',
    ensures
        parse_from(entry(slot_key(i, field), v), c) == apply_field(c, i as int, field, v),
        entry(slot_key(i, field), v).last() == '\n',
{
    lemma_slot_key_chars(i, field);
    lemma_parse_entry(slot_key(i, field), v, c);
    lemma_slot_entry(i, field, v, c);
}

/// A slot entry line `slot.<i>.<field>=<v>` of an index in range acts on
/// that slot's field.
proof fn lemma_slot_line_acts_on_field(i: nat, field: Seq<char>, v: Seq<char>, c: AppConfigView)
    requires
        i < SLOT_COUNT,
        !has_char(field, '='),
        !has_char(field, '\n'),
    ensures
        parse_line(slot_key(i, field) + seq!['='] + v, c) == apply_field(c, i as int, field, v),
{
    let k = slot_key(i, field);
    let line = k + seq!['='] + v;
    lemma_slot_key_chars(i, field);
    assert forall|j: int| 0 <= j < k.len() implies line[j] != '=' by {
        assert(line[j] == k[j]);
    }
    lemma_first_index(line, '=', k.len() as int);
    assert(line.take(k.len() as int) =~= k);
    assert(line.skip(k.len() + 1int) =~= v);
    lemma_slot_entry(i, field, v, c);
}

proof fn lemma_field_lengths()
    ensures
        "enabled"@.len() == 7,
        "key"@.len() == 3,
        "ctrl"@.len() == 4,
        "shift"@.len() == 5,
        "interval_ms"@.len() == 11,
        "press_duration_ms"@.len() == 17,
        "release_delay_ms"@.len() == 16,
        !has_char("enabled"@, '=') && !has_char("enabled"@, '\n'),
        !has_char("key"@, '=') && !has_char("key"@, '\n'),
        !has_char("ctrl"@, '=') && !has_char("ctrl"@, '\n'),
        !has_char("shift"@, '=') && !has_char("shift"@, '\n'),
        !has_char("interval_ms"@, '=') && !has_char("interval_ms"@, '\n'),
        !has_char("press_duration_ms"@, '=') && !has_char("press_duration_ms"@, '\n'),
        !has_char("release_delay_ms"@, '=') && !has_char("release_delay_ms"@, '\n'),
{
    reveal_strlit("enabled");
    reveal_strlit("key");
    reveal_strlit("ctrl");
    reveal_strlit("shift");
    reveal_strlit("interval_ms");
    reveal_strlit("press_duration_ms");
    reveal_strlit("release_delay_ms");
}

/// Slot `i` of `c` with `s` in its place, everything else unchanged.
pub open spec fn replace_slot(c: AppConfigView, i: nat, s: MacroSlotView) -> AppConfigView {
    AppConfigView { slots: c.slots.update(i as int, s), ..c }
}

/// Each timer entry of a slot sets the timer it names, and nothing else:
/// `slot.<i>.interval_ms=<t>` the interval, `slot.<i>.press_duration_ms=<t>`
/// the press duration, `slot.<i>.release_delay_ms=<t>` the release delay.
pub proof fn lemma_timer_entries_set_their_timer(i: nat, t: u64, c: AppConfigView)
    requires
        i < SLOT_COUNT,
        t <= MAX_TIMER_MS,
    ensures
        parse_line(slot_key(i, "interval_ms"@) + seq!['='] + to_decimal(t as nat), c)
            == Ok::<AppConfigView, ConfigError>(
            replace_slot(c, i, MacroSlotView { interval_ms: t, ..c.slots[i as int] }),
        ),
        parse_line(slot_key(i, "press_duration_ms"@) + seq!['='] + to_decimal(t as nat), c)
            == Ok::<AppConfigView, ConfigError>(
            replace_slot(c, i, MacroSlotView { press_duration_ms: t, ..c.slots[i as int] }),
        ),
        parse_line(slot_key(i, "release_delay_ms"@) + seq!['='] + to_decimal(t as nat), c)
            == Ok::<AppConfigView, ConfigError>(
            replace_slot(c, i, MacroSlotView { release_delay_ms: t, ..c.slots[i as int] }),
        ),
{
    lemma_field_lengths();
    lemma_parse_to_decimal(t as nat, u64::MAX as nat);
    let v = to_decimal(t as nat);
    lemma_slot_line_acts_on_field(i, "interval_ms"@, v, c);
    lemma_slot_line_acts_on_field(i, "press_duration_ms"@, v, c);
    lemma_slot_line_acts_on_field(i, "release_delay_ms"@, v, c);
}

/// The switch entry `slot.<i>.enabled=<b>` sets the slot's switch, and
/// nothing else.
pub proof fn lemma_enabled_entry_sets_switch(i: nat, b: bool, c: AppConfigView)
    requires
        i < SLOT_COUNT,
    ensures
        parse_line(slot_key(i, "enabled"@) + seq!['='] + bool_text(b), c) == Ok::<
            AppConfigView,
            ConfigError,
        >(replace_slot(c, i, MacroSlotView { enabled: b, ..c.slots[i as int] })),
{
    lemma_field_lengths();
    lemma_bool_text(b);
    lemma_slot_line_acts_on_field(i, "enabled"@, bool_text(b), c);
}

/// The key entry `slot.<i>.key=<l>` gives the slot the key `l` without
/// modifiers, or no key when `l` is empty, and changes nothing else.
pub proof fn lemma_key_entry_sets_key(i: nat, l: Seq<char>, c: AppConfigView)
    requires
        i < SLOT_COUNT,
    ensures
        parse_line(slot_key(i, "key"@) + seq!['='] + l, c) == Ok::<AppConfigView, ConfigError>(
            replace_slot(
                c,
                i,
                MacroSlotView {
                    key: if l.len() == 0 {
                        None
                    } else {
                        Some(KeyBindingView { label: l, ctrl: false, shift: false })
                    },
                    ..c.slots[i as int]
                },
            ),
        ),
{
    lemma_field_lengths();
    lemma_slot_line_acts_on_field(i, "key"@, l, c);
}

/// The modifier entries `slot.<i>.ctrl=<b>` and `slot.<i>.shift=<b>` set
/// that modifier of the slot's key, leave a slot without key as it is, and
/// change nothing else.
pub proof fn lemma_modifier_entries_set_their_modifier(i: nat, b: bool, c: AppConfigView)
    requires
        i < SLOT_COUNT,
    ensures
        parse_line(slot_key(i, "ctrl"@) + seq!['='] + bool_text(b), c) == Ok::<
            AppConfigView,
            ConfigError,
        >(
            replace_slot(
                c,
                i,
                MacroSlotView {
                    key: match c.slots[i as int].key {
                        Some(k) => Some(KeyBindingView { ctrl: b, ..k }),
                        None => None,
                    },
                    ..c.slots[i as int]
                },
            ),
        ),
        parse_line(slot_key(i, "shift"@) + seq!['='] + bool_text(b), c) == Ok::<
            AppConfigView,
            ConfigError,
        >(
            replace_slot(
                c,
                i,
                MacroSlotView {
                    key: match c.slots[i as int].key {
                        Some(k) => Some(KeyBindingView { shift: b, ..k }),
                        None => None,
                    },
                    ..c.slots[i as int]
                },
            ),
        ),
{
    lemma_field_lengths();
    lemma_bool_text(b);
    lemma_slot_line_acts_on_field(i, "ctrl"@, bool_text(b), c);
    lemma_slot_line_acts_on_field(i, "shift"@, bool_text(b), c);
}

/// Booleans are written so that they read back as themselves.
pub proof fn lemma_bool_text(b: bool)
    ensures
        spec_parse_bool(bool_text(b)) == Ok::<bool, ConfigError>(b),
        !has_char(bool_text(b), '\n'),
        bool_text(b).len() > 0,
        bool_text(b).last() != '\r',
{
    reveal_strlit("true");
    reveal_strlit("false");
    reveal_strlit("1");
    reveal_strlit("yes");
    reveal_strlit("y");
    reveal_strlit("0");
    reveal_strlit("no");
    reveal_strlit("n");
    let s = bool_text(b);
    assert(trim_start(s) == s);
    assert(trim_end(s) == s);
    assert(trim(s) == s);
    assert(ascii_lower(s) =~= s) by {
        assert forall|j: int| 0 <= j < s.len() implies lower_char(s[j]) == s[j] by {}
    }
}

/// Timers within range are written so that they read back as themselves.
pub proof fn lemma_timer_text(t: u64)
    requires
        t <= MAX_TIMER_MS,
    ensures
        spec_parse_timer(to_decimal(t as nat)) == Ok::<u64, ConfigError>(t),
        !has_char(to_decimal(t as nat), '\n'),
        to_decimal(t as nat).len() > 0,
        to_decimal(t as nat).last() != '\r',
{
    lemma_parse_to_decimal(t as nat, u64::MAX as nat);
    lemma_to_decimal(t as nat);
    lemma_to_decimal_lacks(t as nat, '\n');
    let d = to_decimal(t as nat);
    assert(is_digit(d[d.len() - 1]));
}

/// The field names of the format hold neither `=` nor a line feed.
proof fn lemma_field_names()
    ensures
        !has_char("enabled"@, '=') && !has_char("enabled"@, '\n'),
        !has_char("key"@, '=') && !has_char("key"@, '\n'),
        !has_char("ctrl"@, '=') && !has_char("ctrl"@, '\n'),
        !has_char("shift"@, '=') && !has_char("shift"@, '\n'),
        !has_char("interval_ms"@, '=') && !has_char("interval_ms"@, '\n'),
        !has_char("press_duration_ms"@, '=') && !has_char("press_duration_ms"@, '\n'),
        !has_char("release_delay_ms"@, '=') && !has_char("release_delay_ms"@, '\n'),
{
    reveal_strlit("enabled");
    reveal_strlit("key");
    reveal_strlit("ctrl");
    reveal_strlit("shift");
    reveal_strlit("interval_ms");
    reveal_strlit("press_duration_ms");
    reveal_strlit("release_delay_ms");
}

/// The lines of a slot's switch and key binding set exactly those settings.
proof fn lemma_slot_head(i: nat, s: MacroSlotView, c: AppConfigView)
    requires
        i < SLOT_COUNT,
        c.slots.len() == SLOT_COUNT,
        savable_slot(s),
    ensures
        parse_from(slot_head(i, s), c) == Ok::<AppConfigView, ConfigError>(
            c.with_slot(i as int, MacroSlotView { enabled: s.enabled, key: s.key, ..c.slots[i as int] }),
        ),
        slot_head(i, s).last() == '\n',
{
    reveal_strlit("enabled");
    reveal_strlit("key");
    reveal_strlit("ctrl");
    reveal_strlit("shift");
    reveal_strlit("interval_ms");
    reveal_strlit("press_duration_ms");
    reveal_strlit("release_delay_ms");
    lemma_field_names();
    let ii = i as int;
    let e1 = entry(slot_key(i, "enabled"@), bool_text(s.enabled));
    let e2 = entry(slot_key(i, "key"@), label_text(s.key));
    let e3 = entry(slot_key(i, "ctrl"@), bool_text(ctrl_of(s.key)));
    let e4 = entry(slot_key(i, "shift"@), bool_text(shift_of(s.key)));
    lemma_bool_text(s.enabled);
    lemma_bool_text(ctrl_of(s.key));
    lemma_bool_text(shift_of(s.key));
    let s0 = c.slots[ii];
    let c1 = c.with_slot(ii, MacroSlotView { enabled: s.enabled, ..s0 });
    lemma_slot_line(i, "enabled"@, bool_text(s.enabled), c);
    assert(parse_from(e1, c) == Ok::<AppConfigView, ConfigError>(c1));
    let k2 = match s.key {
        Some(k) => Some(KeyBindingView { label: k.label, ctrl: false, shift: false }),
        None => None,
    };
    let c2 = c1.with_slot(ii, MacroSlotView { key: k2, ..c1.slots[ii] });
    lemma_slot_line(i, "key"@, label_text(s.key), c1);
    assert(parse_from(e2, c1) == Ok::<AppConfigView, ConfigError>(c2));
    let k3 = match k2 {
        Some(k) => Some(KeyBindingView { ctrl: ctrl_of(s.key), ..k }),
        None => None,
    };
    let c3 = c2.with_slot(ii, MacroSlotView { key: k3, ..c2.slots[ii] });
    lemma_slot_line(i, "ctrl"@, bool_text(ctrl_of(s.key)), c2);
    assert(parse_from(e3, c2) == Ok::<AppConfigView, ConfigError>(c3));
    let k4 = match k3 {
        Some(k) => Some(KeyBindingView { shift: shift_of(s.key), ..k }),
        None => None,
    };
    let c4 = c3.with_slot(ii, MacroSlotView { key: k4, ..c3.slots[ii] });
    lemma_slot_line(i, "shift"@, bool_text(shift_of(s.key)), c3);
    assert(parse_from(e4, c3) == Ok::<AppConfigView, ConfigError>(c4));
    assert(k4 == s.key);
    lemma_parse_from_concat(e3, e4, c2);
    lemma_parse_from_concat(e2, e3 + e4, c1);
    lemma_parse_from_concat(e1, e2 + (e3 + e4), c);
    assert(c4.slots =~= c.slots.update(
        ii,
        MacroSlotView { enabled: s.enabled, key: s.key, ..c.slots[ii] },
    ));
}

/// The lines of a slot's timers set exactly those settings.
proof fn lemma_slot_timers(i: nat, s: MacroSlotView, c: AppConfigView)
    requires
        i < SLOT_COUNT,
        c.slots.len() == SLOT_COUNT,
        savable_slot(s),
    ensures
        parse_from(slot_timers(i, s), c) == Ok::<AppConfigView, ConfigError>(
            c.with_slot(
                i as int,
                MacroSlotView {
                    interval_ms: s.interval_ms,
                    press_duration_ms: s.press_duration_ms,
                    release_delay_ms: s.release_delay_ms,
                    ..c.slots[i as int]
                },
            ),
        ),
        slot_timers(i, s).last() == '\n',
{
    reveal_strlit("enabled");
    reveal_strlit("key");
    reveal_strlit("ctrl");
    reveal_strlit("shift");
    reveal_strlit("interval_ms");
    reveal_strlit("press_duration_ms");
    reveal_strlit("release_delay_ms");
    lemma_field_names();
    let ii = i as int;
    let e5 = entry(slot_key(i, "interval_ms"@), to_decimal(s.interval_ms as nat));
    let e6 = entry(slot_key(i, "press_duration_ms"@), to_decimal(s.press_duration_ms as nat));
    let e7 = entry(slot_key(i, "release_delay_ms"@), to_decimal(s.release_delay_ms as nat));
    lemma_timer_text(s.interval_ms);
    lemma_timer_text(s.press_duration_ms);
    lemma_timer_text(s.release_delay_ms);
    let c5 = c.with_slot(ii, MacroSlotView { interval_ms: s.interval_ms, ..c.slots[ii] });
    lemma_slot_line(i, "interval_ms"@, to_decimal(s.interval_ms as nat), c);
    assert(parse_from(e5, c) == Ok::<AppConfigView, ConfigError>(c5));
    let c6 = c5.with_slot(ii, MacroSlotView { press_duration_ms: s.press_duration_ms, ..c5.slots[ii] });
    lemma_slot_line(i, "press_duration_ms"@, to_decimal(s.press_duration_ms as nat), c5);
    assert(parse_from(e6, c5) == Ok::<AppConfigView, ConfigError>(c6));
    let c7 = c6.with_slot(ii, MacroSlotView { release_delay_ms: s.release_delay_ms, ..c6.slots[ii] });
    lemma_slot_line(i, "release_delay_ms"@, to_decimal(s.release_delay_ms as nat), c6);
    assert(parse_from(e7, c6) == Ok::<AppConfigView, ConfigError>(c7));
    lemma_parse_from_concat(e6, e7, c5);
    lemma_parse_from_concat(e5, e6 + e7, c);
    assert(c7.slots =~= c.slots.update(
        ii,
        MacroSlotView {
            interval_ms: s.interval_ms,
            press_duration_ms: s.press_duration_ms,
            release_delay_ms: s.release_delay_ms,
            ..c.slots[ii]
        },
    ));
}

/// The seven lines of a slot set that slot to exactly what was written.
pub proof fn lemma_slot_text(i: nat, s: MacroSlotView, c: AppConfigView)
    requires
        i < SLOT_COUNT,
        c.slots.len() == SLOT_COUNT,
        savable_slot(s),
    ensures
        parse_from(slot_text(i, s), c) == Ok::<AppConfigView, ConfigError>(c.with_slot(i as int, s)),
        slot_text(i, s).last() == '\n',
{
    let ii = i as int;
    reveal(slot_text);
    lemma_slot_head(i, s, c);
    let ch = c.with_slot(ii, MacroSlotView { enabled: s.enabled, key: s.key, ..c.slots[ii] });
    lemma_slot_timers(i, s, ch);
    lemma_parse_from_concat(slot_head(i, s), slot_timers(i, s), c);
    let ct = ch.with_slot(
        ii,
        MacroSlotView {
            interval_ms: s.interval_ms,
            press_duration_ms: s.press_duration_ms,
            release_delay_ms: s.release_delay_ms,
            ..ch.slots[ii]
        },
    );
    assert(ct.slots =~= c.slots.update(ii, s));
}

/// The lines of the first `n` slots of `t` set those slots to what was written.
pub proof fn lemma_slots_text(t: Seq<MacroSlotView>, n: nat, c: AppConfigView)
    requires
        n <= SLOT_COUNT,
        t.len() == SLOT_COUNT,
        c.slots.len() == SLOT_COUNT,
        forall|j: int| 0 <= j < n ==> savable_slot(#[trigger] t[j]),
    ensures
        parse_from(slots_text(t, n), c) == Ok::<AppConfigView, ConfigError>(
            AppConfigView {
                slots: Seq::new(SLOT_COUNT as nat, |j: int| if j < n { t[j] } else { c.slots[j] }),
                ..c
            },
        ),
        slots_text(t, n).len() == 0 || slots_text(t, n).last() == '\n',
    decreases n,
{
    if n == 0 {
        assert(c.slots =~= Seq::new(SLOT_COUNT as nat, |j: int| if j < n { t[j] } else { c.slots[j] }));
    } else {
        let m = (n - 1) as nat;
        lemma_slots_text(t, m, c);
        let cm = AppConfigView {
            slots: Seq::new(SLOT_COUNT as nat, |j: int| if j < m { t[j] } else { c.slots[j] }),
            ..c
        };
        lemma_slot_text(m, t[m as int], cm);
        lemma_parse_from_concat(slots_text(t, m), slot_text(m, t[m as int]), c);
        assert(cm.with_slot(m as int, t[m as int]).slots =~= Seq::new(
            SLOT_COUNT as nat,
            |j: int| if j < n { t[j] } else { c.slots[j] },
        ));
    }
}

/// Reading back a saved configuration gives the configuration that was saved,
/// for every configuration whose key labels and timers can be saved.
pub proof fn lemma_serialize_parse_round_trip(c: AppConfigView)
    requires
        savable(c),
    ensures
        spec_parse(spec_serialize(c)) == Ok::<AppConfigView, ConfigError>(c),
{
    reveal_strlit("version");
    reveal_strlit("1");
    reveal_strlit("logging");
    reveal_strlit("input_mode");
    reveal_strlit("slot.");
    reveal_strlit("virtual-key");
    reveal_strlit("scan-code");
    let d = default_config();
    let h1 = entry("version"@, "1"@);
    let h2 = entry("logging"@, bool_text(c.logging));
    let h3 = entry("input_mode"@, mode_text(c.input_mode));
    let body = slots_text(c.slots, c.slots.len());
    lemma_bool_text(c.logging);
    assert("version"@ != "logging"@ && "version"@ != "input_mode"@);
    assert("version"@.take(5) != "slot."@) by {
        assert("version"@.take(5)[0] != "slot."@[0]);
    }
    lemma_parse_entry("version"@, "1"@, d);
    assert(parse_from(h1, d) == Ok::<AppConfigView, ConfigError>(d));
    lemma_parse_entry("logging"@, bool_text(c.logging), d);
    let d2 = AppConfigView { logging: c.logging, ..d };
    assert(parse_from(h2, d) == Ok::<AppConfigView, ConfigError>(d2));
    assert("input_mode"@ != "logging"@);
    assert("virtual-key"@ != "scan-code"@);
    lemma_parse_entry("input_mode"@, mode_text(c.input_mode), d2);
    let d3 = AppConfigView { input_mode: c.input_mode, ..d2 };
    assert(parse_from(h3, d2) == Ok::<AppConfigView, ConfigError>(d3));
    assert forall|j: int| 0 <= j < SLOT_COUNT implies savable_slot(#[trigger] c.slots[j]) by {}
    lemma_slots_text(c.slots, SLOT_COUNT as nat, d3);
    lemma_parse_from_concat(h3, body, d2);
    lemma_parse_from_concat(h2, h3 + body, d);
    lemma_parse_from_concat(h1, h2 + (h3 + body), d);
    assert(c.slots =~= Seq::new(
        SLOT_COUNT as nat,
        |j: int| if j < SLOT_COUNT { c.slots[j] } else { d3.slots[j] },
    ));
}

// ---------------------------------------------------------------------------
// When reading fails, and what a read configuration holds
// ---------------------------------------------------------------------------

/// The lines of a text as `str::lines` yields them.
pub open spec fn text_lines(rest: Seq<char>) -> Seq<Seq<char>>
    decreases rest.len(),
{
    if rest.len() == 0 {
        Seq::empty()
    } else {
        match first_index(rest, '\n') {
            None => seq![rest],
            Some(k) => {
                proof {
                    lemma_first_index_found(rest, '\n');
                }
                seq![strip_cr(rest.take(k as int))] + text_lines(rest.skip(k + 1int))
            },
        }
    }
}

pub open spec fn bool_error(v: Seq<char>) -> Option<ConfigError> {
    match spec_parse_bool(v) {
        Ok(_) => None,
        Err(e) => Some(e),
    }
}

pub open spec fn timer_error(v: Seq<char>) -> Option<ConfigError> {
    match spec_parse_timer(v) {
        Ok(_) => None,
        Err(e) => Some(e),
    }
}

/// The error of the value `v` of slot field `field`: switches and modifiers
/// must be booleans, the three timers must be timers, other fields are free.
pub open spec fn field_error(field: Seq<char>, v: Seq<char>) -> Option<ConfigError> {
    if field == "enabled"@ || field == "ctrl"@ || field == "shift"@ {
        bool_error(v)
    } else if field == "interval_ms"@ || field == "press_duration_ms"@ || field
        == "release_delay_ms"@ {
        timer_error(v)
    } else {
        None
    }
}

/// The error of the entry `<k>=<v>`: `logging` needs a boolean, `input_mode`
/// one of its two names, and `slot.<i>.<field>` an index `i` below 8 and a
/// value that suits the field.
pub open spec fn entry_error(k: Seq<char>, v: Seq<char>) -> Option<ConfigError> {
    if k == "logging"@ {
        bool_error(v)
    } else if k == "input_mode"@ {
        if v == "scan-code"@ || v == "virtual-key"@ {
            None
        } else {
            Some(ConfigError::InvalidInputMode)
        }
    } else if k.len() >= 5 && k.take(5) == "slot."@ {
        let rest = k.skip(5);
        match first_index(rest, '.') {
            None => None,
            Some(d) => match parse_unsigned(rest.take(d as int), usize::MAX as nat) {
                None => Some(
                    ConfigError::InvalidSlotIndex(
                        spec_number_error(rest.take(d as int), usize::MAX as nat),
                    ),
                ),
                Some(i) => if i >= SLOT_COUNT {
                    Some(ConfigError::SlotIndexOutOfRange)
                } else {
                    field_error(rest.skip(d + 1int), v)
                },
            },
        }
    } else {
        None
    }
}

/// The error of one line: that of its entry, split at the first `=`; a line
/// without `=` has none.
pub open spec fn line_error(line: Seq<char>) -> Option<ConfigError> {
    match first_index(line, '=') {
        None => None,
        Some(e) => entry_error(line.take(e as int), line.skip(e + 1int)),
    }
}

/// The error of the first line that has one.
pub open spec fn first_error(lines: Seq<Seq<char>>) -> Option<ConfigError>
    decreases lines.len(),
{
    if lines.len() == 0 {
        None
    } else {
        match line_error(lines[0]) {
            Some(e) => Some(e),
            None => first_error(lines.drop_first()),
        }
    }
}

proof fn lemma_apply_field_error(c: AppConfigView, i: int, field: Seq<char>, v: Seq<char>)
    ensures
        match field_error(field, v) {
            Some(e) => apply_field(c, i, field, v) == Err::<AppConfigView, ConfigError>(e),
            None => apply_field(c, i, field, v) is Ok,
        },
{
    reveal_strlit("enabled");
    reveal_strlit("key");
    reveal_strlit("ctrl");
    reveal_strlit("shift");
    reveal_strlit("interval_ms");
    reveal_strlit("press_duration_ms");
    reveal_strlit("release_delay_ms");
    assert("enabled"@.len() == 7 && "key"@.len() == 3 && "ctrl"@.len() == 4);
    assert("shift"@.len() == 5 && "interval_ms"@.len() == 11);
    assert("press_duration_ms"@.len() == 17 && "release_delay_ms"@.len() == 16);
}

proof fn lemma_apply_entry_error(k: Seq<char>, v: Seq<char>, c: AppConfigView)
    ensures
        match entry_error(k, v) {
            Some(e) => apply_entry(k, v, c) == Err::<AppConfigView, ConfigError>(e),
            None => apply_entry(k, v, c) is Ok,
        },
{
    if k == "logging"@ {
    } else if k == "input_mode"@ {
    } else if k.len() >= 5 && k.take(5) == "slot."@ {
        let rest = k.skip(5);
        match first_index(rest, '.') {
            None => {},
            Some(d) => match parse_unsigned(rest.take(d as int), usize::MAX as nat) {
                None => {},
                Some(i) => if i < SLOT_COUNT {
                    lemma_apply_field_error(c, i as int, rest.skip(d + 1int), v);
                },
            },
        }
    }
}

/// Whether a line fails does not depend on the configuration it applies to.
pub proof fn lemma_parse_line_error(line: Seq<char>, c: AppConfigView)
    ensures
        match line_error(line) {
            Some(e) => parse_line(line, c) == Err::<AppConfigView, ConfigError>(e),
            None => parse_line(line, c) is Ok,
        },
{
    match first_index(line, '=') {
        None => {},
        Some(e) => {
            lemma_apply_entry_error(line.take(e as int), line.skip(e + 1int), c);
        },
    }
}

/// Reading a text fails with the error of its first failing line, and
/// succeeds when no line fails.
pub proof fn lemma_parse_from_error(rest: Seq<char>, c: AppConfigView)
    ensures
        match first_error(text_lines(rest)) {
            Some(e) => parse_from(rest, c) == Err::<AppConfigView, ConfigError>(e),
            None => parse_from(rest, c) is Ok,
        },
    decreases rest.len(),
{
    if rest.len() > 0 {
        lemma_first_index_found(rest, '\n');
        match first_index(rest, '\n') {
            None => {
                lemma_parse_line_error(rest, c);
                assert(text_lines(rest) == seq![rest]);
                assert(seq![rest].drop_first() =~= Seq::<Seq<char>>::empty());
                assert(first_error(Seq::<Seq<char>>::empty()) is None);
                assert(first_error(seq![rest]) == match line_error(rest) {
                    Some(e) => Some(e),
                    None => first_error(Seq::<Seq<char>>::empty()),
                });
            },
            Some(k) => {
                let line = strip_cr(rest.take(k as int));
                let tail = rest.skip(k + 1int);
                lemma_parse_line_error(line, c);
                let ls = text_lines(rest);
                assert(ls == seq![line] + text_lines(tail));
                assert(ls.drop_first() =~= text_lines(tail));
                assert(parse_from(rest, c) == match parse_line(line, c) {
                    Err(e) => Err(e),
                    Ok(c2) => parse_from(tail, c2),
                });
                assert(first_error(ls) == match line_error(line) {
                    Some(e) => Some(e),
                    None => first_error(text_lines(tail)),
                });
                match parse_line(line, c) {
                    Ok(c2) => {
                        lemma_parse_from_error(tail, c2);
                    },
                    Err(_) => {},
                }
            },
        }
    }
}

/// `first_error` finds an error exactly when some line has one.
pub proof fn lemma_first_error_exists(lines: Seq<Seq<char>>)
    ensures
        first_error(lines) is Some <==> exists|j: int|
            0 <= j < lines.len() && #[trigger] line_error(lines[j]) is Some,
    decreases lines.len(),
{
    if lines.len() > 0 {
        lemma_first_error_exists(lines.drop_first());
        if line_error(lines[0]) is None {
            if exists|j: int| 0 <= j < lines.len() && #[trigger] line_error(lines[j]) is Some {
                let j = choose|j: int| 0 <= j < lines.len() && #[trigger] line_error(lines[j]) is Some;
                assert(lines.drop_first()[j - 1] == lines[j]);
            }
            if first_error(lines.drop_first()) is Some {
                let j = choose|j: int|
                    0 <= j < lines.len() - 1 && #[trigger] line_error(lines.drop_first()[j]) is Some;
                assert(line_error(lines[j + 1]) is Some);
            }
        } else {
            assert(line_error(lines[0]) is Some);
        }
    }
}

/// Reading a configuration text fails exactly when one of its lines fails:
/// a `logging` value that is no boolean, an `input_mode` value that is
/// neither `scan-code` nor `virtual-key`, or a `slot.<i>.<field>` entry
/// whose index is no number or not below 8, or whose switch, modifier or
/// timer value is malformed. The error is that of the first such line.
pub proof fn lemma_parse_fails_iff(text: Seq<char>)
    ensures
        spec_parse(text) is Err <==> exists|j: int|
            0 <= j < text_lines(text).len() && #[trigger] line_error(text_lines(text)[j]) is Some,
        spec_parse(text) matches Err(e) ==> first_error(text_lines(text)) == Some(e),
{
    lemma_parse_from_error(text, default_config());
    lemma_first_error_exists(text_lines(text));
}

/// What every configuration that reading produces holds: eight slots,
/// timers of at most one day, and key labels that are not empty and hold
/// no line feed.
pub open spec fn parsed_invariant(c: AppConfigView) -> bool {
    &&& c.slots.len() == SLOT_COUNT
    &&& forall|i: int|
        0 <= i < SLOT_COUNT ==> {
            let s = #[trigger] c.slots[i];
            &&& s.interval_ms <= MAX_TIMER_MS
            &&& s.press_duration_ms <= MAX_TIMER_MS
            &&& s.release_delay_ms <= MAX_TIMER_MS
            &&& (s.key matches Some(k) ==> k.label.len() > 0 && !has_char(k.label, '\n'))
        }
}

proof fn lemma_parse_line_keeps_invariant(line: Seq<char>, c: AppConfigView)
    requires
        parsed_invariant(c),
        !has_char(line, '\n'),
    ensures
        parse_line(line, c) matches Ok(c2) ==> parsed_invariant(c2),
{
    reveal_strlit("enabled");
    reveal_strlit("key");
    reveal_strlit("ctrl");
    reveal_strlit("shift");
    reveal_strlit("interval_ms");
    reveal_strlit("press_duration_ms");
    reveal_strlit("release_delay_ms");
    lemma_first_index_found(line, '=');
    match first_index(line, '=') {
        None => {},
        Some(e) => {
            let v = line.skip(e + 1int);
            assert forall|j: int| 0 <= j < v.len() implies v[j] != '\n' by {
                assert(v[j] == line[e + 1 + j]);
            }
            match parse_line(line, c) {
                Ok(c2) => {
                    assert forall|i: int| 0 <= i < SLOT_COUNT implies {
                        let s = #[trigger] c2.slots[i];
                        &&& s.interval_ms <= MAX_TIMER_MS
                        &&& s.press_duration_ms <= MAX_TIMER_MS
                        &&& s.release_delay_ms <= MAX_TIMER_MS
                        &&& (s.key matches Some(k) ==> k.label.len() > 0 && !has_char(
                            k.label,
                            '\n',
                        ))
                    } by {
                        assert(c.slots[i] == c.slots[i]);
                    }
                },
                Err(_) => {},
            }
        },
    }
}

proof fn lemma_parse_from_keeps_invariant(rest: Seq<char>, c: AppConfigView)
    requires
        parsed_invariant(c),
    ensures
        parse_from(rest, c) matches Ok(c2) ==> parsed_invariant(c2),
    decreases rest.len(),
{
    if rest.len() > 0 {
        lemma_first_index_found(rest, '\n');
        match first_index(rest, '\n') {
            None => {
                lemma_parse_line_keeps_invariant(rest, c);
            },
            Some(k) => {
                let raw = rest.take(k as int);
                let line = strip_cr(raw);
                assert forall|j: int| 0 <= j < line.len() implies line[j] != '\n' by {
                    assert(line[j] == rest[j]);
                }
                lemma_parse_line_keeps_invariant(line, c);
                match parse_line(line, c) {
                    Ok(c2) => {
                        lemma_parse_from_keeps_invariant(rest.skip(k + 1int), c2);
                    },
                    Err(_) => {},
                }
            },
        }
    }
}

/// Every configuration that reading produces has eight slots, timers of at
/// most one day, and key labels that are not empty and hold no line feed.
pub proof fn lemma_parsed_configuration_is_valid(text: Seq<char>)
    ensures
        spec_parse(text) matches Ok(c) ==> parsed_invariant(c),
{
    lemma_parse_from_keeps_invariant(text, default_config());
}

} // verus!
