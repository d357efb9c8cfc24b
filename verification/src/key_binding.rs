//! Key binding text such as `Ctrl + Shift + A`: the `+`-separated parts and
//! the modifier words that may lead them.
use vstd::prelude::*;
use crate::text::{
    ascii_lower, find_char, first_index, has_char, lemma_first_index, lemma_first_index_found,
    lower_span_is, trim, trim_bounds, trim_end, trim_start,
};

verus! {

broadcast use vstd::string::group_string_axioms;

/// `s.split('+')`: the parts between the `+` signs; always at least one.
pub open spec fn split_plus(s: Seq<char>) -> Seq<Seq<char>>
    decreases s.len(),
{
    match first_index(s, '+') {
        None => seq![s],
        Some(k) => {
            proof {
                lemma_first_index_found(s, '+');
            }
            seq![s.take(k as int)] + split_plus(s.skip(k + 1int))
        },
    }
}

/// `parts.join("+")`.
pub open spec fn join_plus(parts: Seq<Seq<char>>) -> Seq<char>
    decreases parts.len(),
{
    if parts.len() == 0 {
        Seq::empty()
    } else if parts.len() == 1 {
        parts[0]
    } else {
        parts[0] + seq!['+'] + join_plus(parts.drop_first())
    }
}

/// Every part trimmed.
pub open spec fn trim_all(parts: Seq<Seq<char>>) -> Seq<Seq<char>> {
    parts.map_values(|p: Seq<char>| trim(p))
}

/// A part that names the Ctrl modifier, in any letter case.
pub open spec fn is_ctrl_word(p: Seq<char>) -> bool {
    ascii_lower(trim(p)) == "ctrl"@ || ascii_lower(trim(p)) == "control"@
}

/// A part that names the Shift modifier, in any letter case.
pub open spec fn is_shift_word(p: Seq<char>) -> bool {
    ascii_lower(trim(p)) == "shift"@
}

/// Removes the modifier words that lead `parts`, noting which were seen.
pub open spec fn strip_modifiers(parts: Seq<Seq<char>>, ctrl: bool, shift: bool) -> (
    Seq<Seq<char>>,
    bool,
    bool,
)
    decreases parts.len(),
{
    if parts.len() == 0 {
        (parts, ctrl, shift)
    } else if is_ctrl_word(parts[0]) {
        strip_modifiers(parts.drop_first(), true, shift)
    } else if is_shift_word(parts[0]) {
        strip_modifiers(parts.drop_first(), ctrl, true)
    } else {
        (parts, ctrl, shift)
    }
}

/// Splitting at the first `+`.
pub proof fn lemma_split_plus_step(s: Seq<char>)
    ensures
        split_plus(s).len() > 0,
        first_index(s, '+') is None ==> split_plus(s) == seq![s],
        first_index(s, '+') matches Some(k) ==> split_plus(s) == seq![s.take(k as int)]
            + split_plus(s.skip(k + 1int)),
    decreases s.len(),
{
    lemma_first_index_found(s, '+');
}

/// Joining the parts of a text gives the text back.
pub proof fn lemma_join_split(s: Seq<char>)
    ensures
        join_plus(split_plus(s)) == s,
    decreases s.len(),
{
    lemma_first_index_found(s, '+');
    match first_index(s, '+') {
        None => {},
        Some(k) => {
            let rest = s.skip(k + 1int);
            lemma_join_split(rest);
            lemma_split_plus_step(rest);
            let parts = split_plus(s);
            assert(parts.drop_first() =~= split_plus(rest));
            assert(s =~= s.take(k as int) + seq!['+'] + rest);
        },
    }
}

/// The parts of `a + "+" + b` are the parts of `a` followed by those of `b`,
/// when `a` holds no `+`.
pub proof fn lemma_split_plus_concat(a: Seq<char>, b: Seq<char>)
    requires
        forall|i: int| 0 <= i < a.len() ==> a[i] != '+',
    ensures
        split_plus(a + seq!['+'] + b) == seq![a] + split_plus(b),
{
    let s = a + seq!['+'] + b;
    crate::text::lemma_first_index(s, '+', a.len() as int);
    assert(s.take(a.len() as int) =~= a);
    assert(s.skip(a.len() + 1int) =~= b);
}

/// `Ctrl` names the Ctrl modifier and `Shift` the Shift modifier, and
/// neither holds a `+`.
pub proof fn lemma_modifier_words()
    ensures
        is_ctrl_word("Ctrl"@),
        !is_shift_word("Ctrl"@),
        is_shift_word("Shift"@),
        !is_ctrl_word("Shift"@),
        forall|i: int| 0 <= i < "Ctrl"@.len() ==> "Ctrl"@[i] != '+',
        forall|i: int| 0 <= i < "Shift"@.len() ==> "Shift"@[i] != '+',
{
    reveal_strlit("Ctrl");
    reveal_strlit("Shift");
    reveal_strlit("ctrl");
    reveal_strlit("control");
    reveal_strlit("shift");
    let c = "Ctrl"@;
    let s = "Shift"@;
    assert(trim_start(c) == c);
    assert(trim_end(c) == c);
    assert(trim_start(s) == s);
    assert(trim_end(s) == s);
    assert(ascii_lower(trim(c)) =~= "ctrl"@);
    assert(ascii_lower(trim(s)) =~= "shift"@);
}

/// The parts of `m + "+" + rest` for a modifier name `m`.
proof fn lemma_split_after_modifier(m: Seq<char>, rest: Seq<char>)
    requires
        m == "Ctrl"@ || m == "Shift"@,
    ensures
        split_plus(m + seq!['+'] + rest) == seq![m] + split_plus(rest),
{
    lemma_modifier_words();
    lemma_split_plus_concat(m, rest);
}

/// Leading modifier words are taken off in any order: the parts of
/// `Shift+Ctrl+<l>` and of `Ctrl+Shift+<l>`, for a label `l` that holds no
/// `+` and is no modifier word, leave `l` alone with both modifiers seen,
/// whatever was seen before.
pub proof fn lemma_modifiers_in_any_order(l: Seq<char>, ctrl: bool, shift: bool)
    requires
        !has_char(l, '+'),
        !is_ctrl_word(l),
        !is_shift_word(l),
    ensures
        strip_modifiers(split_plus("Shift"@ + seq!['+'] + "Ctrl"@ + seq!['+'] + l), ctrl, shift)
            == (seq![l], true, true),
        strip_modifiers(split_plus("Ctrl"@ + seq!['+'] + "Shift"@ + seq!['+'] + l), ctrl, shift)
            == (seq![l], true, true),
{
    lemma_modifier_words();
    lemma_first_index(l, '+', l.len() as int);
    assert(split_plus(l) == seq![l]);
    let sc = "Shift"@ + seq!['+'] + "Ctrl"@ + seq!['+'] + l;
    let cs = "Ctrl"@ + seq!['+'] + "Shift"@ + seq!['+'] + l;
    lemma_split_after_modifier("Ctrl"@, l);
    lemma_split_after_modifier("Shift"@, l);
    lemma_split_after_modifier("Shift"@, "Ctrl"@ + seq!['+'] + l);
    lemma_split_after_modifier("Ctrl"@, "Shift"@ + seq!['+'] + l);
    assert(sc =~= "Shift"@ + seq!['+'] + ("Ctrl"@ + seq!['+'] + l));
    assert(cs =~= "Ctrl"@ + seq!['+'] + ("Shift"@ + seq!['+'] + l));
    let p1 = seq!["Shift"@, "Ctrl"@, l];
    let p2 = seq!["Ctrl"@, "Shift"@, l];
    assert(split_plus(sc) =~= p1);
    assert(split_plus(cs) =~= p2);
    assert(p1.drop_first() =~= seq!["Ctrl"@, l]);
    assert(p2.drop_first() =~= seq!["Shift"@, l]);
    assert(seq!["Ctrl"@, l].drop_first() =~= seq![l]);
    assert(seq!["Shift"@, l].drop_first() =~= seq![l]);
    assert(seq![l][0] == l);
    assert(strip_modifiers(seq![l], true, true) == (seq![l], true, true));
    assert(seq!["Ctrl"@, l][0] == "Ctrl"@);
    assert(strip_modifiers(seq!["Ctrl"@, l], ctrl, true) == (seq![l], true, true));
    assert(strip_modifiers(p1, ctrl, shift) == strip_modifiers(seq!["Ctrl"@, l], ctrl, true));
    assert(seq!["Shift"@, l][0] == "Shift"@);
    assert(strip_modifiers(seq!["Shift"@, l], true, shift) == (seq![l], true, true));
    assert(strip_modifiers(p2, ctrl, shift) == strip_modifiers(seq!["Shift"@, l], true, shift));
}

/// The result of stripping the modifiers from the parts of `v[lo..hi]`,
/// starting from `ctrl` and `shift`: the position where the remaining parts
/// start (or `None` when no part remains) and the modifiers seen.
pub fn strip_modifier_parts(v: &Vec<char>, lo: usize, hi: usize, ctrl: bool, shift: bool) -> (r: (
    Option<usize>,
    bool,
    bool,
))
    requires
        lo <= hi <= v@.len(),
    ensures
        r.0 matches Some(p) ==> lo <= p <= hi && strip_modifiers(
            split_plus(v@.subrange(lo as int, hi as int)),
            ctrl,
            shift,
        ) == (split_plus(v@.subrange(p as int, hi as int)), r.1, r.2),
        r.0 is None ==> strip_modifiers(split_plus(v@.subrange(lo as int, hi as int)), ctrl, shift)
            == (Seq::<Seq<char>>::empty(), r.1, r.2),
{
    let ghost target = strip_modifiers(split_plus(v@.subrange(lo as int, hi as int)), ctrl, shift);
    let mut p = lo;
    let mut c = ctrl;
    let mut s = shift;
    loop
        invariant
            lo <= p <= hi <= v@.len(),
            target == strip_modifiers(split_plus(v@.subrange(lo as int, hi as int)), ctrl, shift),
            target == strip_modifiers(split_plus(v@.subrange(p as int, hi as int)), c, s),
        decreases hi - p,
    {
        let ghost part_text = v@.subrange(p as int, hi as int);
        let q = find_char(v, p, hi, '+');
        let (a, b) = trim_bounds(v, p, q);
        proof {
            lemma_split_plus_step(part_text);
            if q < hi {
                assert(part_text.take(q - p) =~= v@.subrange(p as int, q as int));
                assert(part_text.skip(q - p + 1) =~= v@.subrange(q + 1, hi as int));
            } else {
                assert(part_text =~= v@.subrange(p as int, q as int));
            }
        }
        let ghost parts = split_plus(part_text);
        assert(parts[0] == v@.subrange(p as int, q as int));
        let is_ctrl = lower_span_is(v, a, b, "ctrl") || lower_span_is(v, a, b, "control");
        let is_shift = !is_ctrl && lower_span_is(v, a, b, "shift");
        if is_ctrl || is_shift {
            if is_ctrl {
                c = true;
            } else {
                s = true;
            }
            if q == hi {
                assert(parts.drop_first() =~= Seq::<Seq<char>>::empty());
                assert(strip_modifiers(parts.drop_first(), c, s) == (
                    Seq::<Seq<char>>::empty(),
                    c,
                    s,
                ));
                return (None, c, s);
            }
            assert(parts.drop_first() =~= split_plus(v@.subrange(q + 1, hi as int)));
            p = q + 1;
        } else {
            return (Some(p), c, s);
        }
    }
}

} // verus!
