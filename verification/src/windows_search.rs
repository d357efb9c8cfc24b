//! Recognising the windows the program looks for among the top-level
//! windows: the On-Screen Keyboard, and the text editor it types into.
use vstd::prelude::*;
use crate::text::{ascii_lower, chars_of, lower};

verus! {

broadcast use vstd::string::group_string_axioms;

/// `needle` occurs in `hay` at position `i`.
pub open spec fn occurs_at<T>(hay: Seq<T>, needle: Seq<T>, i: int) -> bool {
    0 <= i && i + needle.len() <= hay.len() && hay.subrange(i, i + needle.len()) == needle
}

/// `needle` occurs somewhere in `hay` (`str::contains` for text).
pub open spec fn contains<T>(hay: Seq<T>, needle: Seq<T>) -> bool {
    exists|i: int| occurs_at(hay, needle, i)
}

/// An On-Screen Keyboard window: its class is `OSKMainClass`, or its title
/// contains `On-Screen Keyboard` in any letter case.
pub open spec fn spec_is_osk_window(class_name: Seq<char>, title: Seq<char>) -> bool {
    class_name == "OSKMainClass"@ || contains(ascii_lower(title), ascii_lower("On-Screen Keyboard"@))
}

/// A window that `find_window(title, class)` accepts: its class is exactly
/// `class`, or its title contains `title` (as UTF-16 code units).
pub open spec fn spec_window_matches(
    class_units: Seq<u16>,
    title_units: Seq<u16>,
    want_class: Seq<u16>,
    want_title: Seq<u16>,
) -> bool {
    class_units == want_class || contains(title_units, want_title)
}

fn lowered_chars(s: &str) -> (r: Vec<char>)
    ensures
        r@ == ascii_lower(s@),
{
    let v = chars_of(s);
    let mut r: Vec<char> = Vec::new();
    let mut i: usize = 0;
    while i < v.len()
        invariant
            i <= v@.len(),
            v@ == s@,
            r@ == ascii_lower(v@.take(i as int)),
        decreases v@.len() - i,
    {
        r.push(lower(v[i]));
        i += 1;
        assert(r@ =~= ascii_lower(v@.take(i as int)));
    }
    assert(v@.take(v@.len() as int) =~= v@);
    r
}

fn chars_occur_at(hay: &Vec<char>, needle: &Vec<char>, i: usize) -> (b: bool)
    requires
        i + needle@.len() <= hay@.len(),
    ensures
        b == occurs_at(hay@, needle@, i as int),
{
    let hl = hay.len();
    let mut j: usize = 0;
    while j < needle.len()
        invariant
            hl == hay@.len(),
            i + needle@.len() <= hay@.len(),
            j <= needle@.len(),
            forall|k: int| 0 <= k < j ==> hay@[i + k] == needle@[k],
        decreases needle@.len() - j,
    {
        if hay[i + j] != needle[j] {
            assert(hay@.subrange(i as int, i + needle@.len())[j as int] != needle@[j as int]);
            return false;
        }
        j += 1;
    }
    assert(hay@.subrange(i as int, i + needle@.len()) =~= needle@);
    true
}

fn chars_contain(hay: &Vec<char>, needle: &Vec<char>) -> (b: bool)
    ensures
        b == contains(hay@, needle@),
{
    if needle.len() > hay.len() {
        return false;
    }
    let last = hay.len() - needle.len();
    let mut i: usize = 0;
    loop
        invariant
            i <= last,
            last + needle@.len() == hay@.len(),
            forall|k: int| 0 <= k < i ==> !occurs_at(hay@, needle@, k),
        decreases last - i,
    {
        if chars_occur_at(hay, needle, i) {
            return true;
        }
        if i == last {
            assert forall|k: int| !occurs_at(hay@, needle@, k) by {
                if 0 <= k <= last {
                    assert(k < i || k == i);
                }
            }
            return false;
        }
        i += 1;
    }
}

/// Whether a window with this class name and title is an On-Screen Keyboard.
pub fn is_osk_window(class_name: &str, title: &str) -> (b: bool)
    ensures
        b == spec_is_osk_window(class_name@, title@),
{
    let c = chars_of(class_name);
    let want = chars_of("OSKMainClass");
    if c.len() == want.len() && chars_occur_at(&c, &want, 0) {
        assert(c@.subrange(0, c@.len() as int) =~= c@);
        return true;
    }
    assert(c@.len() == want@.len() ==> c@.subrange(0, c@.len() as int) =~= c@);
    let t = lowered_chars(title);
    let k = lowered_chars("On-Screen Keyboard");
    chars_contain(&t, &k)
}

fn units_occur_at(hay: &Vec<u16>, needle: &Vec<u16>, i: usize) -> (b: bool)
    requires
        i + needle@.len() <= hay@.len(),
    ensures
        b == occurs_at(hay@, needle@, i as int),
{
    let hl = hay.len();
    let mut j: usize = 0;
    while j < needle.len()
        invariant
            hl == hay@.len(),
            i + needle@.len() <= hay@.len(),
            j <= needle@.len(),
            forall|k: int| 0 <= k < j ==> hay@[i + k] == needle@[k],
        decreases needle@.len() - j,
    {
        if hay[i + j] != needle[j] {
            assert(hay@.subrange(i as int, i + needle@.len())[j as int] != needle@[j as int]);
            return false;
        }
        j += 1;
    }
    assert(hay@.subrange(i as int, i + needle@.len()) =~= needle@);
    true
}

/// Whether a window with these class and title code units is the one that
/// `find_window` looks for, given the wanted class and title units.
pub fn window_matches(
    class_units: &Vec<u16>,
    title_units: &Vec<u16>,
    want_class: &Vec<u16>,
    want_title: &Vec<u16>,
) -> (b: bool)
    ensures
        b == spec_window_matches(class_units@, title_units@, want_class@, want_title@),
{
    if class_units.len() == want_class.len() && units_occur_at(class_units, want_class, 0) {
        assert(class_units@.subrange(0, class_units@.len() as int) =~= class_units@);
        return true;
    }
    assert(class_units@.len() == want_class@.len() ==> class_units@.subrange(
        0,
        class_units@.len() as int,
    ) =~= class_units@);
    if want_title.len() > title_units.len() {
        return false;
    }
    let last = title_units.len() - want_title.len();
    let mut i: usize = 0;
    loop
        invariant
            i <= last,
            last + want_title@.len() == title_units@.len(),
            class_units@ != want_class@,
            forall|k: int| 0 <= k < i ==> !occurs_at(title_units@, want_title@, k),
        decreases last - i,
    {
        if units_occur_at(title_units, want_title, i) {
            return true;
        }
        if i == last {
            assert forall|k: int| !occurs_at(title_units@, want_title@, k) by {
                if 0 <= k <= last {
                    assert(k < i || k == i);
                }
            }
            return false;
        }
        i += 1;
    }
}

/// What the program reads of a top-level window: whether it is visible, and
/// its class name and title.
pub struct WindowInfo {
    pub visible: bool,
    pub class_name: String,
    pub title: String,
}

/// The window `w` is a visible On-Screen Keyboard window.
pub open spec fn is_visible_osk(w: WindowInfo) -> bool {
    w.visible && spec_is_osk_window(w.class_name@, w.title@)
}

/// The positions, among the top-level windows `windows` (in enumeration
/// order), of the visible On-Screen Keyboard windows: each of them once, in
/// that order.
pub fn osk_windows(windows: &Vec<WindowInfo>) -> (r: Vec<usize>)
    ensures
        forall|k: int|
            0 <= k < r@.len() ==> #[trigger] r@[k] < windows@.len() && is_visible_osk(
                windows@[r@[k] as int],
            ),
        forall|k: int, l: int| 0 <= k < l < r@.len() ==> #[trigger] r@[k] < #[trigger] r@[l],
        forall|i: int|
            0 <= i < windows@.len() && is_visible_osk(#[trigger] windows@[i]) ==> r@.contains(
                i as usize,
            ),
{
    let mut r: Vec<usize> = Vec::new();
    let mut i: usize = 0;
    while i < windows.len()
        invariant
            i <= windows@.len(),
            forall|k: int|
                0 <= k < r@.len() ==> #[trigger] r@[k] < i && is_visible_osk(
                    windows@[r@[k] as int],
                ),
            forall|k: int, l: int| 0 <= k < l < r@.len() ==> #[trigger] r@[k] < #[trigger] r@[l],
            forall|j: int|
                0 <= j < i && is_visible_osk(#[trigger] windows@[j]) ==> r@.contains(j as usize),
        decreases windows@.len() - i,
    {
        let w = &windows[i];
        if w.visible && is_osk_window(w.class_name.as_str(), w.title.as_str()) {
            assert(is_visible_osk(windows@[i as int]));
            let ghost before = r@;
            r.push(i);
            assert forall|k: int| 0 <= k < r@.len() implies #[trigger] r@[k] < i + 1
                && is_visible_osk(windows@[r@[k] as int]) by {
                if k < before.len() {
                    assert(r@[k] == before[k]);
                }
            }
            assert forall|k: int, l: int| 0 <= k < l < r@.len() implies #[trigger] r@[k]
                < #[trigger] r@[l] by {
                if l < before.len() {
                    assert(r@[k] == before[k] && r@[l] == before[l]);
                } else {
                    assert(r@[k] == before[k]);
                }
            }
            assert forall|j: int|
                0 <= j <= i && is_visible_osk(#[trigger] windows@[j]) implies r@.contains(
                j as usize,
            ) by {
                if j < i {
                    let k = choose|k: int| 0 <= k < before.len() && before[k] == j as usize;
                    assert(r@[k] == j as usize);
                } else {
                    assert(r@[r@.len() - 1] == i);
                }
            }
        }
        i += 1;
    }
    r
}

} // verus!
