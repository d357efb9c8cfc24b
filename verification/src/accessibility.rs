//! Matching the names that UI Automation reports for On-Screen Keyboard keys
//! against the key names of a configuration.
use vstd::prelude::*;
use crate::text::{
    alnum, ascii_lower, chars_of, digit_char, digit_value, is_alnum, is_space, lemma_digit_char,
    lemma_trim_ends, lower, lower_char, span_is, string_of, to_decimal, trim, trim_bounds,
};

verus! {

broadcast use vstd::string::group_string_axioms;

/// The usual spelling of a lower-case key name: `control` is `ctrl`, and the
/// digit words are their digits.
pub open spec fn canonical_key(v: Seq<char>) -> Seq<char> {
    if v == "control"@ {
        "ctrl"@
    } else if v == "zero"@ {
        "0"@
    } else if v == "one"@ {
        "1"@
    } else if v == "two"@ {
        "2"@
    } else if v == "three"@ {
        "3"@
    } else if v == "four"@ {
        "4"@
    } else if v == "five"@ {
        "5"@
    } else if v == "six"@ {
        "6"@
    } else if v == "seven"@ {
        "7"@
    } else if v == "eight"@ {
        "8"@
    } else if v == "nine"@ {
        "9"@
    } else {
        v
    }
}

/// `s[i..j]` is a word: a longest nonempty run of ASCII letters and digits.
pub open spec fn is_word(s: Seq<char>, i: int, j: int) -> bool {
    &&& 0 <= i < j <= s.len()
    &&& forall|k: int| i <= k < j ==> is_alnum(#[trigger] s[k])
    &&& (i == 0 || !is_alnum(s[i - 1]))
    &&& (j == s.len() || !is_alnum(s[j]))
}

/// Whether the UI Automation name `name` denotes the key `wanted`: the two
/// are equal once trimmed and lower-cased, or a word of the name is the
/// wanted key under their usual spellings (`Number one` names `1`).
pub open spec fn spec_name_matches(name: Seq<char>, wanted: Seq<char>) -> bool {
    let n = ascii_lower(trim(name));
    let w = ascii_lower(trim(wanted));
    ||| n == w
    ||| exists|i: int, j: int|
        is_word(n, i, j) && #[trigger] canonical_key(n.subrange(i, j)) == canonical_key(w)
}

/// The English name of the digit `d`.
pub open spec fn digit_word(d: nat) -> Seq<char> {
    if d == 0 {
        "zero"@
    } else if d == 1 {
        "one"@
    } else if d == 2 {
        "two"@
    } else if d == 3 {
        "three"@
    } else if d == 4 {
        "four"@
    } else if d == 5 {
        "five"@
    } else if d == 6 {
        "six"@
    } else if d == 7 {
        "seven"@
    } else if d == 8 {
        "eight"@
    } else {
        "nine"@
    }
}

pub open spec fn lower_letters(w: Seq<char>) -> bool {
    forall|i: int| 0 <= i < w.len() ==> 'a' <= #[trigger] w[i] <= 'z'
}

/// The name `Number <w>` of a lower-case word `w`, as matching sees it: the
/// text `number <w>`, in which `w` is the word after the space.
proof fn lemma_number_name(w: Seq<char>)
    requires
        w.len() > 0,
        lower_letters(w),
    ensures
        ascii_lower(trim("Number "@ + w)) == "number "@ + w,
        is_word("number "@ + w, 7, 7 + w.len() as int),
        ("number "@ + w).subrange(7, 7 + w.len() as int) == w,
{
    reveal_strlit("Number ");
    reveal_strlit("number ");
    let t = "Number "@ + w;
    let n = "number "@ + w;
    assert(t[0] == 'N');
    assert(t.last() == w.last());
    assert(!is_space(t[0]));
    assert('a' <= w[w.len() - 1] <= 'z');
    assert(!is_space(t.last()));
    lemma_trim_ends(t);
    assert forall|i: int| 0 <= i < t.len() implies #[trigger] ascii_lower(t)[i] == n[i] by {
        if i >= 7 {
            assert(t[i] == w[i - 7]);
            assert(n[i] == w[i - 7]);
            assert('a' <= w[i - 7] <= 'z');
        }
    }
    assert(ascii_lower(t) =~= n);
    assert forall|k: int| 7 <= k < 7 + w.len() implies is_alnum(#[trigger] n[k]) by {
        assert(n[k] == w[k - 7]);
        assert('a' <= w[k - 7] <= 'z');
    }
    assert(n[6] == ' ');
    assert(n.subrange(7, 7 + w.len() as int) =~= w);
}

/// Every digit word names its digit: its usual spelling is the digit, and
/// an element named `Number <word>` (`Number five`) is the key of that
/// digit (`5`).
pub proof fn lemma_digit_words_name_digits(d: nat)
    requires
        d < 10,
    ensures
        canonical_key(digit_word(d)) == to_decimal(d),
        spec_name_matches("Number "@ + digit_word(d), to_decimal(d)),
{
    reveal_strlit("control");
    reveal_strlit("ctrl");
    reveal_strlit("zero");
    reveal_strlit("one");
    reveal_strlit("two");
    reveal_strlit("three");
    reveal_strlit("four");
    reveal_strlit("five");
    reveal_strlit("six");
    reveal_strlit("seven");
    reveal_strlit("eight");
    reveal_strlit("nine");
    reveal_strlit("0");
    reveal_strlit("1");
    reveal_strlit("2");
    reveal_strlit("3");
    reveal_strlit("4");
    reveal_strlit("5");
    reveal_strlit("6");
    reveal_strlit("7");
    reveal_strlit("8");
    reveal_strlit("9");
    lemma_digit_char(d);
    let c = digit_char(d);
    let t = to_decimal(d);
    assert(t == seq![c]);
    assert(c as int == d + 48);
    let w = digit_word(d);
    assert(w.len() >= 3 && lower_letters(w) && canonical_key(w) =~= t) by {
        if d == 0 {
            assert(c == '0');
            assert(w == "zero"@);
            assert("0"@ =~= seq!['0']);
        } else if d == 1 {
            assert(c == '1');
            assert(w == "one"@);
            assert("1"@ =~= seq!['1']);
        } else if d == 2 {
            assert(c == '2');
            assert(w == "two"@);
            assert("2"@ =~= seq!['2']);
            assert(w[0] != "one"@[0]);
        } else if d == 3 {
            assert(c == '3');
            assert(w == "three"@);
            assert("3"@ =~= seq!['3']);
        } else if d == 4 {
            assert(c == '4');
            assert(w == "four"@);
            assert("4"@ =~= seq!['4']);
            assert(w[0] != "zero"@[0]);
        } else if d == 5 {
            assert(c == '5');
            assert(w == "five"@);
            assert("5"@ =~= seq!['5']);
            assert(w[0] != "zero"@[0]);
            assert(w[1] != "four"@[1]);
        } else if d == 6 {
            assert(c == '6');
            assert(w == "six"@);
            assert("6"@ =~= seq!['6']);
            assert(w[0] != "one"@[0]);
            assert(w[0] != "two"@[0]);
        } else if d == 7 {
            assert(c == '7');
            assert(w == "seven"@);
            assert("7"@ =~= seq!['7']);
            assert(w[0] != "three"@[0]);
        } else if d == 8 {
            assert(c == '8');
            assert(w == "eight"@);
            assert("8"@ =~= seq!['8']);
            assert(w[0] != "three"@[0]);
            assert(w[0] != "seven"@[0]);
        } else {
            assert(c == '9');
            assert(w == "nine"@);
            assert("9"@ =~= seq!['9']);
            assert(w[0] != "zero"@[0]);
            assert(w[0] != "four"@[0]);
            assert(w[0] != "five"@[0]);
        }
    }
    assert(canonical_key(t) == t);
    lemma_number_name(w);
    assert(!is_space(c));
    lemma_trim_ends(t);
    assert(ascii_lower(t) =~= t);
    let n = "number "@ + w;
    assert(is_word(n, 7, 7 + w.len() as int) && canonical_key(n.subrange(7, 7 + w.len() as int))
        == canonical_key(ascii_lower(trim(t))));
}

/// `ascii_lower(v[lo..hi])` as a new vector.
fn lowered(v: &Vec<char>, lo: usize, hi: usize) -> (r: Vec<char>)
    requires
        lo <= hi <= v@.len(),
    ensures
        r@ == ascii_lower(v@.subrange(lo as int, hi as int)),
{
    let mut r: Vec<char> = Vec::new();
    let mut i = lo;
    while i < hi
        invariant
            lo <= i <= hi <= v@.len(),
            r@ == ascii_lower(v@.subrange(lo as int, i as int)),
        decreases hi - i,
    {
        r.push(lower(v[i]));
        i += 1;
        assert(r@ =~= ascii_lower(v@.subrange(lo as int, i as int)));
    }
    r
}

/// `ascii_lower(trim(s))`.
fn normalized(s: &str) -> (r: Vec<char>)
    ensures
        r@ == ascii_lower(trim(s@)),
{
    let v = chars_of(s);
    let (a, b) = trim_bounds(&v, 0, v.len());
    assert(v@.subrange(0, v@.len() as int) =~= s@);
    lowered(&v, a, b)
}

fn same_chars(a: &Vec<char>, alo: usize, ahi: usize, b: &Vec<char>) -> (r: bool)
    requires
        alo <= ahi <= a@.len(),
    ensures
        r == (a@.subrange(alo as int, ahi as int) == b@),
{
    if ahi - alo != b.len() {
        return false;
    }
    let mut i: usize = 0;
    while i < b.len()
        invariant
            alo <= ahi <= a@.len(),
            ahi - alo == b@.len(),
            i <= b@.len(),
            forall|j: int| 0 <= j < i ==> a@[alo + j] == b@[j],
        decreases b@.len() - i,
    {
        if a[alo + i] != b[i] {
            assert(a@.subrange(alo as int, ahi as int)[i as int] != b@[i as int]);
            return false;
        }
        i += 1;
    }
    assert(a@.subrange(alo as int, ahi as int) =~= b@);
    true
}

/// `canonical_key(v[lo..hi])` as a new vector.
fn canonical_chars(v: &Vec<char>, lo: usize, hi: usize) -> (r: Vec<char>)
    requires
        lo <= hi <= v@.len(),
    ensures
        r@ == canonical_key(v@.subrange(lo as int, hi as int)),
{
    if span_is(v, lo, hi, "control") {
        chars_of("ctrl")
    } else if span_is(v, lo, hi, "zero") {
        chars_of("0")
    } else if span_is(v, lo, hi, "one") {
        chars_of("1")
    } else if span_is(v, lo, hi, "two") {
        chars_of("2")
    } else if span_is(v, lo, hi, "three") {
        chars_of("3")
    } else if span_is(v, lo, hi, "four") {
        chars_of("4")
    } else if span_is(v, lo, hi, "five") {
        chars_of("5")
    } else if span_is(v, lo, hi, "six") {
        chars_of("6")
    } else if span_is(v, lo, hi, "seven") {
        chars_of("7")
    } else if span_is(v, lo, hi, "eight") {
        chars_of("8")
    } else if span_is(v, lo, hi, "nine") {
        chars_of("9")
    } else {
        let mut r: Vec<char> = Vec::new();
        let mut i = lo;
        while i < hi
            invariant
                lo <= i <= hi <= v@.len(),
                r@ == v@.subrange(lo as int, i as int),
            decreases hi - i,
        {
            r.push(v[i]);
            i += 1;
            assert(r@ =~= v@.subrange(lo as int, i as int));
        }
        r
    }
}

/// The usual spelling of the key name `value`.
pub fn canonical_key_name(value: &str) -> (s: String)
    ensures
        s@ == canonical_key(value@),
{
    let v = chars_of(value);
    let c = canonical_chars(&v, 0, v.len());
    assert(v@.subrange(0, v@.len() as int) =~= value@);
    let s = string_of(&c, 0, c.len());
    assert(c@.subrange(0, c@.len() as int) =~= c@);
    s
}

/// Whether the UI Automation name `name` denotes the key `wanted`.
pub fn name_matches(name: &str, wanted: &str) -> (b: bool)
    ensures
        b == spec_name_matches(name@, wanted@),
{
    let n = normalized(name);
    let w = normalized(wanted);
    if same_chars(&n, 0, n.len(), &w) {
        assert(n@.subrange(0, n@.len() as int) =~= n@);
        return true;
    }
    assert(n@.subrange(0, n@.len() as int) =~= n@);
    let wc = canonical_chars(&w, 0, w.len());
    assert(w@.subrange(0, w@.len() as int) =~= w@);
    let len = n.len();
    let mut i: usize = 0;
    while i < len
        invariant
            i <= len == n@.len(),
            wc@ == canonical_key(w@),
            n@ == ascii_lower(trim(name@)),
            w@ == ascii_lower(trim(wanted@)),
            i == 0 || i == len || !is_alnum(n@[i - 1]) || !is_alnum(n@[i as int]),
            forall|a: int, b: int|
                is_word(n@, a, b) && a < i ==> #[trigger] canonical_key(n@.subrange(a, b)) != wc@,
        decreases len - i,
    {
        if !alnum(n[i]) {
            i += 1;
        } else {
            let mut j = i;
            while j < len && alnum(n[j])
                invariant
                    i <= j <= len == n@.len(),
                    forall|k: int| i <= k < j ==> is_alnum(#[trigger] n@[k]),
                decreases len - j,
            {
                j += 1;
            }
            assert(is_word(n@, i as int, j as int));
            let c = canonical_chars(&n, i, j);
            assert(c@.subrange(0, c@.len() as int) =~= c@);
            if same_chars(&c, 0, c.len(), &wc) {
                assert(is_word(n@, i as int, j as int) && canonical_key(
                    n@.subrange(i as int, j as int),
                ) == canonical_key(w@));
                return true;
            }
            proof {
                assert forall|a: int, b: int|
                    is_word(n@, a, b) && a < j implies #[trigger] canonical_key(n@.subrange(a, b))
                    != wc@ by {
                    if a >= i {
                        if a > i {
                            assert(is_alnum(n@[a - 1]));
                        }
                        if b < j {
                            assert(is_alnum(n@[b]));
                        } else if b > j {
                            assert(is_alnum(n@[j as int]));
                        }
                    }
                }
            }
            i = j;
        }
    }
    false
}

/// Every name denotes itself as a key.
pub proof fn lemma_name_matches_itself(name: Seq<char>)
    ensures
        spec_name_matches(name, name),
{
}

// ---------------------------------------------------------------------------
// Searching the keyboard's elements
// ---------------------------------------------------------------------------

/// How many names of a failed search are kept for the log.
pub const DISCOVERED_LIMIT: usize = 24;

/// The names kept after one more element named `name` was looked at: a
/// non-empty name is kept while fewer than `DISCOVERED_LIMIT` are.
pub open spec fn spec_observe(kept: Seq<Seq<char>>, name: Seq<char>) -> Seq<Seq<char>> {
    if name.len() > 0 && kept.len() < DISCOVERED_LIMIT {
        kept.push(name)
    } else {
        kept
    }
}

/// The names kept after looking at the elements named `names`, in order.
pub open spec fn kept_names(names: Seq<Seq<char>>) -> Seq<Seq<char>>
    decreases names.len(),
{
    if names.len() == 0 {
        Seq::empty()
    } else {
        spec_observe(kept_names(names.drop_last()), names.last())
    }
}

pub open spec fn named(n: Seq<char>) -> bool {
    n.len() > 0
}

pub open spec fn names_view(names: Seq<String>) -> Seq<Seq<char>> {
    names.map_values(|n: String| n@)
}

/// `j` is the first position in `names` whose name denotes the key `wanted`.
pub open spec fn is_first_match(names: Seq<Seq<char>>, wanted: Seq<char>, j: int) -> bool {
    &&& 0 <= j < names.len()
    &&& spec_name_matches(names[j], wanted)
    &&& forall|k: int| 0 <= k < j ==> !spec_name_matches(#[trigger] names[k], wanted)
}

/// The position of the first of the element names `names` (in the order the
/// keyboard's elements are enumerated) that denotes the key `wanted`.
pub fn first_match(names: &Vec<String>, wanted: &str) -> (r: Option<usize>)
    ensures
        match r {
            Some(j) => is_first_match(names_view(names@), wanted@, j as int),
            None => forall|j: int|
                0 <= j < names@.len() ==> !spec_name_matches(
                    #[trigger] names_view(names@)[j],
                    wanted@,
                ),
        },
{
    let ghost v = names_view(names@);
    let mut i: usize = 0;
    while i < names.len()
        invariant
            i <= names@.len(),
            v == names_view(names@),
            v.len() == names@.len(),
            forall|k: int| 0 <= k < i ==> !spec_name_matches(#[trigger] v[k], wanted@),
        decreases names@.len() - i,
    {
        assert(v[i as int] == names@[i as int]@);
        if name_matches(names[i].as_str(), wanted) {
            return Some(i);
        }
        i += 1;
    }
    None
}

/// The names kept for the log of a search that found nothing: the first
/// `DISCOVERED_LIMIT` non-empty names, in order.
pub fn log_names(names: &Vec<String>) -> (r: Vec<String>)
    ensures
        names_view(r@) == kept_names(names_view(names@)),
{
    let ghost v = names_view(names@);
    let mut r: Vec<String> = Vec::new();
    let mut i: usize = 0;
    while i < names.len()
        invariant
            i <= names@.len(),
            v == names_view(names@),
            v.len() == names@.len(),
            names_view(r@) == kept_names(v.take(i as int)),
        decreases names@.len() - i,
    {
        let ghost before = names_view(r@);
        assert(v.take(i + 1).drop_last() =~= v.take(i as int));
        assert(v.take(i + 1).last() == names@[i as int]@);
        let n = names[i].as_str();
        if !n.is_empty() && r.len() < DISCOVERED_LIMIT {
            r.push(String::from_str(n));
            assert(names_view(r@) =~= before.push(n@));
        }
        i += 1;
    }
    assert(v.take(names@.len() as int) =~= v);
    r
}

/// The names kept for the log are the first `DISCOVERED_LIMIT` non-empty
/// names seen, in order.
pub proof fn lemma_kept_names(names: Seq<Seq<char>>)
    ensures
        kept_names(names) == names.filter(|n: Seq<char>| named(n)).take(
            if names.filter(|n: Seq<char>| named(n)).len() < DISCOVERED_LIMIT {
                names.filter(|n: Seq<char>| named(n)).len() as int
            } else {
                DISCOVERED_LIMIT as int
            },
        ),
    decreases names.len(),
{
    reveal(Seq::filter);
    let f = names.filter(|n: Seq<char>| named(n));
    if names.len() == 0 {
        assert(f.take(0) =~= Seq::<Seq<char>>::empty());
    } else {
        let d = names.drop_last();
        let x = names.last();
        let fd = d.filter(|n: Seq<char>| named(n));
        lemma_kept_names(d);
        assert(f == if named(x) { fd.push(x) } else { fd });
        if fd.len() < DISCOVERED_LIMIT {
            assert(fd.take(fd.len() as int) =~= fd);
            assert(f.take(f.len() as int) =~= f);
        } else {
            assert(f.take(DISCOVERED_LIMIT as int) =~= fd.take(DISCOVERED_LIMIT as int));
        }
    }
}

} // verus!
