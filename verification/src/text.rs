//! Character-level text handling shared by the configuration format, key
//! binding parsing and key name matching: a model of the `str` operations the
//! program relies on (`trim`, `to_ascii_lowercase`, `split_once`, decimal
//! integers) over `Seq<char>`, with executable counterparts on `Vec<char>`.
use vstd::prelude::*;

verus! {

broadcast use vstd::string::group_string_axioms;

// ---------------------------------------------------------------------------
// Specification
// ---------------------------------------------------------------------------

/// The characters that `char::is_whitespace` accepts (Unicode `White_Space`).
pub open spec fn is_space(c: char) -> bool {
    ||| ('\u{9}' <= c && c <= '\u{d}')
    ||| c == ' '
    ||| c == '\u{85}'
    ||| c == '\u{a0}'
    ||| c == '\u{1680}'
    ||| ('\u{2000}' <= c && c <= '\u{200a}')
    ||| c == '\u{2028}'
    ||| c == '\u{2029}'
    ||| c == '\u{202f}'
    ||| c == '\u{205f}'
    ||| c == '\u{3000}'
}

/// `s` with its leading whitespace removed (`str::trim_start`).
pub open spec fn trim_start(s: Seq<char>) -> Seq<char>
    decreases s.len(),
{
    if s.len() > 0 && is_space(s[0]) {
        trim_start(s.drop_first())
    } else {
        s
    }
}

/// `s` with its trailing whitespace removed (`str::trim_end`).
pub open spec fn trim_end(s: Seq<char>) -> Seq<char>
    decreases s.len(),
{
    if s.len() > 0 && is_space(s.last()) {
        trim_end(s.drop_last())
    } else {
        s
    }
}

/// `str::trim`.
pub open spec fn trim(s: Seq<char>) -> Seq<char> {
    trim_end(trim_start(s))
}

/// `char::to_ascii_lowercase`.
pub open spec fn lower_char(c: char) -> char {
    if 'A' <= c && c <= 'Z' {
        ((c as u32) + 32) as char
    } else {
        c
    }
}

/// `str::to_ascii_lowercase`.
pub open spec fn ascii_lower(s: Seq<char>) -> Seq<char> {
    s.map_values(|c: char| lower_char(c))
}

/// `char::is_ascii_alphanumeric`.
pub open spec fn is_alnum(c: char) -> bool {
    ('0' <= c && c <= '9') || ('a' <= c && c <= 'z') || ('A' <= c && c <= 'Z')
}

/// The position of the first `c` in `s`, if any.
pub open spec fn first_index(s: Seq<char>, c: char) -> Option<nat>
    decreases s.len(),
{
    if s.len() == 0 {
        None
    } else if s[0] == c {
        Some(0)
    } else {
        match first_index(s.drop_first(), c) {
            Some(i) => Some(i + 1),
            None => None,
        }
    }
}

/// Whether `c` occurs in `s`.
pub open spec fn has_char(s: Seq<char>, c: char) -> bool {
    exists|i: int| 0 <= i < s.len() && s[i] == c
}

pub open spec fn is_digit(c: char) -> bool {
    '0' <= c && c <= '9'
}

pub open spec fn all_digits(s: Seq<char>) -> bool {
    forall|i: int| 0 <= i < s.len() ==> is_digit(#[trigger] s[i])
}

pub open spec fn digit_value(c: char) -> nat {
    ((c as int) - ('0' as int)) as nat
}

/// The number that the decimal digits `s` spell.
pub open spec fn decimal_value(s: Seq<char>) -> nat
    decreases s.len(),
{
    if s.len() == 0 {
        0
    } else {
        decimal_value(s.drop_last()) * 10 + digit_value(s.last())
    }
}

/// What `u64::from_str` / `usize::from_str` accept: an optional `+`, then
/// one or more ASCII digits, denoting a number no larger than `max`.
pub open spec fn parse_unsigned(s: Seq<char>, max: nat) -> Option<nat> {
    let digits = if s.len() > 0 && s[0] == '+' {
        s.drop_first()
    } else {
        s
    };
    if digits.len() > 0 && all_digits(digits) && decimal_value(digits) <= max {
        Some(decimal_value(digits))
    } else {
        None
    }
}

/// Why `u64::from_str` / `usize::from_str` rejects a text (`IntErrorKind`).
#[derive(Clone, Copy, Debug, PartialEq, Eq)]
pub enum NumberError {
    Empty,
    InvalidDigit,
    PosOverflow,
}

impl NumberError {
    /// The sentence `ParseIntError` shows for this kind.
    pub fn message(&self) -> (m: &'static str)
        ensures
            m@ == number_error_message(*self),
    {
        match self {
            NumberError::Empty => "cannot parse integer from empty string",
            NumberError::InvalidDigit => "invalid digit found in string",
            NumberError::PosOverflow => "number too large to fit in target type",
        }
    }
}

pub open spec fn number_error_message(e: NumberError) -> Seq<char> {
    match e {
        NumberError::Empty => "cannot parse integer from empty string"@,
        NumberError::InvalidDigit => "invalid digit found in string"@,
        NumberError::PosOverflow => "number too large to fit in target type"@,
    }
}

/// Reading the digits `d` from the left onto the value `acc`: the first
/// character that is no digit, or the first digit that takes the value
/// past `max`.
pub open spec fn scan_error(d: Seq<char>, acc: nat, max: nat) -> Option<NumberError>
    decreases d.len(),
{
    if d.len() == 0 {
        None
    } else if !is_digit(d[0]) {
        Some(NumberError::InvalidDigit)
    } else if acc * 10 + digit_value(d[0]) > max {
        Some(NumberError::PosOverflow)
    } else {
        scan_error(d.drop_first(), acc * 10 + digit_value(d[0]), max)
    }
}

/// Why `s` is no unsigned number of at most `max`, as `from_str` reports
/// it: an empty text, a sign with no digit, or the first offending
/// character read from the left. Meaningful where `parse_unsigned(s, max)`
/// is `None`.
pub open spec fn spec_number_error(s: Seq<char>, max: nat) -> NumberError {
    if s.len() == 0 {
        NumberError::Empty
    } else {
        let d = if s[0] == '+' {
            s.drop_first()
        } else {
            s
        };
        if d.len() == 0 {
            NumberError::InvalidDigit
        } else {
            match scan_error(d, 0, max) {
                Some(e) => e,
                None => NumberError::InvalidDigit,
            }
        }
    }
}

pub open spec fn digit_char(d: nat) -> char {
    (('0' as u32) + (d % 10) as u32) as char
}

/// The decimal rendering of `n` (`Display` for unsigned integers).
pub open spec fn to_decimal(n: nat) -> Seq<char>
    decreases n,
{
    if n < 10 {
        seq![digit_char(n)]
    } else {
        to_decimal(n / 10).push(digit_char(n % 10))
    }
}

// ---------------------------------------------------------------------------
// Lemmas
// ---------------------------------------------------------------------------

/// `first_index` is the position before which `c` does not occur.
pub proof fn lemma_first_index(s: Seq<char>, c: char, n: int)
    requires
        0 <= n <= s.len(),
        forall|i: int| 0 <= i < n ==> s[i] != c,
        n < s.len() ==> s[n] == c,
    ensures
        first_index(s, c) == (if n < s.len() { Some(n as nat) } else { None::<nat> }),
    decreases n,
{
    if s.len() > 0 && n > 0 {
        lemma_first_index(s.drop_first(), c, n - 1);
    }
}

/// A position that `first_index` returns holds `c`, and nothing before it does.
pub proof fn lemma_first_index_found(s: Seq<char>, c: char)
    ensures
        first_index(s, c) matches Some(k) ==> k < s.len() && s[k as int] == c && forall|i: int|
            0 <= i < k ==> s[i] != c,
        first_index(s, c) is None ==> forall|i: int| 0 <= i < s.len() ==> s[i] != c,
    decreases s.len(),
{
    if s.len() > 0 {
        lemma_first_index_found(s.drop_first(), c);
        if s[0] != c {
            assert forall|i: int| 0 < i < s.len() implies s[i] == s.drop_first()[i - 1] by {}
        }
    }
}

pub proof fn lemma_trim_start_skip(s: Seq<char>, n: int)
    requires
        0 <= n <= s.len(),
        forall|i: int| 0 <= i < n ==> is_space(#[trigger] s[i]),
    ensures
        trim_start(s) == trim_start(s.skip(n)),
    decreases n,
{
    if n > 0 {
        assert(s.drop_first().skip(n - 1) =~= s.skip(n));
        lemma_trim_start_skip(s.drop_first(), n - 1);
    } else {
        assert(s.skip(0) =~= s);
    }
}

pub proof fn lemma_trim_end_take(s: Seq<char>, n: int)
    requires
        0 <= n <= s.len(),
        forall|i: int| n <= i < s.len() ==> is_space(#[trigger] s[i]),
    ensures
        trim_end(s) == trim_end(s.take(n)),
    decreases s.len() - n,
{
    if n < s.len() {
        assert(s.drop_last().take(n) =~= s.take(n));
        lemma_trim_end_take(s.drop_last(), n);
    } else {
        assert(s.take(n) =~= s);
    }
}

/// The value of a digit string extended by one digit.
pub proof fn lemma_decimal_push(s: Seq<char>, c: char)
    ensures
        decimal_value(s.push(c)) == decimal_value(s) * 10 + digit_value(c),
{
    assert(s.push(c).drop_last() =~= s);
}

/// The value of a prefix of a digit string is at most the value of the whole.
pub proof fn lemma_decimal_prefix(s: Seq<char>, n: int)
    requires
        0 <= n <= s.len(),
    ensures
        decimal_value(s.take(n)) <= decimal_value(s),
    decreases s.len() - n,
{
    if n < s.len() {
        assert(s.drop_last().take(n) =~= s.take(n));
        lemma_decimal_prefix(s.drop_last(), n);
    } else {
        assert(s.take(n) =~= s);
    }
}

pub proof fn lemma_digit_char(n: nat)
    ensures
        is_digit(digit_char(n)),
        digit_value(digit_char(n)) == n % 10,
        n == (n / 10) * 10 + n % 10,
{
    let x: u32 = (('0' as u32) + (n % 10) as u32) as u32;
    assert(x as char as int == x as int);
}

/// `to_decimal(n)` is a nonempty digit string that spells `n`.
pub proof fn lemma_to_decimal(n: nat)
    ensures
        to_decimal(n).len() > 0,
        all_digits(to_decimal(n)),
        decimal_value(to_decimal(n)) == n,
        to_decimal(n)[0] != '+',
        n < 10 ==> to_decimal(n).len() == 1,
    decreases n,
{
    lemma_digit_char(n);
    if n < 10 {
        assert(to_decimal(n).drop_last() =~= Seq::<char>::empty());
        assert(decimal_value(Seq::<char>::empty()) == 0);
        assert(decimal_value(to_decimal(n)) == decimal_value(to_decimal(n).drop_last()) * 10
            + digit_value(to_decimal(n).last()));
    } else {
        lemma_to_decimal(n / 10);
        lemma_decimal_push(to_decimal(n / 10), digit_char(n % 10));
        let s = to_decimal(n);
        assert forall|i: int| 0 <= i < s.len() implies is_digit(#[trigger] s[i]) by {
            if i < s.len() - 1 {
                assert(s[i] == to_decimal(n / 10)[i]);
            }
        }
    }
}

/// Reading back a rendered number gives the number.
pub proof fn lemma_parse_to_decimal(n: nat, max: nat)
    requires
        n <= max,
    ensures
        parse_unsigned(to_decimal(n), max) == Some(n),
{
    lemma_to_decimal(n);
}

/// A rendered number holds no character other than digits.
pub proof fn lemma_to_decimal_lacks(n: nat, c: char)
    requires
        !is_digit(c),
    ensures
        forall|i: int| 0 <= i < to_decimal(n).len() ==> to_decimal(n)[i] != c,
{
    lemma_to_decimal(n);
    assert forall|i: int| 0 <= i < to_decimal(n).len() implies to_decimal(n)[i] != c by {
        assert(is_digit(to_decimal(n)[i]));
    }
}

// ---------------------------------------------------------------------------
// Executable functions
// ---------------------------------------------------------------------------

/// Appends `c` to `s` (`String::push`).
#[verifier::external_body]
pub(crate) fn push_char(s: &mut String, c: char)
    ensures
        final(s)@ == old(s)@.push(c),
{
    s.push(c);
}

/// The characters of `s`, in order.
pub fn chars_of(s: &str) -> (v: Vec<char>)
    ensures
        v@ == s@,
{
    let mut v: Vec<char> = Vec::new();
    for c in it: s.chars()
        invariant
            it.seq() == s@,
            v@ == s@.take(it.index() as int),
    {
        v.push(c);
    }
    v
}

/// Appends `v[lo..hi]` to `out`.
pub fn push_span(out: &mut String, v: &Vec<char>, lo: usize, hi: usize)
    requires
        lo <= hi <= v@.len(),
    ensures
        final(out)@ == old(out)@ + v@.subrange(lo as int, hi as int),
{
    let mut i = lo;
    while i < hi
        invariant
            lo <= i <= hi <= v@.len(),
            out@ == old(out)@ + v@.subrange(lo as int, i as int),
        decreases hi - i,
    {
        push_char(out, v[i]);
        i += 1;
        assert(v@.subrange(lo as int, i as int) =~= v@.subrange(lo as int, i - 1).push(v@[i - 1]));
    }
}

/// A new string holding `v[lo..hi]`.
pub fn string_of(v: &Vec<char>, lo: usize, hi: usize) -> (s: String)
    requires
        lo <= hi <= v@.len(),
    ensures
        s@ == v@.subrange(lo as int, hi as int),
{
    let mut s = String::new();
    push_span(&mut s, v, lo, hi);
    assert(s@ =~= v@.subrange(lo as int, hi as int));
    s
}

/// `s.trim()` as a new string.
pub fn trimmed(s: &str) -> (r: String)
    ensures
        r@ == trim(s@),
{
    let v = chars_of(s);
    let n = v.len();
    assert(v@.subrange(0, n as int) =~= s@);
    let (a, b) = trim_bounds(&v, 0, n);
    string_of(&v, a, b)
}

/// Trimming never lengthens a text, and leaves it as it is only when it
/// neither starts nor ends with whitespace.
pub proof fn lemma_trim_unchanged(s: Seq<char>)
    ensures
        trim_start(s).len() <= s.len(),
        trim_end(s).len() <= s.len(),
        trim_start(s).len() == s.len() ==> trim_start(s) == s,
        trim_end(s).len() == s.len() ==> trim_end(s) == s,
        s.len() > 0 && is_space(s[0]) ==> trim_start(s).len() < s.len(),
        s.len() > 0 && is_space(s.last()) ==> trim_end(s).len() < s.len(),
    decreases s.len(),
{
    if s.len() > 0 {
        lemma_trim_unchanged(s.drop_first());
        lemma_trim_unchanged(s.drop_last());
    }
}

/// A text equal to its trim, if not empty, neither starts nor ends with
/// whitespace; a text that neither starts nor ends with whitespace is its
/// own trim.
pub proof fn lemma_trim_ends(s: Seq<char>)
    ensures
        s.len() > 0 ==> (trim(s) == s <==> !is_space(s[0]) && !is_space(s.last())),
        s.len() == 0 ==> trim(s) == s,
{
    lemma_trim_unchanged(s);
    lemma_trim_unchanged(trim_start(s));
}

pub fn space(c: char) -> (b: bool)
    ensures
        b == is_space(c),
{
    ('\u{9}' <= c && c <= '\u{d}') || c == ' ' || c == '\u{85}' || c == '\u{a0}' || c
        == '\u{1680}' || ('\u{2000}' <= c && c <= '\u{200a}') || c == '\u{2028}' || c
        == '\u{2029}' || c == '\u{202f}' || c == '\u{205f}' || c == '\u{3000}'
}

pub fn alnum(c: char) -> (b: bool)
    ensures
        b == is_alnum(c),
{
    ('0' <= c && c <= '9') || ('a' <= c && c <= 'z') || ('A' <= c && c <= 'Z')
}

pub fn lower(c: char) -> (r: char)
    ensures
        r == lower_char(c),
{
    if 'A' <= c && c <= 'Z' {
        let n: u32 = (c as u32) + 32;
        assert(n <= 'z' as u32);
        char_from_ascii(n)
    } else {
        c
    }
}

/// The character with code point `n`, for an ASCII `n`.
fn char_from_ascii(n: u32) -> (c: char)
    requires
        n < 128,
    ensures
        c == n as char,
{
    let b: u8 = n as u8;
    b as char
}

/// The bounds of `trim(v[lo..hi])` inside `v`.
pub fn trim_bounds(v: &Vec<char>, lo: usize, hi: usize) -> (r: (usize, usize))
    requires
        lo <= hi <= v@.len(),
    ensures
        lo <= r.0 <= r.1 <= hi,
        v@.subrange(r.0 as int, r.1 as int) == trim(v@.subrange(lo as int, hi as int)),
{
    let ghost s = v@.subrange(lo as int, hi as int);
    let mut a = lo;
    while a < hi && space(v[a])
        invariant
            lo <= a <= hi <= v@.len(),
            s == v@.subrange(lo as int, hi as int),
            forall|i: int| lo <= i < a ==> is_space(#[trigger] v@[i]),
        decreases hi - a,
    {
        a += 1;
    }
    proof {
        assert forall|i: int| 0 <= i < a - lo implies is_space(#[trigger] s[i]) by {
            assert(s[i] == v@[lo + i]);
        }
        lemma_trim_start_skip(s, a - lo);
        assert(s.skip(a - lo) =~= v@.subrange(a as int, hi as int));
        let t = v@.subrange(a as int, hi as int);
        if a < hi {
            assert(t[0] == v@[a as int]);
        }
        assert(trim_start(t) == t);
    }
    let mut b = hi;
    while b > a && space(v[b - 1])
        invariant
            lo <= a <= b <= hi <= v@.len(),
            forall|i: int| b <= i < hi ==> is_space(#[trigger] v@[i]),
        decreases b,
    {
        b -= 1;
    }
    proof {
        let t = v@.subrange(a as int, hi as int);
        assert forall|i: int| b - a <= i < t.len() implies is_space(#[trigger] t[i]) by {
            assert(t[i] == v@[a + i]);
        }
        lemma_trim_end_take(t, b - a);
        let u = t.take(b - a);
        assert(u =~= v@.subrange(a as int, b as int));
        if b > a {
            assert(u.last() == v@[b - 1]);
        }
        assert(trim_end(u) == u);
    }
    (a, b)
}

/// The position of the first `c` in `v[lo..hi]`, or `hi` when there is none.
pub fn find_char(v: &Vec<char>, lo: usize, hi: usize, c: char) -> (k: usize)
    requires
        lo <= hi <= v@.len(),
    ensures
        lo <= k <= hi,
        forall|i: int| lo <= i < k ==> v@[i] != c,
        k < hi ==> v@[k as int] == c,
        first_index(v@.subrange(lo as int, hi as int), c) == (if k < hi {
            Some((k - lo) as nat)
        } else {
            None::<nat>
        }),
{
    let mut k = lo;
    while k < hi && v[k] != c
        invariant
            lo <= k <= hi <= v@.len(),
            forall|i: int| lo <= i < k ==> v@[i] != c,
        decreases hi - k,
    {
        k += 1;
    }
    proof {
        let s = v@.subrange(lo as int, hi as int);
        lemma_first_index(s, c, k - lo);
    }
    k
}

/// Whether `v[lo..hi]` is the text `lit`.
pub fn span_is(v: &Vec<char>, lo: usize, hi: usize, lit: &str) -> (b: bool)
    requires
        lo <= hi <= v@.len(),
    ensures
        b == (v@.subrange(lo as int, hi as int) == lit@),
{
    let n = lit.unicode_len();
    if n != hi - lo {
        return false;
    }
    let mut i: usize = 0;
    while i < n
        invariant
            n == lit@.len(),
            lo <= hi <= v@.len(),
            n == hi - lo,
            i <= n,
            forall|j: int| 0 <= j < i ==> v@[lo + j] == lit@[j],
        decreases n - i,
    {
        if v[lo + i] != lit.get_char(i) {
            assert(v@.subrange(lo as int, hi as int)[i as int] != lit@[i as int]);
            return false;
        }
        i += 1;
    }
    assert(v@.subrange(lo as int, hi as int) =~= lit@);
    true
}

/// Whether `ascii_lower(v[lo..hi])` is the text `lit`.
pub fn lower_span_is(v: &Vec<char>, lo: usize, hi: usize, lit: &str) -> (b: bool)
    requires
        lo <= hi <= v@.len(),
    ensures
        b == (ascii_lower(v@.subrange(lo as int, hi as int)) == lit@),
{
    let ghost s = ascii_lower(v@.subrange(lo as int, hi as int));
    let n = lit.unicode_len();
    if n != hi - lo {
        return false;
    }
    let mut i: usize = 0;
    while i < n
        invariant
            n == lit@.len(),
            lo <= hi <= v@.len(),
            n == hi - lo,
            i <= n,
            s == ascii_lower(v@.subrange(lo as int, hi as int)),
            forall|j: int| 0 <= j < i ==> lower_char(v@[lo + j]) == lit@[j],
        decreases n - i,
    {
        if lower(v[lo + i]) != lit.get_char(i) {
            assert(s[i as int] != lit@[i as int]);
            return false;
        }
        i += 1;
    }
    assert(s =~= lit@);
    true
}

/// Why `v[lo..hi]` is no unsigned number of at most `max`.
pub fn number_error(v: &Vec<char>, lo: usize, hi: usize, max: u64) -> (e: NumberError)
    requires
        lo <= hi <= v@.len(),
    ensures
        e == spec_number_error(v@.subrange(lo as int, hi as int), max as nat),
{
    let ghost s = v@.subrange(lo as int, hi as int);
    if lo == hi {
        return NumberError::Empty;
    }
    let start = if v[lo] == '+' {
        lo + 1
    } else {
        lo
    };
    let ghost d = v@.subrange(start as int, hi as int);
    assert(d =~= (if s[0] == '+' {
        s.drop_first()
    } else {
        s
    }));
    if start == hi {
        return NumberError::InvalidDigit;
    }
    let mut acc: u64 = 0;
    let mut i = start;
    while i < hi
        invariant
            start <= i <= hi <= v@.len(),
            d == v@.subrange(start as int, hi as int),
            d.len() > 0,
            s == v@.subrange(lo as int, hi as int),
            spec_number_error(s, max as nat) == (match scan_error(d, 0, max as nat) {
                Some(e) => e,
                None => NumberError::InvalidDigit,
            }),
            scan_error(d, 0, max as nat) == scan_error(
                v@.subrange(i as int, hi as int),
                acc as nat,
                max as nat,
            ),
            acc <= max,
        decreases hi - i,
    {
        let c = v[i];
        let ghost rest = v@.subrange(i as int, hi as int);
        assert(rest[0] == c);
        assert(rest.drop_first() =~= v@.subrange(i + 1, hi as int));
        if !('0' <= c && c <= '9') {
            return NumberError::InvalidDigit;
        }
        let dv: u64 = ((c as u32) - ('0' as u32)) as u64;
        assert(dv as nat == digit_value(c));
        if dv > max || acc > (max - dv) / 10 {
            proof {
                if dv <= max {
                    assert(acc * 10 + dv > max) by (nonlinear_arith)
                        requires
                            acc > (max - dv) / 10,
                            dv <= max,
                    ;
                }
            }
            return NumberError::PosOverflow;
        }
        assert(acc * 10 + dv <= max) by (nonlinear_arith)
            requires
                acc <= (max - dv) / 10,
                dv <= max,
        ;
        acc = acc * 10 + dv;
        i += 1;
    }
    assert(v@.subrange(i as int, hi as int) =~= Seq::<char>::empty());
    NumberError::InvalidDigit
}

/// `parse_unsigned(v[lo..hi], max)`.
pub fn parse_unsigned_span(v: &Vec<char>, lo: usize, hi: usize, max: u64) -> (r: Option<u64>)
    requires
        lo <= hi <= v@.len(),
    ensures
        match r {
            Some(n) => parse_unsigned(v@.subrange(lo as int, hi as int), max as nat) == Some(
                n as nat,
            ),
            None => parse_unsigned(v@.subrange(lo as int, hi as int), max as nat) is None,
        },
{
    let ghost s = v@.subrange(lo as int, hi as int);
    let start = if lo < hi && v[lo] == '+' {
        lo + 1
    } else {
        lo
    };
    let ghost d = v@.subrange(start as int, hi as int);
    assert(d =~= (if s.len() > 0 && s[0] == '+' {
        s.drop_first()
    } else {
        s
    }));
    if start == hi {
        return None;
    }
    assert(s == v@.subrange(lo as int, hi as int));
    let mut acc: u64 = 0;
    let mut i = start;
    while i < hi
        invariant
            start <= i <= hi <= v@.len(),
            d == v@.subrange(start as int, hi as int),
            d.len() > 0,
            parse_unsigned(v@.subrange(lo as int, hi as int), max as nat) == (if all_digits(d)
                && decimal_value(d) <= max {
                Some(decimal_value(d))
            } else {
                None::<nat>
            }),
            all_digits(v@.subrange(start as int, i as int)),
            acc as nat == decimal_value(v@.subrange(start as int, i as int)),
            acc <= max,
        decreases hi - i,
    {
        let c = v[i];
        let ghost p = v@.subrange(start as int, i as int);
        assert(v@.subrange(start as int, i + 1) =~= p.push(c));
        if !('0' <= c && c <= '9') {
            assert(d[i - start] == c);
            assert(!is_digit(d[i - start]));
            assert(!all_digits(d));
            return None;
        }
        proof {
            lemma_decimal_push(p, c);
        }
        let dv: u64 = ((c as u32) - ('0' as u32)) as u64;
        assert(dv as nat == digit_value(c));
        assert(decimal_value(p.push(c)) == acc * 10 + dv);
        if dv > max || acc > (max - dv) / 10 {
            proof {
                if dv <= max {
                    assert(acc * 10 + dv > max) by (nonlinear_arith)
                        requires
                            acc > (max - dv) / 10,
                            dv <= max,
                    ;
                }
                lemma_decimal_prefix(d, i + 1 - start);
                assert(d.take(i + 1 - start) =~= p.push(c));
                assert(decimal_value(d) > max);
            }
            return None;
        }
        assert(acc * 10 + dv <= max) by (nonlinear_arith)
            requires
                acc <= (max - dv) / 10,
                dv <= max,
        ;
        acc = acc * 10 + dv;
        i += 1;
    }
    assert(d =~= v@.subrange(start as int, i as int));
    Some(acc)
}

/// Appends the decimal rendering of `n` to `out`.
pub fn push_decimal(out: &mut String, n: u64)
    ensures
        final(out)@ == old(out)@ + to_decimal(n as nat),
    decreases n,
{
    if n >= 10 {
        push_decimal(out, n / 10);
    }
    let d: u32 = (n % 10) as u32;
    push_char(out, char_from_ascii(('0' as u32) + d));
    assert(out@ =~= old(out)@ + to_decimal(n as nat));
}

/// The UTF-16 code units of `c`: one unit below U+10000, a surrogate pair above.
pub open spec fn utf16_of(c: char) -> Seq<u16> {
    let n = c as u32;
    if n < 0x10000 {
        seq![n as u16]
    } else {
        let m = n - 0x10000;
        seq![(0xD800 + m / 0x400) as u16, (0xDC00 + m % 0x400) as u16]
    }
}

/// The UTF-16 encoding of `s` (`str::encode_utf16`).
pub open spec fn utf16(s: Seq<char>) -> Seq<u16>
    decreases s.len(),
{
    if s.len() == 0 {
        Seq::empty()
    } else {
        utf16(s.drop_last()) + utf16_of(s.last())
    }
}

/// `value` as a NUL-terminated UTF-16 string, the form Windows APIs take.
pub fn wide(value: &str) -> (w: Vec<u16>)
    ensures
        w@ == utf16(value@).push(0),
{
    let v = chars_of(value);
    let mut w: Vec<u16> = Vec::new();
    let mut i: usize = 0;
    while i < v.len()
        invariant
            i <= v@.len(),
            v@ == value@,
            w@ == utf16(v@.take(i as int)),
        decreases v@.len() - i,
    {
        let n: u32 = v[i] as u32;
        if n < 0x10000 {
            w.push(n as u16);
        } else {
            let m: u32 = n - 0x10000;
            w.push((0xD800 + m / 0x400) as u16);
            w.push((0xDC00 + m % 0x400) as u16);
        }
        assert(v@.take(i + 1).drop_last() =~= v@.take(i as int));
        assert(w@ =~= utf16(v@.take(i + 1)));
        i += 1;
    }
    assert(v@.take(v@.len() as int) =~= value@);
    w.push(0);
    w
}

} // verus!
