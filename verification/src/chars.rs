//! Character-level scanning helpers shared by the timestamp and field parsers.
//!
//! All scanning is specified over `Seq<char>`; the executable code works on a
//! `Vec<char>` copy of the input line, so that every position is reachable in
//! constant time and every loop is verified against the recursive spec
//! functions below.
use vstd::prelude::*;

verus! {

/// Whether `c` has the Unicode `White_Space` property, the set that
/// `str::trim_start` removes.
pub open spec fn is_space_char(c: char) -> bool {
    c == '\u{0009}' || c == '\u{000a}' || c == '\u{000b}' || c == '\u{000c}' || c == '\u{000d}'
        || c == ' ' || c == '\u{0085}' || c == '\u{00a0}' || c == '\u{1680}' || c == '\u{2000}'
        || c == '\u{2001}' || c == '\u{2002}' || c == '\u{2003}' || c == '\u{2004}'
        || c == '\u{2005}' || c == '\u{2006}' || c == '\u{2007}' || c == '\u{2008}'
        || c == '\u{2009}' || c == '\u{200a}' || c == '\u{2028}' || c == '\u{2029}'
        || c == '\u{202f}' || c == '\u{205f}' || c == '\u{3000}'
}

/// Executable test for [`is_space_char`].
pub fn space_char(c: char) -> (r: bool)
    ensures
        r == is_space_char(c),
{
    c == '\u{0009}' || c == '\u{000a}' || c == '\u{000b}' || c == '\u{000c}' || c == '\u{000d}'
        || c == ' ' || c == '\u{0085}' || c == '\u{00a0}' || c == '\u{1680}' || c == '\u{2000}'
        || c == '\u{2001}' || c == '\u{2002}' || c == '\u{2003}' || c == '\u{2004}'
        || c == '\u{2005}' || c == '\u{2006}' || c == '\u{2007}' || c == '\u{2008}'
        || c == '\u{2009}' || c == '\u{200a}' || c == '\u{2028}' || c == '\u{2029}'
        || c == '\u{202f}' || c == '\u{205f}' || c == '\u{3000}'
}

/// Whether `c` is an ASCII decimal digit.
pub open spec fn is_digit(c: char) -> bool {
    '0' <= c && c <= '9'
}

/// The numeric value of an ASCII decimal digit.
pub open spec fn digit_val(c: char) -> int {
    c as int - '0' as int
}

/// The position of the first character at or after `i` that is not Unicode
/// whitespace; `s.len()` if there is none.
pub open spec fn skip_spaces(s: Seq<char>, i: int) -> int
    recommends
        0 <= i <= s.len(),
    decreases s.len() - i when 0 <= i <= s.len()
{
    if i < s.len() && is_space_char(s[i]) {
        skip_spaces(s, i + 1)
    } else {
        i
    }
}

pub proof fn lemma_skip_spaces_bounds(s: Seq<char>, i: int)
    requires
        0 <= i <= s.len(),
    ensures
        i <= skip_spaces(s, i) <= s.len(),
    decreases s.len() - i,
{
    if i < s.len() && is_space_char(s[i]) {
        lemma_skip_spaces_bounds(s, i + 1);
    }
}

/// The end of the run of ASCII digits that starts at `i`, reading at most
/// `max` digits.
pub open spec fn digits_end(s: Seq<char>, i: int, max: int) -> int
    recommends
        0 <= i <= s.len(),
    decreases max when 0 <= i <= s.len()
{
    if max > 0 && i < s.len() && is_digit(s[i]) {
        digits_end(s, i + 1, max - 1)
    } else {
        i
    }
}

pub proof fn lemma_digits_end_bounds(s: Seq<char>, i: int, max: int)
    requires
        0 <= i <= s.len(),
        0 <= max,
    ensures
        i <= digits_end(s, i, max) <= s.len(),
        digits_end(s, i, max) <= i + max,
        forall|j: int| i <= j < digits_end(s, i, max) ==> is_digit(s[j]),
    decreases max,
{
    if max > 0 && i < s.len() && is_digit(s[i]) {
        lemma_digits_end_bounds(s, i + 1, max - 1);
    }
}

/// The value of the decimal digits `s[i..end]`.
pub open spec fn digits_val(s: Seq<char>, i: int, end: int) -> int
    recommends
        0 <= i <= end <= s.len(),
    decreases end - i when i <= end
{
    if i >= end {
        0
    } else {
        digits_val(s, i, end - 1) * 10 + digit_val(s[end - 1])
    }
}

/// The value of up to four digits is below ten thousand, one power of ten
/// per digit read.
pub proof fn lemma_digits_val_bound(s: Seq<char>, i: int, e: int)
    requires
        0 <= i <= e <= s.len(),
        e <= i + 4,
        forall|j: int| i <= j < e ==> is_digit(s[j]),
    ensures
        0 <= digits_val(s, i, e),
        e - i <= 1 ==> digits_val(s, i, e) <= 9,
        e - i <= 2 ==> digits_val(s, i, e) <= 99,
        e - i <= 3 ==> digits_val(s, i, e) <= 999,
        digits_val(s, i, e) <= 9999,
    decreases e - i,
{
    if i < e {
        lemma_digits_val_bound(s, i, e - 1);
    }
}

/// The position of the first `-` or `+` at or after `i`; `s.len()` if there
/// is none.
pub open spec fn sign_pos(s: Seq<char>, i: int) -> int
    recommends
        0 <= i <= s.len(),
    decreases s.len() - i when 0 <= i <= s.len()
{
    if i < s.len() && !(s[i] == '-' || s[i] == '+') {
        sign_pos(s, i + 1)
    } else {
        i
    }
}

pub proof fn lemma_sign_pos_bounds(s: Seq<char>, i: int)
    requires
        0 <= i <= s.len(),
    ensures
        i <= sign_pos(s, i) <= s.len(),
        sign_pos(s, i) < s.len() ==> (s[sign_pos(s, i)] == '-' || s[sign_pos(s, i)] == '+'),
        forall|j: int| i <= j < sign_pos(s, i) ==> !(s[j] == '-' || s[j] == '+'),
    decreases s.len() - i,
{
    if i < s.len() && !(s[i] == '-' || s[i] == '+') {
        lemma_sign_pos_bounds(s, i + 1);
    }
}

/// The prefix of `s` before its first `-` or `+`; `s` itself if it holds
/// neither. This is the truncation applied to a timestamp segment before
/// date/time parsing: whatever follows the first sign is taken for a
/// timezone offset and discarded.
pub open spec fn before_sign(s: Seq<char>) -> Seq<char> {
    s.take(sign_pos(s, 0))
}

/// The position of the first occurrence of two consecutive spaces at or
/// after `i`; `s.len()` if there is none.
pub open spec fn double_space_pos(s: Seq<char>, i: int) -> int
    recommends
        0 <= i <= s.len(),
    decreases s.len() - i when 0 <= i <= s.len()
{
    if i + 2 <= s.len() {
        if s[i] == ' ' && s[i + 1] == ' ' {
            i
        } else {
            double_space_pos(s, i + 1)
        }
    } else {
        s.len() as int
    }
}

pub proof fn lemma_double_space_pos_bounds(s: Seq<char>, i: int)
    requires
        0 <= i <= s.len(),
    ensures
        i <= double_space_pos(s, i) <= s.len(),
        double_space_pos(s, i) + 2 <= s.len() || double_space_pos(s, i) == s.len(),
        double_space_pos(s, i) + 2 <= s.len() ==> (s[double_space_pos(s, i)] == ' '
            && s[double_space_pos(s, i) + 1] == ' '),
        forall|j: int|
            i <= j && j + 2 <= s.len() && j < double_space_pos(s, i) ==> !(#[trigger] s[j] == ' '
                && s[j + 1] == ' '),
    decreases s.len() - i,
{
    if i + 2 <= s.len() && !(s[i] == ' ' && s[i + 1] == ' ') {
        lemma_double_space_pos_bounds(s, i + 1);
    }
}

/// The first sign lies exactly where the first sign character stands: at
/// the first position `p` at or after `i` whose character is `-` or `+`,
/// or at the end when no position holds one.
pub proof fn lemma_sign_pos_is(s: Seq<char>, i: int, p: int)
    requires
        0 <= i <= p <= s.len(),
        forall|j: int| i <= j < p ==> !(s[j] == '-' || s[j] == '+'),
        p < s.len() ==> (s[p] == '-' || s[p] == '+'),
    ensures
        sign_pos(s, i) == p,
    decreases p - i,
{
    if i < p {
        lemma_sign_pos_is(s, i + 1, p);
    }
}

/// The first double space lies exactly where the first pair of consecutive
/// spaces stands, or at the end when no pair exists.
pub proof fn lemma_double_space_pos_is(s: Seq<char>, i: int, p: int)
    requires
        0 <= i <= p <= s.len(),
        forall|j: int| i <= j && j + 2 <= s.len() && j < p ==> !(#[trigger] s[j] == ' ' && s[j + 1]
            == ' '),
        p == s.len() || (p + 2 <= s.len() && s[p] == ' ' && s[p + 1] == ' '),
    ensures
        double_space_pos(s, i) == p,
    decreases p - i,
{
    if i < p {
        lemma_double_space_pos_is(s, i + 1, p);
    }
}

/// Executable counterpart of [`skip_spaces`].
pub fn skip_spaces_run(v: &Vec<char>, start: usize) -> (r: usize)
    requires
        start <= v.len(),
    ensures
        r as int == skip_spaces(v@, start as int),
        start <= r <= v.len(),
{
    let mut i = start;
    while i < v.len() && space_char(v[i])
        invariant
            start <= i <= v.len(),
            skip_spaces(v@, start as int) == skip_spaces(v@, i as int),
        decreases v.len() - i,
    {
        i = i + 1;
    }
    i
}

/// Executable counterpart of [`digits_end`] and [`digits_val`]: the end of
/// the digit run that starts at `start`, capped at `max` digits, together
/// with the value of those digits.
pub fn scan_number(v: &Vec<char>, start: usize, max: usize) -> (r: (usize, u32))
    requires
        start <= v.len(),
        max <= 4,
    ensures
        r.0 as int == digits_end(v@, start as int, max as int),
        r.1 as int == digits_val(v@, start as int, r.0 as int),
        start <= r.0 <= v.len(),
        r.0 <= start + max,
        r.1 <= 9999,
{
    let mut i = start;
    let mut val: u32 = 0;
    let mut left = max;
    while left > 0 && i < v.len() && '0' <= v[i] && v[i] <= '9'
        invariant
            start <= i <= v.len(),
            i + left == start + max,
            max <= 4,
            val as int == digits_val(v@, start as int, i as int),
            i - start <= 0 ==> val == 0,
            i - start <= 1 ==> val <= 9,
            i - start <= 2 ==> val <= 99,
            i - start <= 3 ==> val <= 999,
            val <= 9999,
            digits_end(v@, start as int, max as int) == digits_end(v@, i as int, left as int),
        decreases left,
    {
        let d: u32 = (v[i] as u32) - ('0' as u32);
        assert(d <= 9);
        val = val * 10 + d;
        i = i + 1;
        left = left - 1;
    }
    (i, val)
}

/// Executable counterpart of [`sign_pos`].
pub fn sign_pos_run(v: &Vec<char>, start: usize) -> (r: usize)
    requires
        start <= v.len(),
    ensures
        r as int == sign_pos(v@, start as int),
        start <= r <= v.len(),
{
    let mut i = start;
    while i < v.len() && !(v[i] == '-' || v[i] == '+')
        invariant
            start <= i <= v.len(),
            sign_pos(v@, start as int) == sign_pos(v@, i as int),
        decreases v.len() - i,
    {
        i = i + 1;
    }
    i
}

/// Executable counterpart of [`double_space_pos`].
pub fn double_space_pos_run(v: &Vec<char>, start: usize) -> (r: usize)
    requires
        start <= v.len(),
    ensures
        r as int == double_space_pos(v@, start as int),
        start <= r <= v.len(),
{
    let mut i = start;
    while i < v.len() && i + 1 < v.len() && !(v[i] == ' ' && v[i + 1] == ' ')
        invariant
            start <= i <= v.len(),
            double_space_pos(v@, start as int) == double_space_pos(v@, i as int),
        decreases v.len() - i,
    {
        i = i + 1;
    }
    proof {
        lemma_double_space_pos_bounds(v@, i as int);
    }
    if i < v.len() && i + 1 < v.len() {
        i
    } else {
        v.len()
    }
}

/// A copy of `v[from..to]` as a fresh vector.
pub fn copy_range(v: &Vec<char>, from: usize, to: usize) -> (r: Vec<char>)
    requires
        from <= to <= v.len(),
    ensures
        r@ == v@.subrange(from as int, to as int),
{
    let mut out: Vec<char> = Vec::new();
    let mut k = from;
    while k < to
        invariant
            from <= k <= to <= v.len(),
            out@ == v@.subrange(from as int, k as int),
        decreases to - k,
    {
        out.push(v[k]);
        proof {
            assert(out@ =~= v@.subrange(from as int, k + 1 as int));
        }
        k = k + 1;
    }
    out
}

/// Relies on `str::chars`: the characters of a string slice, in order.
#[verifier::external_body]
pub fn str_to_chars(s: &str) -> (r: Vec<char>)
    ensures
        r@ == s@,
{
    s.chars().collect()
}

/// Relies on `String`'s `FromIterator<char>`: collecting characters builds
/// the string of exactly those characters, in order.
#[verifier::external_body]
pub fn chars_to_string(v: &Vec<char>) -> (r: String)
    ensures
        r@ == v@,
{
    v.iter().collect()
}

} // verus!
