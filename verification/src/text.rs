//! Scanning and building of character sequences: white space, searching,
//! trimming, and unsigned decimal numbers.

use crate::date_time::digit_char;
use vstd::prelude::*;
use vstd::slice::slice_subrange;

verus! {

/// `String::push` appends one character to the end of the string.
pub assume_specification[ String::push ](s: &mut String, ch: char)
    ensures
        final(s)@ == old(s)@.push(ch),
;

/// White space as Unicode defines it (the property `White_Space`).
pub open spec fn is_space(c: char) -> bool {
    let n = c as u32;
    (0x09 <= n <= 0x0D) || n == 0x20 || n == 0x85 || n == 0xA0 || n == 0x1680 || (0x2000 <= n
        <= 0x200A) || n == 0x2028 || n == 0x2029 || n == 0x202F || n == 0x205F || n == 0x3000
}

/// Whether a character is white space.
pub fn is_space_char(c: char) -> (r: bool)
    ensures
        r == is_space(c),
{
    let n: u32 = c as u32;
    (0x09 <= n && n <= 0x0D) || n == 0x20 || n == 0x85 || n == 0xA0 || n == 0x1680 || (0x2000 <= n
        && n <= 0x200A) || n == 0x2028 || n == 0x2029 || n == 0x202F || n == 0x205F || n == 0x3000
}

/// The first index at or after `from` that holds `c`; the length of `s` where
/// there is none.
pub open spec fn index_of(s: Seq<char>, c: char, from: int) -> int
    decreases s.len() - from,
{
    if from < 0 || from >= s.len() {
        s.len() as int
    } else if s[from] == c {
        from
    } else {
        index_of(s, c, from + 1)
    }
}

/// What [`index_of`] returns lies in `from..=s.len()`, no `c` stands before
/// it, and `c` stands at it unless it is the length.
pub proof fn lemma_index_of(s: Seq<char>, c: char, from: int)
    requires
        0 <= from <= s.len(),
    ensures
        from <= index_of(s, c, from) <= s.len(),
        forall|k: int| from <= k < index_of(s, c, from) ==> s[k] != c,
        index_of(s, c, from) < s.len() ==> s[index_of(s, c, from)] == c,
    decreases s.len() - from,
{
    if from < s.len() && s[from] != c {
        lemma_index_of(s, c, from + 1);
    }
}

/// An index with no `c` between `from` and it, and with `c` at it or the end
/// of `s` there, is what [`index_of`] returns.
pub proof fn lemma_index_of_is(s: Seq<char>, c: char, from: int, at: int)
    requires
        0 <= from <= at <= s.len(),
        forall|k: int| from <= k < at ==> s[k] != c,
        at < s.len() ==> s[at] == c,
    ensures
        index_of(s, c, from) == at,
    decreases at - from,
{
    if from < at {
        lemma_index_of_is(s, c, from + 1, at);
    }
}

/// Searches `s` for `c` from index `from` on.
pub fn find_char(s: &[char], c: char, from: usize) -> (r: usize)
    ensures
        r == index_of(s@, c, from as int),
        r <= s@.len(),
        from <= s@.len() ==> from <= r,
{
    if from >= s.len() {
        return s.len();
    }
    let mut i: usize = from;
    while i < s.len()
        invariant
            from <= i <= s@.len(),
            index_of(s@, c, i as int) == index_of(s@, c, from as int),
        decreases s@.len() - i,
    {
        if s[i] == c {
            return i;
        }
        i += 1;
    }
    i
}

/// The first index at or after `from` that holds no white space; the length
/// of `s` where there is none.
pub open spec fn skip_spaces(s: Seq<char>, from: int) -> int
    decreases s.len() - from,
{
    if from < 0 || from >= s.len() {
        s.len() as int
    } else if !is_space(s[from]) {
        from
    } else {
        skip_spaces(s, from + 1)
    }
}

/// The end of the last stretch before `to` that ends in no white space; `0`
/// where there is none.
pub open spec fn drop_spaces(s: Seq<char>, to: int) -> int
    decreases to,
{
    if to <= 0 || to > s.len() {
        0
    } else if !is_space(s[to - 1]) {
        to
    } else {
        drop_spaces(s, to - 1)
    }
}

/// `s` without the white space at its two ends.
pub open spec fn trimmed(s: Seq<char>) -> Seq<char> {
    let a = skip_spaces(s, 0);
    let b = drop_spaces(s, s.len() as int);
    if a < b {
        s.subrange(a, b)
    } else {
        Seq::empty()
    }
}

/// A sequence that neither starts nor ends in white space is its own trimmed
/// form, also behind and before white space.
pub proof fn lemma_trimmed_core(s: Seq<char>, a: int, b: int)
    requires
        0 <= a < b <= s.len(),
        forall|k: int| 0 <= k < a ==> is_space(s[k]),
        forall|k: int| b <= k < s.len() ==> is_space(s[k]),
        !is_space(s[a]),
        !is_space(s[b - 1]),
    ensures
        trimmed(s) == s.subrange(a, b),
{
    lemma_skip_spaces_is(s, 0, a);
    lemma_drop_spaces_is(s, s.len() as int, b);
}

proof fn lemma_skip_spaces_is(s: Seq<char>, from: int, at: int)
    requires
        0 <= from <= at < s.len(),
        forall|k: int| from <= k < at ==> is_space(s[k]),
        !is_space(s[at]),
    ensures
        skip_spaces(s, from) == at,
    decreases at - from,
{
    if from < at {
        lemma_skip_spaces_is(s, from + 1, at);
    }
}

proof fn lemma_drop_spaces_is(s: Seq<char>, to: int, at: int)
    requires
        0 < at <= to <= s.len(),
        forall|k: int| at <= k < to ==> is_space(s[k]),
        !is_space(s[at - 1]),
    ensures
        drop_spaces(s, to) == at,
    decreases to - at,
{
    if at < to {
        lemma_drop_spaces_is(s, to - 1, at);
    }
}

/// The trimmed form is a stretch of `s`, and where it is not empty it neither
/// starts nor ends in white space.
pub proof fn lemma_trimmed_is_stretch(s: Seq<char>)
    ensures
        exists|a: int, b: int| 0 <= a <= b <= s.len() && #[trigger] s.subrange(a, b) == trimmed(s),
        trimmed(s).len() > 0 ==> !is_space(trimmed(s)[0]) && !is_space(trimmed(s).last()),
{
    let a = skip_spaces(s, 0);
    let b = drop_spaces(s, s.len() as int);
    lemma_skip_spaces(s, 0);
    lemma_drop_spaces(s, s.len() as int);
    if a < b {
        assert(s.subrange(a, b) == trimmed(s));
    } else {
        assert(s.subrange(0, 0) =~= trimmed(s));
    }
}

proof fn lemma_skip_spaces(s: Seq<char>, from: int)
    requires
        0 <= from <= s.len(),
    ensures
        from <= skip_spaces(s, from) <= s.len(),
        skip_spaces(s, from) < s.len() ==> !is_space(s[skip_spaces(s, from)]),
    decreases s.len() - from,
{
    if from < s.len() && is_space(s[from]) {
        lemma_skip_spaces(s, from + 1);
    }
}

proof fn lemma_drop_spaces(s: Seq<char>, to: int)
    requires
        0 <= to <= s.len(),
    ensures
        0 <= drop_spaces(s, to) <= to,
        drop_spaces(s, to) > 0 ==> !is_space(s[drop_spaces(s, to) - 1]),
    decreases to,
{
    if to > 0 && is_space(s[to - 1]) {
        lemma_drop_spaces(s, to - 1);
    }
}

/// Cuts the white space off both ends of `s`.
pub fn trim(s: &[char]) -> (r: &[char])
    ensures
        r@ == trimmed(s@),
{
    let mut a: usize = 0;
    while a < s.len() && is_space_char(s[a])
        invariant
            a <= s@.len(),
            skip_spaces(s@, a as int) == skip_spaces(s@, 0),
        decreases s@.len() - a,
    {
        a += 1;
    }
    let mut b: usize = s.len();
    while b > 0 && is_space_char(s[b - 1])
        invariant
            b <= s@.len(),
            drop_spaces(s@, b as int) == drop_spaces(s@, s@.len() as int),
        decreases b,
    {
        b -= 1;
    }
    if a < b {
        slice_subrange(s, a, b)
    } else {
        slice_subrange(s, 0, 0)
    }
}

/// A decimal digit, `0` to `9`.
pub open spec fn is_digit(c: char) -> bool {
    48 <= c as u32 <= 57
}

/// The number that a decimal digit stands for.
pub open spec fn digit_value(c: char) -> int {
    c as u32 - 48
}

/// Every character of `s` is a decimal digit.
pub open spec fn all_digits(s: Seq<char>) -> bool {
    forall|i: int| 0 <= i < s.len() ==> is_digit(#[trigger] s[i])
}

/// The number that a sequence of decimal digits stands for, `0` for the empty
/// sequence.
pub open spec fn decimal_value(s: Seq<char>) -> nat
    decreases s.len(),
{
    if s.len() == 0 {
        0
    } else {
        (decimal_value(s.drop_last()) * 10 + digit_value(s.last())) as nat
    }
}

/// The unsigned 32-bit number that a text stands for: one or more decimal
/// digits, behind at most one `+`, whose value fits.
pub open spec fn unsigned_of_text(s: Seq<char>) -> Option<u32> {
    let digits = if s.len() > 0 && s[0] == '+' {
        s.drop_first()
    } else {
        s
    };
    if digits.len() > 0 && all_digits(digits) && decimal_value(digits) <= u32::MAX {
        Some(decimal_value(digits) as u32)
    } else {
        None
    }
}

/// The decimal digits of a number, without leading zeros.
pub open spec fn decimal_text(n: nat) -> Seq<char>
    decreases n,
{
    if n < 10 {
        seq![digit_char(n as int)]
    } else {
        decimal_text(n / 10).push(digit_char((n % 10) as int))
    }
}

/// A digit sequence stands for at least what any of its prefixes stands for.
pub proof fn lemma_decimal_value_grows(s: Seq<char>, n: int)
    requires
        0 <= n <= s.len(),
        all_digits(s),
    ensures
        decimal_value(s.take(n)) <= decimal_value(s),
    decreases s.len() - n,
{
    if n < s.len() {
        lemma_decimal_value_grows(s, n + 1);
        assert(s.take(n + 1).drop_last() =~= s.take(n));
        assert(is_digit(s[n]));
    } else {
        assert(s.take(n) =~= s);
    }
}

/// The digits of a number are digits, at least one, and stand for the number.
pub proof fn lemma_decimal_text(n: nat)
    ensures
        decimal_text(n).len() > 0,
        all_digits(decimal_text(n)),
        decimal_value(decimal_text(n)) == n,
    decreases n,
{
    if n < 10 {
        let s = decimal_text(n);
        assert(s.drop_last() =~= Seq::<char>::empty());
        assert(decimal_value(s.drop_last()) == 0);
    } else {
        lemma_decimal_text(n / 10);
        let s = decimal_text(n);
        assert(s.drop_last() =~= decimal_text(n / 10));
        assert(digit_value(s.last()) == n % 10);
    }
}

/// Writing a number and reading it back gives the number.
pub proof fn lemma_unsigned_round_trip(n: u32)
    ensures
        unsigned_of_text(decimal_text(n as nat)) == Some(n),
{
    lemma_decimal_text(n as nat);
    assert(is_digit(decimal_text(n as nat)[0]));
}

/// Reads an unsigned decimal number.
pub fn parse_unsigned(s: &[char]) -> (r: Option<u32>)
    ensures
        r == unsigned_of_text(s@),
{
    let digits = if s.len() > 0 && s[0] == '+' {
        slice_subrange(s, 1, s.len())
    } else {
        s
    };
    if digits.len() == 0 {
        return None;
    }
    let mut value: u64 = 0;
    let mut i: usize = 0;
    while i < digits.len()
        invariant
            i <= digits@.len(),
            digits@.len() > 0,
            digits@ == (if s@.len() > 0 && s@[0] == '+' {
                s@.drop_first()
            } else {
                s@
            }),
            all_digits(digits@.take(i as int)),
            value == decimal_value(digits@.take(i as int)),
            value <= u32::MAX,
        decreases digits@.len() - i,
    {
        let c = digits[i];
        let n: u32 = c as u32;
        if n < 48 || n > 57 {
            assert(!is_digit(digits@[i as int]));
            return None;
        }
        proof {
            assert(digits@.take(i + 1).drop_last() =~= digits@.take(i as int));
            assert forall|k: int| 0 <= k < i + 1 implies is_digit(
                #[trigger] digits@.take(i + 1)[k],
            ) by {
                if k < i {
                    assert(digits@.take(i + 1)[k] == digits@.take(i as int)[k]);
                }
            }
        }
        value = value * 10 + (n - 48) as u64;
        i += 1;
        if value > 0xFFFF_FFFF {
            proof {
                if all_digits(digits@) {
                    lemma_decimal_value_grows(digits@, i as int);
                }
            }
            return None;
        }
    }
    assert(digits@.take(i as int) =~= digits@);
    Some(value as u32)
}

/// The character for a digit value.
fn digit(d: u32) -> (r: char)
    requires
        d < 10,
    ensures
        r == digit_char(d as int),
{
    if d == 0 {
        '0'
    } else if d == 1 {
        '1'
    } else if d == 2 {
        '2'
    } else if d == 3 {
        '3'
    } else if d == 4 {
        '4'
    } else if d == 5 {
        '5'
    } else if d == 6 {
        '6'
    } else if d == 7 {
        '7'
    } else if d == 8 {
        '8'
    } else {
        '9'
    }
}

/// Appends the decimal digits of `n` to `out`.
pub fn push_decimal(out: &mut String, n: u32)
    ensures
        final(out)@ == old(out)@ + decimal_text(n as nat),
    decreases n,
{
    if n >= 10 {
        push_decimal(out, n / 10);
    }
    out.push(digit(n % 10));
    assert(final(out)@ =~= old(out)@ + decimal_text(n as nat));
}

/// Appends the characters of `s` to `out`.
pub fn push_chars(out: &mut String, s: &[char])
    ensures
        final(out)@ == old(out)@ + s@,
{
    let mut i: usize = 0;
    while i < s.len()
        invariant
            i <= s@.len(),
            out@ == old(out)@ + s@.take(i as int),
        decreases s@.len() - i,
    {
        out.push(s[i]);
        i += 1;
        assert(out@ =~= old(out)@ + s@.take(i as int));
    }
    assert(s@.take(i as int) =~= s@);
}

/// The string that holds the characters of `s`.
pub fn string_of(s: &[char]) -> (r: String)
    ensures
        r@ == s@,
{
    let mut out = String::new();
    push_chars(&mut out, s);
    assert(out@ =~= s@);
    out
}

/// The characters of a string, in order.
pub fn chars_of(s: &str) -> (r: Vec<char>)
    ensures
        r@ == s@,
{
    let mut out: Vec<char> = Vec::new();
    for c in it: s.chars()
        invariant
            out@ == it.seq().take(it.index() as int),
    {
        out.push(c);
    }
    out
}

} // verus!
