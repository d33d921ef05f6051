//! The record of the last check for a language server update: its file,
//! its text, and when the next check is due.

use vstd::prelude::*;
use crate::text::{char_vec, is_white_space, leading_white_space, push_char, trim_end, trim_start};
use crate::items::owned;

verus! {

/// The file that records the last update check.
pub open spec fn update_check_file() -> Seq<char> {
    ".ctrmml-lsp-last-check"@
}

/// The path of the file that records the last update check.
pub fn update_check_path() -> (p: String)
    ensures
        p@ == update_check_file(),
{
    owned(".ctrmml-lsp-last-check")
}

/// Seconds between two update checks (thirty minutes).
pub open spec fn update_check_interval() -> int {
    1800
}

/// Whether an update check is due, given the time of the last one and the
/// current time (seconds since the Unix epoch; `None` for a time that is
/// unknown or before the epoch): when there was none, when the clock stands
/// before it, or when thirty minutes have passed.
pub open spec fn check_due(last: Option<u64>, now: Option<u64>) -> bool {
    match last {
        None => true,
        Some(l) => match now {
            None => true,
            Some(n) => n < l || n - l >= update_check_interval(),
        },
    }
}

/// Whether an update check is due.
pub fn update_check_due(last: Option<u64>, now: Option<u64>) -> (due: bool)
    ensures
        due == check_due(last, now),
{
    match last {
        None => true,
        Some(l) => match now {
            None => true,
            Some(n) => n < l || n - l >= 1800,
        },
    }
}

/// The number an ASCII digit stands for.
pub open spec fn digit_value(c: char) -> int {
    (c as int) - ('0' as int)
}

/// Whether every character of `s` is an ASCII digit.
pub open spec fn all_digits(s: Seq<char>) -> bool {
    forall|i: int| 0 <= i < s.len() ==> crate::text::is_digit(#[trigger] s[i])
}

/// The number that the decimal digits `s` stand for.
pub open spec fn decimal_value(s: Seq<char>) -> int
    decreases s.len(),
{
    if s.len() == 0 {
        0
    } else {
        decimal_value(s.drop_last()) * 10 + digit_value(s.last())
    }
}

/// `s` without white space at either end (`str::trim`).
pub open spec fn trim(s: Seq<char>) -> Seq<char> {
    trim_end(trim_start(s))
}

/// A `u64` as `str::parse::<u64>` reads it: an optional `+`, then one or
/// more ASCII digits whose value fits.
pub open spec fn parse_u64(s: Seq<char>) -> Option<u64> {
    let digits = if s.len() > 0 && s[0] == '+' {
        s.drop_first()
    } else {
        s
    };
    if digits.len() > 0 && all_digits(digits) && decimal_value(digits) <= u64::MAX {
        Some(decimal_value(digits) as u64)
    } else {
        None
    }
}

/// The time recorded in the text of the update-check file.
pub open spec fn recorded_time(contents: Seq<char>) -> Option<u64> {
    parse_u64(trim(contents))
}

/// The index in `v` where `trim_end(v@)` ends.
fn trailing_white_space(v: &Vec<char>) -> (n: usize)
    ensures
        n <= v.len(),
        v@.take(n as int) == trim_end(v@),
{
    let mut n = v.len();
    assert(v@.take(n as int) =~= v@);
    while n > 0 && is_white_space_char(v[n - 1])
        invariant
            n <= v.len(),
            trim_end(v@.take(n as int)) == trim_end(v@),
        decreases n,
    {
        assert(v@.take(n as int).drop_last() =~= v@.take(n - 1));
        n = n - 1;
    }
    n
}

/// `char::is_whitespace`.
fn is_white_space_char(c: char) -> (r: bool)
    ensures
        r == is_white_space(c),
{
    crate::text::is_whitespace(c)
}

/// Reads the time of the last update check from the text of its file.
pub fn parse_last_update_check(contents: &str) -> (r: Option<u64>)
    ensures
        r == recorded_time(contents@),
{
    let chars = char_vec(contents);
    let start = leading_white_space(&chars);
    let rest: Vec<char> = slice_to_vec(&chars, start, chars.len());
    assert(rest@ == trim_start(contents@));
    let end = trailing_white_space(&rest);
    let t = slice_to_vec(&rest, 0, end);
    assert(t@ =~= trim(contents@));
    let first: usize = if t.len() > 0 && t[0] == '+' {
        1
    } else {
        0
    };
    let ghost digits = t@.skip(first as int);
    assert(digits =~= if t@.len() > 0 && t@[0] == '+' {
        t@.drop_first()
    } else {
        t@
    });
    if first >= t.len() {
        return None;
    }
    let mut i = first;
    while i < t.len()
        invariant
            first <= i <= t.len(),
            digits == t@.skip(first as int),
            t@ == trim(contents@),
            digits == (if t@.len() > 0 && t@[0] == '+' {
                t@.drop_first()
            } else {
                t@
            }),
            forall|k: int| first <= k < i ==> crate::text::is_digit(#[trigger] t@[k]),
        decreases t.len() - i,
    {
        if !('0' <= t[i] && t[i] <= '9') {
            assert(!all_digits(digits)) by {
                assert(digits[i - first] == t@[i as int]);
            }
            return None;
        }
        i = i + 1;
    }
    assert(all_digits(digits)) by {
        assert forall|k: int| 0 <= k < digits.len() implies crate::text::is_digit(
            #[trigger] digits[k],
        ) by {
            assert(digits[k] == t@[first + k]);
        }
    }
    let mut value: u64 = 0;
    let mut i = first;
    assert(digits.take(0) =~= Seq::<char>::empty());
    while i < t.len()
        invariant
            first <= i <= t.len(),
            digits == t@.skip(first as int),
            t@ == trim(contents@),
            digits == (if t@.len() > 0 && t@[0] == '+' {
                t@.drop_first()
            } else {
                t@
            }),
            digits.len() > 0,
            all_digits(digits),
            value == decimal_value(digits.take(i - first)),
        decreases t.len() - i,
    {
        let c = t[i];
        assert(digits.take(i + 1 - first).drop_last() =~= digits.take(i - first));
        assert(digits.take(i + 1 - first).last() == c);
        assert(crate::text::is_digit(digits[i - first]));
        let d = (c as u32 - '0' as u32) as u64;
        proof {
            lemma_prefix_value_bound(digits, i + 1 - first);
            lemma_prefix_value_bound(digits, i - first);
        }
        assert(d == digit_value(c));
        match value.checked_mul(10) {
            Some(m) => match m.checked_add(d) {
                Some(v) => {
                    value = v;
                },
                None => {
                    return None;
                },
            },
            None => {
                return None;
            },
        }
        i = i + 1;
    }
    assert(digits.take(i - first) =~= digits);
    Some(value)
}

/// A prefix of digits never stands for more than the whole.
proof fn lemma_prefix_value_bound(s: Seq<char>, k: int)
    requires
        0 <= k <= s.len(),
        all_digits(s),
    ensures
        decimal_value(s.take(k)) <= decimal_value(s),
        decimal_value(s.take(k)) >= 0,
    decreases s.len(),
{
    lemma_value_nonneg(s.take(k));
    if k < s.len() {
        assert(s.drop_last().take(k) =~= s.take(k));
        lemma_prefix_value_bound(s.drop_last(), k);
        lemma_value_nonneg(s.drop_last());
        assert(crate::text::is_digit(s[s.len() - 1]));
    } else {
        assert(s.take(k) =~= s);
    }
}

/// Digits stand for a number that is not negative.
proof fn lemma_value_nonneg(s: Seq<char>)
    requires
        all_digits(s),
    ensures
        decimal_value(s) >= 0,
    decreases s.len(),
{
    if s.len() > 0 {
        lemma_value_nonneg(s.drop_last());
        assert(crate::text::is_digit(s[s.len() - 1]));
    }
}

/// A copy of `v[from..to]`.
fn slice_to_vec(v: &Vec<char>, from: usize, to: usize) -> (r: Vec<char>)
    requires
        from <= to <= v.len(),
    ensures
        r@ == v@.subrange(from as int, to as int),
{
    let mut r: Vec<char> = Vec::new();
    let mut i = from;
    while i < to
        invariant
            from <= i <= to <= v.len(),
            r@ == v@.subrange(from as int, i as int),
        decreases to - i,
    {
        r.push(v[i]);
        i = i + 1;
        assert(r@ =~= v@.subrange(from as int, i as int));
    }
    r
}

/// The ASCII digit for a number below ten.
pub open spec fn digit_char(d: int) -> char {
    if d == 0 {
        '0'
    } else if d == 1 {
        '1'
    } else if d == 2 {
        '2'
    } else if d == 3 {
        '3'
    } else if d == 4 {
        '4'
    } else if d == 5 {
        '5'
    } else if d == 6 {
        '6'
    } else if d == 7 {
        '7'
    } else if d == 8 {
        '8'
    } else {
        '9'
    }
}

/// The decimal digits of `n`, without leading zeros (`u64::to_string`).
pub open spec fn decimal_digits(n: nat) -> Seq<char>
    decreases n,
{
    if n < 10 {
        seq![digit_char(n as int)]
    } else {
        decimal_digits(n / 10).push(digit_char((n % 10) as int))
    }
}

/// Appends the decimal digits of `n` to `s`.
fn push_decimal(s: &mut String, n: u64)
    ensures
        final(s)@ == old(s)@ + decimal_digits(n as nat),
    decreases n,
{
    if n >= 10 {
        push_decimal(s, n / 10);
    }
    let d = (n % 10) as u32;
    let c = char_from_digit(d);
    let ghost before = s@;
    push_char(s, c);
    assert(s@ =~= old(s)@ + decimal_digits(n as nat));
}

/// The ASCII digit for `d`.
fn char_from_digit(d: u32) -> (c: char)
    requires
        d < 10,
    ensures
        c == digit_char(d as int),
{
    if d == 0 {
        '0'
    } else if d == 1 {
        '1'
    } else if d == 2 {
        '2'
    } else if d == 3 {
        '3'
    } else if d == 4 {
        '4'
    } else if d == 5 {
        '5'
    } else if d == 6 {
        '6'
    } else if d == 7 {
        '7'
    } else if d == 8 {
        '8'
    } else {
        '9'
    }
}

/// The text written to the update-check file for time `secs`.
pub fn format_update_check(secs: u64) -> (text: String)
    ensures
        text@ == decimal_digits(secs as nat),
{
    let mut s = String::new();
    push_decimal(&mut s, secs);
    assert(s@ =~= decimal_digits(secs as nat));
    s
}

/// A digit character stands for its number.
proof fn lemma_digit(d: int)
    requires
        0 <= d < 10,
    ensures
        digit_value(digit_char(d)) == d,
        crate::text::is_digit(digit_char(d)),
{
}

/// Decimal digits are digits, read back as the number they came from.
pub proof fn lemma_decimal_round_trip(n: nat)
    ensures
        all_digits(decimal_digits(n)),
        decimal_value(decimal_digits(n)) == n,
        decimal_digits(n).len() > 0,
        decimal_digits(n)[0] != '+',
        !is_white_space(decimal_digits(n)[0]),
        !is_white_space(decimal_digits(n).last()),
    decreases n,
{
    lemma_digit((n % 10) as int);
    if n < 10 {
        let s = decimal_digits(n);
        assert(s.drop_last() =~= Seq::<char>::empty());
        assert(decimal_value(Seq::<char>::empty()) == 0);
    } else {
        lemma_decimal_round_trip(n / 10);
        let s = decimal_digits(n);
        assert(s.drop_last() =~= decimal_digits(n / 10));
        assert forall|i: int| 0 <= i < s.len() implies crate::text::is_digit(#[trigger] s[i]) by {
            if i < s.len() - 1 {
                assert(s[i] == decimal_digits(n / 10)[i]);
            }
        }
    }
}

/// What is written for a check at time `t` reads back as `t`: the record
/// of an update check survives its file.
pub proof fn law_recorded_time_round_trip(t: u64)
    ensures
        recorded_time(decimal_digits(t as nat)) == Some(t),
{
    let s = decimal_digits(t as nat);
    lemma_decimal_round_trip(t as nat);
    assert(trim_start(s) == s);
    assert(trim_end(s) == s);
}

/// After a check recorded at time `t`, the next one is due exactly when
/// thirty minutes have passed, or the clock has gone back before `t`.
pub proof fn law_check_due_after_record(t: u64, now: u64)
    ensures
        check_due(recorded_time(decimal_digits(t as nat)), Some(now)) == (now < t || now - t
            >= update_check_interval()),
{
    law_recorded_time_round_trip(t);
}

} // verus!
