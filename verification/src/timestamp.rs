//! Timestamps of the wire contract's fixed textual format
//! `YYYY-MM-DDTHH:MM:SS.mmmZ`, held as plain calendar fields.
//!
//! The crate never asks a clock for the time: callers hand timestamps
//! in, either parsed from the wire with [`parse_timestamp`] or built
//! directly, and get them back out with [`format_timestamp`].

use vstd::prelude::*;
use vstd::string::StrSliceExecFns;
use vstd::string::StringExecFns;
use crate::text::{
    dec_digit_char, dec_digit_str, dec_digit_val, is_dec_digit, lemma_digit_char_val,
    lemma_digit_val_char,
};

verus! {

/// A calendar instant, millisecond precision, field by field.
#[derive(Clone, Copy, PartialEq, Eq, Structural, Debug)]
pub struct Timestamp {
    pub year: u16,
    pub month: u8,
    pub day: u8,
    pub hour: u8,
    pub minute: u8,
    pub second: u8,
    pub millisecond: u16,
}

pub open spec fn is_leap_year(y: int) -> bool {
    y % 4 == 0 && (y % 100 != 0 || y % 400 == 0)
}

pub open spec fn days_in_month(y: int, m: int) -> int {
    if m == 2 {
        if is_leap_year(y) {
            29
        } else {
            28
        }
    } else if m == 4 || m == 6 || m == 9 || m == 11 {
        30
    } else {
        31
    }
}

impl Timestamp {
    /// A well-formed instant: four-digit year, real calendar date,
    /// fields in range.
    pub open spec fn wf(self) -> bool {
        &&& self.year <= 9999
        &&& 1 <= self.month <= 12
        &&& 1 <= self.day <= days_in_month(self.year as int, self.month as int)
        &&& self.hour <= 23
        &&& self.minute <= 59
        &&& self.second <= 59
        &&& self.millisecond <= 999
    }

    /// This instant on a single scale: strictly larger exactly for
    /// chronologically later well-formed instants.
    pub open spec fn key(self) -> int {
        (((((self.year * 13 + self.month) * 32 + self.day) * 24 + self.hour) * 60 + self.minute)
            * 60 + self.second) * 1000 + self.millisecond
    }
}

/// Chronological order on the calendar fields, most significant first.
pub open spec fn ts_lt(a: Timestamp, b: Timestamp) -> bool {
    if a.year != b.year {
        a.year < b.year
    } else if a.month != b.month {
        a.month < b.month
    } else if a.day != b.day {
        a.day < b.day
    } else if a.hour != b.hour {
        a.hour < b.hour
    } else if a.minute != b.minute {
        a.minute < b.minute
    } else if a.second != b.second {
        a.second < b.second
    } else {
        a.millisecond < b.millisecond
    }
}

/// The single scale agrees with field-by-field chronological order.
pub proof fn lemma_key_orders(a: Timestamp, b: Timestamp)
    requires
        a.wf(),
        b.wf(),
    ensures
        ts_lt(a, b) <==> a.key() < b.key(),
        (a == b) <==> a.key() == b.key(),
{
}

/// Whether `a` is chronologically before `b`.
pub fn ts_before(a: &Timestamp, b: &Timestamp) -> (r: bool)
    ensures
        r == ts_lt(*a, *b),
{
    if a.year != b.year {
        a.year < b.year
    } else if a.month != b.month {
        a.month < b.month
    } else if a.day != b.day {
        a.day < b.day
    } else if a.hour != b.hour {
        a.hour < b.hour
    } else if a.minute != b.minute {
        a.minute < b.minute
    } else if a.second != b.second {
        a.second < b.second
    } else {
        a.millisecond < b.millisecond
    }
}

/// The value of the two-digit group at `i`.
pub open spec fn num2(s: Seq<char>, i: int) -> int {
    10 * dec_digit_val(s[i]) as int + dec_digit_val(s[i + 1]) as int
}

/// The value of the three-digit group at `i`.
pub open spec fn num3(s: Seq<char>, i: int) -> int {
    100 * dec_digit_val(s[i]) as int + 10 * dec_digit_val(s[i + 1]) as int + dec_digit_val(
        s[i + 2],
    ) as int
}

/// The value of the four-digit group at `i`.
pub open spec fn num4(s: Seq<char>, i: int) -> int {
    1000 * dec_digit_val(s[i]) as int + 100 * dec_digit_val(s[i + 1]) as int + 10 * dec_digit_val(
        s[i + 2],
    ) as int + dec_digit_val(s[i + 3]) as int
}

/// The exact grammar of a wire timestamp: layout, digits, separators,
/// and fields that name a real instant.
pub open spec fn valid_ts_str(s: Seq<char>) -> bool {
    &&& s.len() == 24
    &&& is_dec_digit(s[0]) && is_dec_digit(s[1]) && is_dec_digit(s[2]) && is_dec_digit(s[3])
    &&& s[4] == '-'
    &&& is_dec_digit(s[5]) && is_dec_digit(s[6])
    &&& s[7] == '-'
    &&& is_dec_digit(s[8]) && is_dec_digit(s[9])
    &&& s[10] == 'T'
    &&& is_dec_digit(s[11]) && is_dec_digit(s[12])
    &&& s[13] == ':'
    &&& is_dec_digit(s[14]) && is_dec_digit(s[15])
    &&& s[16] == ':'
    &&& is_dec_digit(s[17]) && is_dec_digit(s[18])
    &&& s[19] == '.'
    &&& is_dec_digit(s[20]) && is_dec_digit(s[21]) && is_dec_digit(s[22])
    &&& s[23] == 'Z'
    &&& 1 <= num2(s, 5) <= 12
    &&& 1 <= num2(s, 8) <= days_in_month(num4(s, 0), num2(s, 5))
    &&& num2(s, 11) <= 23
    &&& num2(s, 14) <= 59
    &&& num2(s, 17) <= 59
}

/// The instant a valid wire timestamp names.
pub open spec fn ts_of_str(s: Seq<char>) -> Timestamp {
    Timestamp {
        year: num4(s, 0) as u16,
        month: num2(s, 5) as u8,
        day: num2(s, 8) as u8,
        hour: num2(s, 11) as u8,
        minute: num2(s, 14) as u8,
        second: num2(s, 17) as u8,
        millisecond: num3(s, 20) as u16,
    }
}

/// The wire text of an instant.
pub open spec fn ts_str_spec(t: Timestamp) -> Seq<char> {
    seq![
        dec_digit_char((t.year as nat / 1000) % 10),
        dec_digit_char((t.year as nat / 100) % 10),
        dec_digit_char((t.year as nat / 10) % 10),
        dec_digit_char((t.year as nat) % 10),
        '-',
        dec_digit_char((t.month as nat / 10) % 10),
        dec_digit_char((t.month as nat) % 10),
        '-',
        dec_digit_char((t.day as nat / 10) % 10),
        dec_digit_char((t.day as nat) % 10),
        'T',
        dec_digit_char((t.hour as nat / 10) % 10),
        dec_digit_char((t.hour as nat) % 10),
        ':',
        dec_digit_char((t.minute as nat / 10) % 10),
        dec_digit_char((t.minute as nat) % 10),
        ':',
        dec_digit_char((t.second as nat / 10) % 10),
        dec_digit_char((t.second as nat) % 10),
        '.',
        dec_digit_char((t.millisecond as nat / 100) % 10),
        dec_digit_char((t.millisecond as nat / 10) % 10),
        dec_digit_char((t.millisecond as nat) % 10),
        'Z',
    ]
}

/// A valid wire timestamp names a well-formed instant, and that
/// instant's wire text is the string itself.
pub proof fn lemma_parse_format(s: Seq<char>)
    requires
        valid_ts_str(s),
    ensures
        ts_of_str(s).wf(),
        ts_str_spec(ts_of_str(s)) == s,
{
    let t = ts_of_str(s);
    let a = dec_digit_val(s[0]) as int;
    let b = dec_digit_val(s[1]) as int;
    let c = dec_digit_val(s[2]) as int;
    let d = dec_digit_val(s[3]) as int;
    assert(a <= 9 && b <= 9 && c <= 9 && d <= 9);
    let y = t.year as int;
    assert(y == 1000 * a + 100 * b + 10 * c + d);
    assert(y / 1000 == a && (y / 100) % 10 == b && (y / 10) % 10 == c && y % 10 == d) by {
        assert(y == 1000 * a + (100 * b + 10 * c + d)) by {}
        assert(y / 1000 == a) by (nonlinear_arith)
            requires
                y == 1000 * a + 100 * b + 10 * c + d,
                0 <= b <= 9,
                0 <= c <= 9,
                0 <= d <= 9,
                0 <= a,
        ;
        assert(y / 100 == 10 * a + b) by (nonlinear_arith)
            requires
                y == 1000 * a + 100 * b + 10 * c + d,
                0 <= b <= 9,
                0 <= c <= 9,
                0 <= d <= 9,
                0 <= a,
        ;
        assert((10 * a + b) % 10 == b) by (nonlinear_arith)
            requires
                0 <= b <= 9,
                0 <= a,
        ;
        assert(y / 10 == 100 * a + 10 * b + c) by (nonlinear_arith)
            requires
                y == 1000 * a + 100 * b + 10 * c + d,
                0 <= b <= 9,
                0 <= c <= 9,
                0 <= d <= 9,
                0 <= a,
        ;
        assert((100 * a + 10 * b + c) % 10 == c) by (nonlinear_arith)
            requires
                0 <= b <= 9,
                0 <= c <= 9,
                0 <= a,
        ;
        assert(y % 10 == d) by (nonlinear_arith)
            requires
                y == 1000 * a + 100 * b + 10 * c + d,
                0 <= b <= 9,
                0 <= c <= 9,
                0 <= d <= 9,
                0 <= a,
        ;
    }
    lemma_two_digit_group(s, 5);
    lemma_two_digit_group(s, 8);
    lemma_two_digit_group(s, 11);
    lemma_two_digit_group(s, 14);
    lemma_two_digit_group(s, 17);
    lemma_three_digit_group(s, 20);
    assert forall|i: int| 0 <= i < 24 && is_dec_digit(s[i]) implies dec_digit_char(
        dec_digit_val(s[i]),
    ) == s[i] by {
        lemma_digit_val_char(s[i]);
    }
    assert(ts_str_spec(t) =~= s);
}

/// The two digits at `i` come back out of the group's value.
proof fn lemma_two_digit_group(s: Seq<char>, i: int)
    requires
        0 <= i,
        i + 1 < s.len(),
        is_dec_digit(s[i]),
        is_dec_digit(s[i + 1]),
    ensures
        (num2(s, i) / 10) % 10 == dec_digit_val(s[i]),
        num2(s, i) % 10 == dec_digit_val(s[i + 1]),
        0 <= num2(s, i) <= 99,
{
    let a = dec_digit_val(s[i]) as int;
    let b = dec_digit_val(s[i + 1]) as int;
    assert(a <= 9 && b <= 9);
    assert((10 * a + b) / 10 == a && (10 * a + b) % 10 == b) by (nonlinear_arith)
        requires
            0 <= a <= 9,
            0 <= b <= 9,
    ;
}

/// The three digits at `i` come back out of the group's value.
proof fn lemma_three_digit_group(s: Seq<char>, i: int)
    requires
        0 <= i,
        i + 2 < s.len(),
        is_dec_digit(s[i]),
        is_dec_digit(s[i + 1]),
        is_dec_digit(s[i + 2]),
    ensures
        (num3(s, i) / 100) % 10 == dec_digit_val(s[i]),
        (num3(s, i) / 10) % 10 == dec_digit_val(s[i + 1]),
        num3(s, i) % 10 == dec_digit_val(s[i + 2]),
        0 <= num3(s, i) <= 999,
{
    let a = dec_digit_val(s[i]) as int;
    let b = dec_digit_val(s[i + 1]) as int;
    let c = dec_digit_val(s[i + 2]) as int;
    assert(a <= 9 && b <= 9 && c <= 9);
    let v = 100 * a + 10 * b + c;
    assert(v / 100 == a && (v / 10) % 10 == b && v % 10 == c) by (nonlinear_arith)
        requires
            v == 100 * a + 10 * b + c,
            0 <= a <= 9,
            0 <= b <= 9,
            0 <= c <= 9,
    ;
}

/// A two-digit field comes back out of its wire digits.
proof fn lemma_two_digits_back(v: int)
    requires
        0 <= v <= 99,
    ensures
        10 * ((v / 10) % 10) + v % 10 == v,
        (v / 10) % 10 < 10,
        v % 10 < 10,
{
    assert(10 * ((v / 10) % 10) + v % 10 == v) by (nonlinear_arith)
        requires
            0 <= v <= 99,
    ;
}

/// A three-digit field comes back out of its wire digits.
proof fn lemma_three_digits_back(v: int)
    requires
        0 <= v <= 999,
    ensures
        100 * ((v / 100) % 10) + 10 * ((v / 10) % 10) + v % 10 == v,
        (v / 100) % 10 < 10,
        (v / 10) % 10 < 10,
        v % 10 < 10,
{
    assert(100 * ((v / 100) % 10) + 10 * ((v / 10) % 10) + v % 10 == v) by (nonlinear_arith)
        requires
            0 <= v <= 999,
    ;
}

/// A four-digit field comes back out of its wire digits.
proof fn lemma_four_digits_back(v: int)
    requires
        0 <= v <= 9999,
    ensures
        1000 * ((v / 1000) % 10) + 100 * ((v / 100) % 10) + 10 * ((v / 10) % 10) + v % 10 == v,
        (v / 1000) % 10 < 10,
        (v / 100) % 10 < 10,
        (v / 10) % 10 < 10,
        v % 10 < 10,
{
    assert(1000 * ((v / 1000) % 10) + 100 * ((v / 100) % 10) + 10 * ((v / 10) % 10) + v % 10 == v)
        by (nonlinear_arith)
        requires
            0 <= v <= 9999,
    ;
}

/// A well-formed instant's wire text is a valid wire timestamp, and
/// names that instant back: the codec round-trips both ways.
pub proof fn lemma_format_parse(t: Timestamp)
    requires
        t.wf(),
    ensures
        valid_ts_str(ts_str_spec(t)),
        ts_of_str(ts_str_spec(t)) == t,
{
    let s = ts_str_spec(t);
    lemma_four_digits_back(t.year as int);
    lemma_two_digits_back(t.month as int);
    lemma_two_digits_back(t.day as int);
    lemma_two_digits_back(t.hour as int);
    lemma_two_digits_back(t.minute as int);
    lemma_two_digits_back(t.second as int);
    lemma_three_digits_back(t.millisecond as int);
    assert forall|i: int| 0 <= i < 24 && i != 4 && i != 7 && i != 10 && i != 13 && i != 16 && i
        != 19 && i != 23 implies is_dec_digit(#[trigger] s[i]) by {
        lemma_digit_char_val(dec_digit_val_of_position(t, i));
    }
    assert(num4(s, 0) == t.year as int) by {
        lemma_digit_char_val((t.year as nat / 1000) % 10);
        lemma_digit_char_val((t.year as nat / 100) % 10);
        lemma_digit_char_val((t.year as nat / 10) % 10);
        lemma_digit_char_val((t.year as nat) % 10);
    }
    assert(num2(s, 5) == t.month as int) by {
        lemma_digit_char_val((t.month as nat / 10) % 10);
        lemma_digit_char_val((t.month as nat) % 10);
    }
    assert(num2(s, 8) == t.day as int) by {
        lemma_digit_char_val((t.day as nat / 10) % 10);
        lemma_digit_char_val((t.day as nat) % 10);
    }
    assert(num2(s, 11) == t.hour as int) by {
        lemma_digit_char_val((t.hour as nat / 10) % 10);
        lemma_digit_char_val((t.hour as nat) % 10);
    }
    assert(num2(s, 14) == t.minute as int) by {
        lemma_digit_char_val((t.minute as nat / 10) % 10);
        lemma_digit_char_val((t.minute as nat) % 10);
    }
    assert(num2(s, 17) == t.second as int) by {
        lemma_digit_char_val((t.second as nat / 10) % 10);
        lemma_digit_char_val((t.second as nat) % 10);
    }
    assert(num3(s, 20) == t.millisecond as int) by {
        lemma_digit_char_val((t.millisecond as nat / 100) % 10);
        lemma_digit_char_val((t.millisecond as nat / 10) % 10);
        lemma_digit_char_val((t.millisecond as nat) % 10);
    }
}

/// The digit value a wire position carries.
spec fn dec_digit_val_of_position(t: Timestamp, i: int) -> nat {
    if i == 0 {
        (t.year as nat / 1000) % 10
    } else if i == 1 {
        (t.year as nat / 100) % 10
    } else if i == 2 {
        (t.year as nat / 10) % 10
    } else if i == 3 {
        (t.year as nat) % 10
    } else if i == 5 {
        (t.month as nat / 10) % 10
    } else if i == 6 {
        (t.month as nat) % 10
    } else if i == 8 {
        (t.day as nat / 10) % 10
    } else if i == 9 {
        (t.day as nat) % 10
    } else if i == 11 {
        (t.hour as nat / 10) % 10
    } else if i == 12 {
        (t.hour as nat) % 10
    } else if i == 14 {
        (t.minute as nat / 10) % 10
    } else if i == 15 {
        (t.minute as nat) % 10
    } else if i == 17 {
        (t.second as nat / 10) % 10
    } else if i == 18 {
        (t.second as nat) % 10
    } else if i == 20 {
        (t.millisecond as nat / 100) % 10
    } else if i == 21 {
        (t.millisecond as nat / 10) % 10
    } else {
        (t.millisecond as nat) % 10
    }
}

/// The wire text of an instant, `YYYY-MM-DDTHH:MM:SS.mmmZ`.
pub fn format_timestamp(t: &Timestamp) -> (s: String)
    ensures
        s@ == ts_str_spec(*t),
{
    proof {
        reveal_strlit("-");
        reveal_strlit("T");
        reveal_strlit(":");
        reveal_strlit(".");
        reveal_strlit("Z");
    }
    let mut s = String::new();
    s.append(dec_digit_str(((t.year / 1000) % 10) as u64));
    s.append(dec_digit_str(((t.year / 100) % 10) as u64));
    s.append(dec_digit_str(((t.year / 10) % 10) as u64));
    s.append(dec_digit_str((t.year % 10) as u64));
    s.append("-");
    s.append(dec_digit_str(((t.month / 10) % 10) as u64));
    s.append(dec_digit_str((t.month % 10) as u64));
    s.append("-");
    s.append(dec_digit_str(((t.day / 10) % 10) as u64));
    s.append(dec_digit_str((t.day % 10) as u64));
    s.append("T");
    s.append(dec_digit_str(((t.hour / 10) % 10) as u64));
    s.append(dec_digit_str((t.hour % 10) as u64));
    s.append(":");
    s.append(dec_digit_str(((t.minute / 10) % 10) as u64));
    s.append(dec_digit_str((t.minute % 10) as u64));
    s.append(":");
    s.append(dec_digit_str(((t.second / 10) % 10) as u64));
    s.append(dec_digit_str((t.second % 10) as u64));
    s.append(".");
    s.append(dec_digit_str(((t.millisecond / 100) % 10) as u64));
    s.append(dec_digit_str(((t.millisecond / 10) % 10) as u64));
    s.append(dec_digit_str((t.millisecond % 10) as u64));
    s.append("Z");
    proof {
        assert(s@ =~= ts_str_spec(*t));
    }
    s
}

/// The value of the two digits at `i`, if digits they are.
fn read2(s: &str, i: usize) -> (r: Option<u8>)
    requires
        i + 1 < s@.len() <= usize::MAX,
    ensures
        match r {
            Some(v) => is_dec_digit(s@[i as int]) && is_dec_digit(s@[i + 1]) && v == num2(
                s@,
                i as int,
            ),
            None => !(is_dec_digit(s@[i as int]) && is_dec_digit(s@[i + 1])),
        },
{
    let c0 = s.get_char(i) as u32;
    let c1 = s.get_char(i + 1) as u32;
    if 48 <= c0 && c0 <= 57 && 48 <= c1 && c1 <= 57 {
        Some((10 * (c0 - 48) + (c1 - 48)) as u8)
    } else {
        None
    }
}

/// The instant a wire timestamp names, or nothing when the text is not
/// a valid wire timestamp.
pub fn parse_timestamp(s: &str) -> (r: Option<Timestamp>)
    ensures
        match r {
            Some(t) => valid_ts_str(s@) && t == ts_of_str(s@) && t.wf() && ts_str_spec(t) == s@,
            None => !valid_ts_str(s@),
        },
{
    if s.unicode_len() != 24 {
        return None;
    }
    if !(s.get_char(4) == '-' && s.get_char(7) == '-' && s.get_char(10) == 'T' && s.get_char(13)
        == ':' && s.get_char(16) == ':' && s.get_char(19) == '.' && s.get_char(23) == 'Z') {
        return None;
    }
    let y0 = s.get_char(0) as u32;
    let y1 = s.get_char(1) as u32;
    let y2 = s.get_char(2) as u32;
    let y3 = s.get_char(3) as u32;
    if !(48 <= y0 && y0 <= 57 && 48 <= y1 && y1 <= 57 && 48 <= y2 && y2 <= 57 && 48 <= y3 && y3
        <= 57) {
        return None;
    }
    let year = (1000 * (y0 - 48) + 100 * (y1 - 48) + 10 * (y2 - 48) + (y3 - 48)) as u16;
    let month = match read2(s, 5) {
        Some(v) => v,
        None => {
            return None;
        },
    };
    let day = match read2(s, 8) {
        Some(v) => v,
        None => {
            return None;
        },
    };
    let hour = match read2(s, 11) {
        Some(v) => v,
        None => {
            return None;
        },
    };
    let minute = match read2(s, 14) {
        Some(v) => v,
        None => {
            return None;
        },
    };
    let second = match read2(s, 17) {
        Some(v) => v,
        None => {
            return None;
        },
    };
    let m0 = s.get_char(20) as u32;
    let m1 = s.get_char(21) as u32;
    let m2 = s.get_char(22) as u32;
    if !(48 <= m0 && m0 <= 57 && 48 <= m1 && m1 <= 57 && 48 <= m2 && m2 <= 57) {
        return None;
    }
    let millisecond = (100 * (m0 - 48) + 10 * (m1 - 48) + (m2 - 48)) as u16;
    if !(1 <= month && month <= 12) {
        return None;
    }
    if !(1 <= day && day <= days_in_month_exec(year, month)) {
        return None;
    }
    if !(hour <= 23 && minute <= 59 && second <= 59) {
        return None;
    }
    let t = Timestamp { year, month, day, hour, minute, second, millisecond };
    proof {
        assert(valid_ts_str(s@));
        assert(t == ts_of_str(s@));
        lemma_parse_format(s@);
    }
    Some(t)
}

/// How many days the month has, leap years counted.
pub fn days_in_month_exec(y: u16, m: u8) -> (r: u8)
    ensures
        r as int == days_in_month(y as int, m as int),
{
    if m == 2 {
        if y % 4 == 0 && (y % 100 != 0 || y % 400 == 0) {
            29
        } else {
            28
        }
    } else if m == 4 || m == 6 || m == 9 || m == 11 {
        30
    } else {
        31
    }
}

} // verus!
