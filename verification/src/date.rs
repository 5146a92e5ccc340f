//! Calendar dates in the proleptic Gregorian calendar.
//!
//! A `Date` holds a year, month and day, restricted to the years 1 through
//! 9999.  The model behind every contract is `day_index`, the number of days
//! between January 1 of year 1 and the date; two dates compare exactly as
//! their day indices do, and the weekday name is determined by the day index
//! modulo 7 (day zero was a Monday).

use vstd::arithmetic::div_mod::{
    lemma_div_is_ordered_by_denominator, lemma_fundamental_div_mod,
    lemma_fundamental_div_mod_converse, lemma_mod_division_less_than_divisor,
};
use vstd::prelude::*;

verus! {

/// A calendar date (proleptic Gregorian, years 1 through 9999).
#[derive(Clone, Copy, PartialEq, Eq, Structural, Debug)]
pub struct Date {
    pub year: u32,
    pub month: u8,
    pub day: u8,
}

/// Gregorian leap-year rule: divisible by 4, except centuries not divisible
/// by 400.
pub open spec fn is_leap_year(y: int) -> bool {
    (y % 4 == 0 && y % 100 != 0) || y % 400 == 0
}

/// Number of days in month `m` of year `y` (months counted 1 through 12).
pub open spec fn days_in_month(y: int, m: int) -> int {
    if m == 2 {
        if is_leap_year(y) {
            29
        } else {
            28
        }
    } else if m == 4 || m == 6 || m == 9 || m == 11 {
        30
    } else {
        31
    }
}

/// Number of days in year `y`.
pub open spec fn days_in_year(y: int) -> int {
    if is_leap_year(y) {
        366
    } else {
        365
    }
}

impl Date {
    /// The date names an actual day of the calendar.
    pub open spec fn valid(self) -> bool {
        &&& 1 <= self.year <= 9999
        &&& 1 <= self.month <= 12
        &&& 1 <= self.day <= days_in_month(self.year as int, self.month as int)
    }

    /// Builds a date after checking that it names an actual day.
    pub fn new(year: u32, month: u8, day: u8) -> (r: Option<Date>)
        ensures
            match r {
                Some(d) => d == (Date { year, month, day }) && d.valid(),
                None => !(Date { year, month, day }).valid(),
            },
    {
        if 1 <= year && year <= 9999 && 1 <= month && month <= 12 && 1 <= day && day
            <= days_in_month_of(year, month) {
            Some(Date { year, month, day })
        } else {
            None
        }
    }
}

/// Runtime check of the leap-year rule.
pub fn is_leap(year: u32) -> (r: bool)
    ensures
        r == is_leap_year(year as int),
{
    (year % 4 == 0 && year % 100 != 0) || year % 400 == 0
}

/// Runtime month length, matching `days_in_month`.
pub fn days_in_month_of(year: u32, month: u8) -> (r: u8)
    ensures
        r == days_in_month(year as int, month as int),
{
    if month == 2 {
        if is_leap(year) {
            29
        } else {
            28
        }
    } else if month == 4 || month == 6 || month == 9 || month == 11 {
        30
    } else {
        31
    }
}

/// Days taken up by the months of year `y` before month `m`
/// (so `days_before_month(y, 1) == 0`, and `m` may run up to 13).
pub open spec fn days_before_month(y: int, m: int) -> int
    decreases m,
{
    if m <= 1 {
        0
    } else {
        days_before_month(y, m - 1) + days_in_month(y, m - 1)
    }
}

/// Number of leap years `z` with `1 <= z < y`.
pub open spec fn leap_years_before(y: int) -> int {
    (y - 1) / 4 - (y - 1) / 100 + (y - 1) / 400
}

/// Days between January 1 of year 1 and January 1 of year `y`.
pub open spec fn days_before_year(y: int) -> int {
    365 * (y - 1) + leap_years_before(y)
}

/// The model of a date: days between January 1 of year 1 and the date.
/// Two valid dates are equal exactly when their day indices are, and
/// consecutive days have consecutive indices.
pub open spec fn day_index(d: Date) -> int {
    days_before_year(d.year as int) + days_before_month(d.year as int, d.month as int) + (
    d.day - 1)
}

/// The months of a year sum to its length.
proof fn lemma_months_sum(y: int)
    ensures
        days_before_month(y, 13) == days_in_year(y),
{
    reveal_with_fuel(days_before_month, 13);
}

/// Crossing from `x - 1` to `x` bumps the quotient by one exactly at the
/// multiples of `d`.
proof fn lemma_div_step(x: int, d: int)
    requires
        1 <= x,
        1 <= d,
    ensures
        x / d == (x - 1) / d + if x % d == 0 {
            1int
        } else {
            0int
        },
        x % d == 0 <==> (x - 1) % d == d - 1,
{
    let q = (x - 1) / d;
    let r = (x - 1) % d;
    lemma_fundamental_div_mod(x - 1, d);
    lemma_mod_division_less_than_divisor(x - 1, d);
    if r < d - 1 {
        lemma_fundamental_div_mod_converse(x, d, q, r + 1);
    } else {
        assert((q + 1) * d == q * d + d) by (nonlinear_arith);
        lemma_fundamental_div_mod_converse(x, d, q + 1, 0);
    }
}

/// A year divisible by 400 is divisible by 100, and one divisible by 100 is
/// divisible by 4.
proof fn lemma_century_divisors(y: int)
    requires
        1 <= y,
    ensures
        y % 400 == 0 ==> y % 100 == 0,
        y % 100 == 0 ==> y % 4 == 0,
{
    if y % 400 == 0 {
        lemma_fundamental_div_mod(y, 400);
        lemma_fundamental_div_mod_converse(y, 100, 4 * (y / 400), 0);
    }
    if y % 100 == 0 {
        lemma_fundamental_div_mod(y, 100);
        lemma_fundamental_div_mod_converse(y, 4, 25 * (y / 100), 0);
    }
}

/// The leap-year count grows by one exactly at leap years.
proof fn lemma_leap_count_step(y: int)
    requires
        1 <= y,
    ensures
        leap_years_before(y + 1) == leap_years_before(y) + if is_leap_year(y) {
            1int
        } else {
            0int
        },
{
    lemma_div_step(y, 4);
    lemma_div_step(y, 100);
    lemma_div_step(y, 400);
    lemma_century_divisors(y);
}

/// Consecutive years are `days_in_year` apart in the day-count model.
proof fn lemma_year_step(y: int)
    requires
        1 <= y,
    ensures
        days_before_year(y + 1) == days_before_year(y) + days_in_year(y),
{
    lemma_leap_count_step(y);
}

/// `days_before_month` grows with the month.
proof fn lemma_months_monotone(y: int, m1: int, m2: int)
    requires
        1 <= m1 <= m2 <= 13,
    ensures
        days_before_month(y, m1) <= days_before_month(y, m2),
    decreases m2 - m1,
{
    if m1 < m2 {
        lemma_months_monotone(y, m1, m2 - 1);
    }
}

/// Within its year, a valid date's offset lies between 0 (inclusive) and the
/// year's length (exclusive).
proof fn lemma_year_offset_bounds(d: Date)
    requires
        d.valid(),
    ensures
        0 <= days_before_month(d.year as int, d.month as int) + (d.day - 1) < days_in_year(
            d.year as int,
        ),
{
    let y = d.year as int;
    let m = d.month as int;
    lemma_months_monotone(y, 1, m);
    lemma_months_monotone(y, m + 1, 13);
    lemma_months_sum(y);
}

/// `days_before_year` grows with the year, by at least a year's length per
/// step.
proof fn lemma_years_monotone(y1: int, y2: int)
    requires
        1 <= y1 <= y2,
    ensures
        days_before_year(y1) <= days_before_year(y2),
        y1 < y2 ==> days_before_year(y1) + days_in_year(y1) <= days_before_year(y2),
    decreases y2 - y1,
{
    if y1 < y2 {
        lemma_years_monotone(y1 + 1, y2);
        lemma_year_step(y1);
    }
}

/// `a` is on or before `b`, compared field by field.
pub open spec fn date_le_spec(a: Date, b: Date) -> bool {
    ||| a.year < b.year
    ||| (a.year == b.year && a.month < b.month)
    ||| (a.year == b.year && a.month == b.month && a.day <= b.day)
}

/// Lexicographic comparison of dates agrees with the day-count model: order
/// and equality of valid dates coincide with those of their day indices.
pub proof fn lemma_date_order(a: Date, b: Date)
    requires
        a.valid(),
        b.valid(),
    ensures
        date_le_spec(a, b) <==> day_index(a) <= day_index(b),
        a == b <==> day_index(a) == day_index(b),
{
    lemma_year_offset_bounds(a);
    lemma_year_offset_bounds(b);
    if a.year != b.year {
        if a.year < b.year {
            lemma_years_monotone(a.year as int, b.year as int);
        } else {
            lemma_years_monotone(b.year as int, a.year as int);
        }
    } else {
        let y = a.year as int;
        if a.month < b.month {
            lemma_months_monotone(y, a.month + 1, b.month as int);
            lemma_months_sum(y);
        } else if b.month < a.month {
            lemma_months_monotone(y, b.month + 1, a.month as int);
            lemma_months_sum(y);
        }
    }
}

/// No valid date lies beyond December 31 of year 9999.
pub proof fn lemma_day_index_bounds(d: Date)
    requires
        d.valid(),
    ensures
        0 <= day_index(d) <= day_index(Date { year: 9999, month: 12, day: 31 }),
{
    lemma_date_order(d, Date { year: 9999, month: 12, day: 31 });
    lemma_date_order(Date { year: 1, month: 1, day: 1 }, d);
}

/// Runtime days-before-month table, matching `days_before_month`.
pub fn days_before_month_of(year: u32, month: u8) -> (r: u32)
    requires
        1 <= month <= 12,
    ensures
        r == days_before_month(year as int, month as int),
{
    proof {
        reveal_with_fuel(days_before_month, 13);
    }
    let leap: u32 = if is_leap(year) {
        1
    } else {
        0
    };
    match month {
        1 => 0,
        2 => 31,
        3 => 59 + leap,
        4 => 90 + leap,
        5 => 120 + leap,
        6 => 151 + leap,
        7 => 181 + leap,
        8 => 212 + leap,
        9 => 243 + leap,
        10 => 273 + leap,
        11 => 304 + leap,
        _ => 334 + leap,
    }
}

/// Runtime day index, matching `day_index`.
pub fn day_number(d: &Date) -> (n: u32)
    requires
        d.valid(),
    ensures
        n == day_index(*d),
{
    let x = d.year - 1;
    proof {
        lemma_div_is_ordered_by_denominator(x as int, 4, 100);
        lemma_year_offset_bounds(*d);
    }
    let leaps = x / 4 + x / 400 - x / 100;
    let before_year = 365 * x + leaps;
    before_year + days_before_month_of(d.year, d.month) + (d.day as u32 - 1)
}

/// The decimal digit `n` as a character.
pub open spec fn digit_char(n: int) -> char {
    if n == 0 {
        '0'
    } else if n == 1 {
        '1'
    } else if n == 2 {
        '2'
    } else if n == 3 {
        '3'
    } else if n == 4 {
        '4'
    } else if n == 5 {
        '5'
    } else if n == 6 {
        '6'
    } else if n == 7 {
        '7'
    } else if n == 8 {
        '8'
    } else {
        '9'
    }
}

/// The value of a decimal digit character, or -1 for any other character.
pub open spec fn digit_val(c: char) -> int {
    if c == '0' {
        0
    } else if c == '1' {
        1
    } else if c == '2' {
        2
    } else if c == '3' {
        3
    } else if c == '4' {
        4
    } else if c == '5' {
        5
    } else if c == '6' {
        6
    } else if c == '7' {
        7
    } else if c == '8' {
        8
    } else if c == '9' {
        9
    } else {
        -1
    }
}

/// A date in ISO form: four year digits, two month digits and two day
/// digits, zero padded, separated by hyphens.
pub open spec fn iso_chars(d: Date) -> Seq<char> {
    let y = d.year as int;
    let m = d.month as int;
    let dd = d.day as int;
    seq![
        digit_char(y / 1000 % 10),
        digit_char(y / 100 % 10),
        digit_char(y / 10 % 10),
        digit_char(y % 10),
        '-',
        digit_char(m / 10 % 10),
        digit_char(m % 10),
        '-',
        digit_char(dd / 10 % 10),
        digit_char(dd % 10),
    ]
}

/// A number up to 9999 is the weighted sum of its four decimal digits.
proof fn lemma_four_digits(y: int)
    requires
        0 <= y <= 9999,
    ensures
        y == 1000 * (y / 1000 % 10) + 100 * (y / 100 % 10) + 10 * (y / 10 % 10) + y % 10,
        0 <= y / 1000 % 10 < 10,
        0 <= y / 100 % 10 < 10,
        0 <= y / 10 % 10 < 10,
        0 <= y % 10 < 10,
        y / 1000 % 10 == y / 1000,
{
    lemma_fundamental_div_mod(y, 10);
    lemma_mod_division_less_than_divisor(y, 10);
    let q1 = y / 10;
    lemma_fundamental_div_mod(q1, 10);
    lemma_mod_division_less_than_divisor(q1, 10);
    let q2 = q1 / 10;
    lemma_fundamental_div_mod_converse(y, 100, q2, 10 * (q1 % 10) + y % 10);
    lemma_fundamental_div_mod(q2, 10);
    lemma_mod_division_less_than_divisor(q2, 10);
    let q3 = q2 / 10;
    lemma_fundamental_div_mod_converse(y, 1000, q3, 100 * (q2 % 10) + 10 * (q1 % 10) + y % 10);
    lemma_fundamental_div_mod_converse(q3, 10, 0, q3);
}

/// A number up to 99 is the weighted sum of its two decimal digits.
proof fn lemma_two_digits(x: int)
    requires
        0 <= x <= 99,
    ensures
        x == 10 * (x / 10 % 10) + x % 10,
        0 <= x / 10 % 10 < 10,
        0 <= x % 10 < 10,
        x / 10 % 10 == x / 10,
{
    lemma_fundamental_div_mod(x, 10);
    lemma_mod_division_less_than_divisor(x, 10);
    lemma_fundamental_div_mod_converse(x / 10, 10, 0, x / 10);
}

/// Distinct digits have distinct characters, and no digit character is a
/// hyphen.
proof fn lemma_digit_char_facts(i: int, j: int)
    requires
        0 <= i < 10,
        0 <= j < 10,
    ensures
        digit_val(digit_char(i)) == i,
        digit_char(i) == digit_char(j) ==> i == j,
        digit_char(i) != '-',
{
}

/// The ISO form determines the date: no two valid dates share it.
pub proof fn lemma_iso_chars_injective(d1: Date, d2: Date)
    requires
        d1.valid(),
        d2.valid(),
        iso_chars(d1) == iso_chars(d2),
    ensures
        d1 == d2,
{
    let s1 = iso_chars(d1);
    let s2 = iso_chars(d2);
    assert forall|i: int, j: int| 0 <= i < 10 && 0 <= j < 10 implies (digit_char(i)
        == digit_char(j) ==> i == j) by {
        lemma_digit_char_facts(i, j);
    }
    lemma_four_digits(d1.year as int);
    lemma_four_digits(d2.year as int);
    lemma_two_digits(d1.month as int);
    lemma_two_digits(d2.month as int);
    lemma_two_digits(d1.day as int);
    lemma_two_digits(d2.day as int);
    assert(s1[0] == s2[0] && s1[1] == s2[1] && s1[2] == s2[2] && s1[3] == s2[3]);
    assert(s1[5] == s2[5] && s1[6] == s2[6] && s1[8] == s2[8] && s1[9] == s2[9]);
    assert(d1.year == d2.year);
    assert(d1.month == d2.month);
    assert(d1.day == d2.day);
}

/// The character of a digit below ten.
fn digit_str(n: u32) -> (r: &'static str)
    requires
        n < 10,
    ensures
        r@ == seq![digit_char(n as int)],
{
    proof {
        reveal_strlit("0");
        reveal_strlit("1");
        reveal_strlit("2");
        reveal_strlit("3");
        reveal_strlit("4");
        reveal_strlit("5");
        reveal_strlit("6");
        reveal_strlit("7");
        reveal_strlit("8");
        reveal_strlit("9");
    }
    let r: &'static str = match n {
        0 => "0",
        1 => "1",
        2 => "2",
        3 => "3",
        4 => "4",
        5 => "5",
        6 => "6",
        7 => "7",
        8 => "8",
        _ => "9",
    };
    proof {
        assert(r@ =~= seq![digit_char(n as int)]);
    }
    r
}

/// The value of a digit character, if it is one.
fn char_digit(c: char) -> (r: Option<u32>)
    ensures
        match r {
            Some(v) => v < 10 && digit_val(c) == v as int,
            None => digit_val(c) == -1,
        },
{
    match c {
        '0' => Some(0),
        '1' => Some(1),
        '2' => Some(2),
        '3' => Some(3),
        '4' => Some(4),
        '5' => Some(5),
        '6' => Some(6),
        '7' => Some(7),
        '8' => Some(8),
        '9' => Some(9),
        _ => None,
    }
}

impl Date {
    /// Renders the date in ISO form, zero padded: `YYYY-MM-DD`.
    pub fn to_iso_string(&self) -> (r: String)
        requires
            self.valid(),
        ensures
            r@ == iso_chars(*self),
    {
        proof {
            lemma_four_digits(self.year as int);
            lemma_two_digits(self.month as int);
            lemma_two_digits(self.day as int);
            reveal_strlit("-");
        }
        let y = self.year;
        let m = self.month as u32;
        let dd = self.day as u32;
        let mut s = String::from_str(digit_str(y / 1000 % 10));
        s.append(digit_str(y / 100 % 10));
        s.append(digit_str(y / 10 % 10));
        s.append(digit_str(y % 10));
        s.append("-");
        s.append(digit_str(m / 10 % 10));
        s.append(digit_str(m % 10));
        s.append("-");
        s.append(digit_str(dd / 10 % 10));
        s.append(digit_str(dd % 10));
        proof {
            assert(s@ =~= iso_chars(*self));
        }
        s
    }
}

/// Reads a date from ISO form.  Succeeds exactly on the ten-character
/// renderings of valid dates, and returns the one date so rendered.
pub fn parse_iso(s: &str) -> (r: Option<Date>)
    ensures
        match r {
            Some(d) => d.valid() && s@ == iso_chars(d),
            None => forall|d: Date| d.valid() ==> s@ != iso_chars(d),
        },
{
    let n = s.unicode_len();
    if n != 10 {
        return None;
    }
    if s.get_char(4) != '-' || s.get_char(7) != '-' {
        return None;
    }
    let v0 = match char_digit(s.get_char(0)) {
        Some(v) => v,
        None => {
            proof {
                lemma_no_digit_no_date(s@, 0);
            }
            return None;
        },
    };
    let v1 = match char_digit(s.get_char(1)) {
        Some(v) => v,
        None => {
            proof {
                lemma_no_digit_no_date(s@, 1);
            }
            return None;
        },
    };
    let v2 = match char_digit(s.get_char(2)) {
        Some(v) => v,
        None => {
            proof {
                lemma_no_digit_no_date(s@, 2);
            }
            return None;
        },
    };
    let v3 = match char_digit(s.get_char(3)) {
        Some(v) => v,
        None => {
            proof {
                lemma_no_digit_no_date(s@, 3);
            }
            return None;
        },
    };
    let v5 = match char_digit(s.get_char(5)) {
        Some(v) => v,
        None => {
            proof {
                lemma_no_digit_no_date(s@, 5);
            }
            return None;
        },
    };
    let v6 = match char_digit(s.get_char(6)) {
        Some(v) => v,
        None => {
            proof {
                lemma_no_digit_no_date(s@, 6);
            }
            return None;
        },
    };
    let v8 = match char_digit(s.get_char(8)) {
        Some(v) => v,
        None => {
            proof {
                lemma_no_digit_no_date(s@, 8);
            }
            return None;
        },
    };
    let v9 = match char_digit(s.get_char(9)) {
        Some(v) => v,
        None => {
            proof {
                lemma_no_digit_no_date(s@, 9);
            }
            return None;
        },
    };
    let y = 1000 * v0 + 100 * v1 + 10 * v2 + v3;
    let mo = 10 * v5 + v6;
    let da = 10 * v8 + v9;
    let r = Date::new(y, mo as u8, da as u8);
    proof {
        lemma_iso_components(s@, y as int, mo as int, da as int);
    }
    match r {
        Some(d) => {
            proof {
                assert(s@ =~= iso_chars(d));
            }
            Some(d)
        },
        None => None,
    }
}

/// A string with a non-digit where the ISO form has a digit renders no date.
proof fn lemma_no_digit_no_date(s: Seq<char>, pos: int)
    requires
        s.len() == 10,
        pos == 0 || pos == 1 || pos == 2 || pos == 3 || pos == 5 || pos == 6 || pos == 8 || pos
            == 9,
        digit_val(s[pos]) == -1,
    ensures
        forall|d: Date| d.valid() ==> s != iso_chars(d),
{
    assert forall|d: Date| d.valid() implies s != iso_chars(d) by {
        lemma_four_digits(d.year as int);
        lemma_two_digits(d.month as int);
        lemma_two_digits(d.day as int);
        if s == iso_chars(d) {
            assert(s[pos] == iso_chars(d)[pos]);
            assert(digit_val(iso_chars(d)[pos]) >= 0) by {
                let y = d.year as int;
                let m = d.month as int;
                let dd = d.day as int;
                lemma_digit_char_facts(
                    if pos == 0 {
                        y / 1000 % 10
                    } else if pos == 1 {
                        y / 100 % 10
                    } else if pos == 2 {
                        y / 10 % 10
                    } else if pos == 3 {
                        y % 10
                    } else if pos == 5 {
                        m / 10 % 10
                    } else if pos == 6 {
                        m % 10
                    } else if pos == 8 {
                        dd / 10 % 10
                    } else {
                        dd % 10
                    },
                    0,
                );
            }
        }
    }
}

/// A digit character reads back as its digit.
proof fn lemma_digit_roundtrip(c: char)
    ensures
        digit_val(c) < 10,
        digit_val(c) >= 0 ==> digit_char(digit_val(c)) == c,
{
}

/// When every digit position of `s` reads back the components `y`, `mo` and
/// `da`, the valid dates rendering as `s` are exactly the one with those
/// components.
proof fn lemma_iso_components(s: Seq<char>, y: int, mo: int, da: int)
    requires
        s.len() == 10,
        s[4] == '-',
        s[7] == '-',
        0 <= digit_val(s[0]),
        0 <= digit_val(s[1]),
        0 <= digit_val(s[2]),
        0 <= digit_val(s[3]),
        0 <= digit_val(s[5]),
        0 <= digit_val(s[6]),
        0 <= digit_val(s[8]),
        0 <= digit_val(s[9]),
        y == 1000 * digit_val(s[0]) + 100 * digit_val(s[1]) + 10 * digit_val(s[2]) + digit_val(
            s[3],
        ),
        mo == 10 * digit_val(s[5]) + digit_val(s[6]),
        da == 10 * digit_val(s[8]) + digit_val(s[9]),
    ensures
        (Date { year: y as u32, month: mo as u8, day: da as u8 }).valid() ==> s == iso_chars(
            Date { year: y as u32, month: mo as u8, day: da as u8 },
        ),
        forall|d: Date|
            d.valid() && s == iso_chars(d) ==> d == (Date {
                year: y as u32,
                month: mo as u8,
                day: da as u8,
            }),
{
    let cand = Date { year: y as u32, month: mo as u8, day: da as u8 };
    lemma_digit_roundtrip(s[0]);
    lemma_digit_roundtrip(s[1]);
    lemma_digit_roundtrip(s[2]);
    lemma_digit_roundtrip(s[3]);
    lemma_digit_roundtrip(s[5]);
    lemma_digit_roundtrip(s[6]);
    lemma_digit_roundtrip(s[8]);
    lemma_digit_roundtrip(s[9]);
    lemma_four_digits(y);
    lemma_two_digits(mo);
    lemma_two_digits(da);
    if cand.valid() {
        assert(y / 1000 % 10 == digit_val(s[0]) && y / 100 % 10 == digit_val(s[1]) && y / 10 % 10
            == digit_val(s[2]) && y % 10 == digit_val(s[3]));
        assert(mo / 10 % 10 == digit_val(s[5]) && mo % 10 == digit_val(s[6]));
        assert(da / 10 % 10 == digit_val(s[8]) && da % 10 == digit_val(s[9]));
        assert(s =~= iso_chars(cand));
    }
    assert forall|d: Date| d.valid() && s == iso_chars(d) implies d == cand by {
        lemma_iso_reads_back(s, d);
        lemma_four_digits(d.year as int);
        lemma_two_digits(d.month as int);
        lemma_two_digits(d.day as int);
        assert(d.year as int == y && d.month as int == mo && d.day as int == da);
    }
}

/// Reading the digits of a valid date's ISO form gives back its components.
proof fn lemma_iso_reads_back(s: Seq<char>, d: Date)
    requires
        d.valid(),
        s == iso_chars(d),
    ensures
        digit_val(s[0]) == d.year as int / 1000 % 10,
        digit_val(s[1]) == d.year as int / 100 % 10,
        digit_val(s[2]) == d.year as int / 10 % 10,
        digit_val(s[3]) == d.year as int % 10,
        digit_val(s[5]) == d.month as int / 10 % 10,
        digit_val(s[6]) == d.month as int % 10,
        digit_val(s[8]) == d.day as int / 10 % 10,
        digit_val(s[9]) == d.day as int % 10,
{
    lemma_four_digits(d.year as int);
    lemma_two_digits(d.month as int);
    lemma_two_digits(d.day as int);
    let y = d.year as int;
    let m = d.month as int;
    let dd = d.day as int;
    lemma_digit_char_facts(y / 1000 % 10, 0);
    lemma_digit_char_facts(y / 100 % 10, 0);
    lemma_digit_char_facts(y / 10 % 10, 0);
    lemma_digit_char_facts(y % 10, 0);
    lemma_digit_char_facts(m / 10 % 10, 0);
    lemma_digit_char_facts(m % 10, 0);
    lemma_digit_char_facts(dd / 10 % 10, 0);
    lemma_digit_char_facts(dd % 10, 0);
}

/// Runtime date comparison, agreeing with the day-count model.
pub fn date_le(a: &Date, b: &Date) -> (r: bool)
    requires
        a.valid(),
        b.valid(),
    ensures
        r == (day_index(*a) <= day_index(*b)),
{
    proof {
        lemma_date_order(*a, *b);
    }
    if a.year != b.year {
        a.year < b.year
    } else if a.month != b.month {
        a.month < b.month
    } else {
        a.day <= b.day
    }
}

/// The day after `d`: the next day of the month, or the first day of the
/// next month or year.
pub fn next_day(d: &Date) -> (r: Date)
    requires
        d.valid(),
        *d != (Date { year: 9999, month: 12, day: 31 }),
    ensures
        r.valid(),
        day_index(r) == day_index(*d) + 1,
{
    let y = d.year;
    let m = d.month;
    if d.day < days_in_month_of(y, m) {
        Date { year: y, month: m, day: d.day + 1 }
    } else if m < 12 {
        let r = Date { year: y, month: m + 1, day: 1 };
        proof {
            assert(days_before_month(y as int, m + 1) == days_before_month(y as int, m as int)
                + days_in_month(y as int, m as int));
        }
        r
    } else {
        let r = Date { year: y + 1, month: 1, day: 1 };
        proof {
            lemma_year_step(y as int);
            lemma_months_sum(y as int);
        }
        r
    }
}

/// The weekday of a date, as a residue: day zero (January 1 of year 1) was a
/// Monday, so 0 stands for Monday, 1 for Tuesday, and so on through 6 for
/// Sunday.
pub open spec fn weekday_index(d: Date) -> int {
    day_index(d) % 7
}

/// The English weekday name of a date.
pub open spec fn weekday_name(d: Date) -> Seq<char> {
    let w = weekday_index(d);
    if w == 0 {
        "Monday"@
    } else if w == 1 {
        "Tuesday"@
    } else if w == 2 {
        "Wednesday"@
    } else if w == 3 {
        "Thursday"@
    } else if w == 4 {
        "Friday"@
    } else if w == 5 {
        "Saturday"@
    } else {
        "Sunday"@
    }
}

/// Runtime English weekday name, matching `weekday_name`.
pub fn day_of_week(d: &Date) -> (s: String)
    requires
        d.valid(),
    ensures
        s@ == weekday_name(*d),
{
    let w = day_number(d) % 7;
    let name: &str = match w {
        0 => "Monday",
        1 => "Tuesday",
        2 => "Wednesday",
        3 => "Thursday",
        4 => "Friday",
        5 => "Saturday",
        _ => "Sunday",
    };
    String::from_str(name)
}

/// Every day of the closed range `[start, end]`, in calendar order; empty
/// when `start` falls after `end`.
pub fn date_range(start: &Date, end: &Date) -> (r: Vec<Date>)
    requires
        start.valid(),
        end.valid(),
    ensures
        day_index(*start) > day_index(*end) ==> r@.len() == 0,
        day_index(*start) <= day_index(*end) ==> r@.len() == day_index(*end) - day_index(*start)
            + 1,
        forall|i: int|
            0 <= i < r@.len() ==> (#[trigger] r@[i]).valid() && day_index(r@[i]) == day_index(
                *start,
            ) + i,
{
    let mut out: Vec<Date> = Vec::new();
    if !date_le(start, end) {
        return out;
    }
    let mut cur = *start;
    loop
        invariant_except_break
            start.valid(),
            end.valid(),
            cur.valid(),
            day_index(*start) <= day_index(cur) <= day_index(*end),
            out@.len() == day_index(cur) - day_index(*start),
            forall|i: int|
                0 <= i < out@.len() ==> (#[trigger] out@[i]).valid() && day_index(out@[i])
                    == day_index(*start) + i,
        ensures
            out@.len() == day_index(*end) - day_index(*start) + 1,
            forall|i: int|
                0 <= i < out@.len() ==> (#[trigger] out@[i]).valid() && day_index(out@[i])
                    == day_index(*start) + i,
        decreases day_index(*end) - day_index(cur),
    {
        out.push(cur);
        if cur.year == end.year && cur.month == end.month && cur.day == end.day {
            break ;
        }
        proof {
            lemma_date_order(cur, *end);
            lemma_day_index_bounds(*end);
            lemma_date_order(cur, Date { year: 9999, month: 12, day: 31 });
        }
        cur = next_day(&cur);
    }
    out
}

} // verus!
