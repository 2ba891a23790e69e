//! Calendar dates as plain year/month/day values, with a verified
//! codec for the `YYYY-MM-DD` interchange format.

use vstd::arithmetic::div_mod::{
    lemma_fundamental_div_mod, lemma_fundamental_div_mod_converse, lemma_mod_pos_bound,
};
use vstd::prelude::*;

verus! {

/// A calendar date in the proleptic Gregorian calendar.
///
/// Values are well formed when [`Date::valid`] holds; every `Date`
/// produced by [`Date::new`] or [`parse_date`] is valid.
#[derive(Clone, Copy, PartialEq, Eq, Structural, Debug)]
pub struct Date {
    pub year: u16,
    pub month: u8,
    pub day: u8,
}

/// A year is a leap year when it is divisible by 4, except century
/// years, which must be divisible by 400.
pub open spec fn spec_is_leap_year(y: int) -> bool {
    y % 4 == 0 && (y % 100 != 0 || y % 400 == 0)
}

/// Number of days in month `m` of year `y`.
pub open spec fn spec_days_in_month(y: int, m: int) -> int {
    if m == 2 {
        if spec_is_leap_year(y) {
            29
        } else {
            28
        }
    } else if m == 4 || m == 6 || m == 9 || m == 11 {
        30
    } else {
        31
    }
}

impl Date {
    /// A date is valid when the year fits in four digits, the month is
    /// 1 to 12, and the day exists in that month of that year.
    pub open spec fn valid(self) -> bool {
        &&& self.year <= 9999
        &&& 1 <= self.month <= 12
        &&& 1 <= self.day <= spec_days_in_month(self.year as int, self.month as int)
    }
}

pub fn is_leap_year(y: u16) -> (r: bool)
    ensures
        r == spec_is_leap_year(y as int),
{
    y % 4 == 0 && (y % 100 != 0 || y % 400 == 0)
}

pub fn days_in_month(y: u16, m: u8) -> (r: u8)
    ensures
        r as int == spec_days_in_month(y as int, m as int),
{
    if m == 2 {
        if is_leap_year(y) {
            29
        } else {
            28
        }
    } else if m == 4 || m == 6 || m == 9 || m == 11 {
        30
    } else {
        31
    }
}

impl Date {
    /// Whether the components form a valid calendar date.
    pub fn check_valid(&self) -> (r: bool)
        ensures
            r == self.valid(),
    {
        self.year <= 9999 && 1 <= self.month && self.month <= 12 && 1 <= self.day && self.day
            <= days_in_month(self.year, self.month)
    }

    /// Builds the date if the components form a valid calendar date,
    /// and returns `None` otherwise.
    pub fn new(year: u16, month: u8, day: u8) -> (r: Option<Date>)
        ensures
            match r {
                Some(d) => d == (Date { year, month, day }) && d.valid(),
                None => !(Date { year, month, day }).valid(),
            },
    {
        if year <= 9999 && 1 <= month && month <= 12 && 1 <= day && day <= days_in_month(
            year,
            month,
        ) {
            Some(Date { year, month, day })
        } else {
            None
        }
    }
}

/// The ASCII byte of decimal digit `n`.
pub open spec fn digit_byte(n: int) -> u8 {
    (0x30 + n) as u8
}

pub open spec fn is_digit_byte(b: u8) -> bool {
    0x30 <= b <= 0x39
}

/// The decimal digit an ASCII byte stands for.
pub open spec fn digit_val(b: u8) -> int {
    b - 0x30
}

/// The ten bytes of `d` written as `YYYY-MM-DD`, zero padded.
pub open spec fn date_bytes(d: Date) -> Seq<u8> {
    seq![
        digit_byte(d.year as int / 1000),
        digit_byte((d.year as int / 100) % 10),
        digit_byte((d.year as int / 10) % 10),
        digit_byte(d.year as int % 10),
        0x2du8,
        digit_byte(d.month as int / 10),
        digit_byte(d.month as int % 10),
        0x2du8,
        digit_byte(d.day as int / 10),
        digit_byte(d.day as int % 10),
    ]
}

/// `s` has the shape of a `YYYY-MM-DD` string: ten bytes, dashes at
/// positions 4 and 7, decimal digits everywhere else.
pub open spec fn date_shaped(s: Seq<u8>) -> bool {
    &&& s.len() == 10
    &&& is_digit_byte(s[0]) && is_digit_byte(s[1]) && is_digit_byte(s[2]) && is_digit_byte(s[3])
    &&& s[4] == 0x2du8
    &&& is_digit_byte(s[5]) && is_digit_byte(s[6])
    &&& s[7] == 0x2du8
    &&& is_digit_byte(s[8]) && is_digit_byte(s[9])
}

/// The number the four year digits of a shaped string stand for.
pub open spec fn year_num(s: Seq<u8>) -> int {
    1000 * digit_val(s[0]) + 100 * digit_val(s[1]) + 10 * digit_val(s[2]) + digit_val(s[3])
}

/// The number the two month digits of a shaped string stand for.
pub open spec fn month_num(s: Seq<u8>) -> int {
    10 * digit_val(s[5]) + digit_val(s[6])
}

/// The number the two day digits of a shaped string stand for.
pub open spec fn day_num(s: Seq<u8>) -> int {
    10 * digit_val(s[8]) + digit_val(s[9])
}

/// Four digits recombine to the number they were split from.
proof fn lemma_digits4(a: int, b: int, c: int, e: int)
    requires
        0 <= a <= 9,
        0 <= b <= 9,
        0 <= c <= 9,
        0 <= e <= 9,
    ensures
        ({
            let y = 1000 * a + 100 * b + 10 * c + e;
            y / 1000 == a && (y / 100) % 10 == b && (y / 10) % 10 == c && y % 10 == e
        }),
{
    let y = 1000 * a + 100 * b + 10 * c + e;
    lemma_fundamental_div_mod_converse(y, 1000, a, 100 * b + 10 * c + e);
    lemma_fundamental_div_mod_converse(y, 100, 10 * a + b, 10 * c + e);
    lemma_fundamental_div_mod_converse(10 * a + b, 10, a, b);
    lemma_fundamental_div_mod_converse(y, 10, 100 * a + 10 * b + c, e);
    lemma_fundamental_div_mod_converse(100 * a + 10 * b + c, 10, 10 * a + b, c);
}

/// A number of at most four digits is the recombination of the digits
/// `date_bytes` writes for it, each of which is a single digit.
proof fn lemma_split4(y: int)
    requires
        0 <= y <= 9999,
    ensures
        0 <= y / 1000 <= 9,
        0 <= (y / 100) % 10 <= 9,
        0 <= (y / 10) % 10 <= 9,
        0 <= y % 10 <= 9,
        y == 1000 * (y / 1000) + 100 * ((y / 100) % 10) + 10 * ((y / 10) % 10) + y % 10,
{
    let a = y / 1000;
    let r3 = y % 1000;
    lemma_fundamental_div_mod(y, 1000);
    lemma_mod_pos_bound(y, 1000);
    let b = r3 / 100;
    let r2 = r3 % 100;
    lemma_fundamental_div_mod(r3, 100);
    lemma_mod_pos_bound(r3, 100);
    let c = r2 / 10;
    let e = r2 % 10;
    lemma_fundamental_div_mod(r2, 10);
    lemma_mod_pos_bound(r2, 10);
    lemma_digits4(a, b, c, e);
}

/// A number of at most two digits splits into two single digits.
proof fn lemma_split2(m: int)
    requires
        0 <= m <= 99,
    ensures
        0 <= m / 10 <= 9,
        0 <= m % 10 <= 9,
        m == 10 * (m / 10) + m % 10,
{
    lemma_fundamental_div_mod(m, 10);
    lemma_mod_pos_bound(m, 10);
}

/// The bytes of a valid date are shaped, and their digit groups stand
/// for exactly the date's components.
pub proof fn lemma_date_bytes_shape(d: Date)
    requires
        d.valid(),
    ensures
        date_shaped(date_bytes(d)),
        year_num(date_bytes(d)) == d.year,
        month_num(date_bytes(d)) == d.month,
        day_num(date_bytes(d)) == d.day,
{
    lemma_split4(d.year as int);
    lemma_split2(d.month as int);
    lemma_split2(d.day as int);
}

/// No two distinct valid dates write the same ten bytes.
pub proof fn lemma_date_bytes_injective(d1: Date, d2: Date)
    requires
        d1.valid(),
        d2.valid(),
        date_bytes(d1) == date_bytes(d2),
    ensures
        d1 == d2,
{
    lemma_date_bytes_shape(d1);
    lemma_date_bytes_shape(d2);
}

/// Writes `d` as the ten bytes `YYYY-MM-DD`, zero padded.
pub fn format_date(d: &Date) -> (v: Vec<u8>)
    requires
        d.valid(),
    ensures
        v@ == date_bytes(*d),
{
    proof {
        lemma_split4(d.year as int);
        lemma_split2(d.month as int);
        lemma_split2(d.day as int);
    }
    let y = d.year;
    let mut v: Vec<u8> = Vec::new();
    v.push(0x30u8 + (y / 1000) as u8);
    v.push(0x30u8 + ((y / 100) % 10) as u8);
    v.push(0x30u8 + ((y / 10) % 10) as u8);
    v.push(0x30u8 + (y % 10) as u8);
    v.push(0x2du8);
    v.push(0x30u8 + d.month / 10);
    v.push(0x30u8 + d.month % 10);
    v.push(0x2du8);
    v.push(0x30u8 + d.day / 10);
    v.push(0x30u8 + d.day % 10);
    proof {
        assert(v@ =~= date_bytes(*d));
    }
    v
}

/// Reads a `YYYY-MM-DD` string. Returns the date it writes when the
/// bytes are exactly the canonical form of some valid date, and `None`
/// otherwise.
pub fn parse_date(s: &[u8]) -> (r: Option<Date>)
    ensures
        match r {
            Some(d) => d.valid() && date_bytes(d) == s@,
            None => forall|d: Date| d.valid() ==> #[trigger] date_bytes(d) != s@,
        },
{
    if s.len() != 10 {
        proof {
            assert forall|d: Date| d.valid() implies #[trigger] date_bytes(d) != s@ by {
                lemma_date_bytes_shape(d);
            }
        }
        return None;
    }
    let mut i: usize = 0;
    while i < 10
        invariant
            s@.len() == 10,
            forall|j: int| 0 <= j < i && j != 4 && j != 7 ==> is_digit_byte(s@[j]),
            forall|j: int| 0 <= j < i && (j == 4 || j == 7) ==> s@[j] == 0x2du8,
        decreases 10 - i,
    {
        let b = s[i];
        if i == 4 || i == 7 {
            if b != 0x2d {
                proof {
                    assert forall|d: Date| d.valid() implies #[trigger] date_bytes(d) != s@ by {
                        lemma_date_bytes_shape(d);
                    }
                }
                return None;
            }
        } else {
            if b < 0x30 || b > 0x39 {
                proof {
                    assert forall|d: Date| d.valid() implies #[trigger] date_bytes(d) != s@ by {
                        lemma_date_bytes_shape(d);
                    }
                }
                return None;
            }
        }
        i += 1;
    }
    assert(date_shaped(s@));
    let year: u16 = 1000 * ((s[0] - 0x30) as u16) + 100 * ((s[1] - 0x30) as u16) + 10 * ((s[2]
        - 0x30) as u16) + (s[3] - 0x30) as u16;
    let month: u8 = 10 * (s[5] - 0x30) + (s[6] - 0x30);
    let day: u8 = 10 * (s[8] - 0x30) + (s[9] - 0x30);
    assert(year == year_num(s@) && month == month_num(s@) && day == day_num(s@));
    if 1 <= month && month <= 12 && 1 <= day && day <= days_in_month(year, month) {
        let d = Date { year, month, day };
        proof {
            lemma_digits4(digit_val(s@[0]), digit_val(s@[1]), digit_val(s@[2]), digit_val(s@[3]));
            lemma_fundamental_div_mod_converse(
                month as int,
                10,
                digit_val(s@[5]),
                digit_val(s@[6]),
            );
            lemma_fundamental_div_mod_converse(day as int, 10, digit_val(s@[8]), digit_val(s@[9]));
            assert(date_bytes(d) =~= s@);
        }
        Some(d)
    } else {
        proof {
            assert forall|d: Date| d.valid() implies #[trigger] date_bytes(d) != s@ by {
                if date_bytes(d) == s@ {
                    lemma_date_bytes_shape(d);
                }
            }
        }
        None
    }
}

} // verus!
