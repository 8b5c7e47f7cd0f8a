use crate::epoch::Epoch;
use crate::error::Error;
use crate::instant::{tt_instant, Instant};
use vstd::prelude::*;

verus! {

/// Whether `year` has a 29th of February. In the Julian calendar every fourth
/// year has one; the Gregorian calendar leaves it out of the years that end a
/// century, except every fourth of those.
pub open spec fn is_leap_year(gregorian: bool, year: int) -> bool {
    if gregorian {
        year % 4 == 0 && (year % 100 != 0 || year % 400 == 0)
    } else {
        year % 4 == 0
    }
}

/// The number of days of `month` (1 to 12) in `year`.
pub open spec fn days_in_month(gregorian: bool, month: int, year: int) -> int {
    if month == 2 {
        if is_leap_year(gregorian, year) {
            29
        } else {
            28
        }
    } else if month == 4 || month == 6 || month == 9 || month == 11 {
        30
    } else {
        31
    }
}

/// The number of days of `year`.
pub open spec fn days_in_year(gregorian: bool, year: int) -> int {
    if is_leap_year(gregorian, year) {
        366
    } else {
        365
    }
}

/// The days from the 1st of January of year 1 to the 1st of January of
/// `year`, negative for the years before year 1. Year 0 is 1 B.C., year -1 is
/// 2 B.C. and so on.
#[verifier::opaque]
pub open spec fn days_before_year(gregorian: bool, year: int) -> int {
    let y = year - 1;
    if gregorian {
        365 * y + y / 4 - y / 100 + y / 400
    } else {
        365 * y + y / 4
    }
}

/// The days from the 1st of January of `year` to the 1st of `month` (1 to 12).
pub open spec fn days_before_month(gregorian: bool, year: int, month: int) -> int {
    let leap_day: int = if month > 2 && is_leap_year(gregorian, year) {
        1
    } else {
        0
    };
    let before: int = if month <= 1 {
        0
    } else if month == 2 {
        31
    } else if month == 3 {
        59
    } else if month == 4 {
        90
    } else if month == 5 {
        120
    } else if month == 6 {
        151
    } else if month == 7 {
        181
    } else if month == 8 {
        212
    } else if month == 9 {
        243
    } else if month == 10 {
        273
    } else if month == 11 {
        304
    } else {
        334
    };
    before + leap_day
}

/// The day number of a date: the days from the 1st of January of year 1 of
/// the calendar to that date. `day` counts on from the 1st of `month` and
/// need not lie within the month.
pub open spec fn day_number_of(gregorian: bool, year: int, month: int, day: int) -> int {
    days_before_year(gregorian, year) + days_before_month(gregorian, year, month) + day - 1
}

/// Whether `month` and `day` name a day that `year` has.
pub open spec fn is_date(gregorian: bool, year: int, month: int, day: int) -> bool {
    1 <= month <= 12 && 1 <= day <= days_in_month(gregorian, month, year)
}

/// Whether (`year`, `month`, `day`) is the date with day number `number`.
pub open spec fn is_date_of(gregorian: bool, number: int, year: int, month: int, day: int) -> bool {
    is_date(gregorian, year, month, day) && day_number_of(gregorian, year, month, day) == number
}

/// The day number of the first day of the earliest year that a date can name.
pub open spec fn min_day_number(gregorian: bool) -> int {
    day_number_of(gregorian, i32::MIN as int, 1, 1)
}

/// The day number of the last day of the latest year that a date can name.
pub open spec fn max_day_number(gregorian: bool) -> int {
    day_number_of(gregorian, i32::MAX as int, 12, 31)
}

/// The days from the 1st of March of year 0 to the 1st of March of `year`:
/// years counted from March have their leap day at the very end. They are as
/// many as from the 1st of January of year 1 to that of the year after `year`.
pub open spec fn days_before_march_of(gregorian: bool, year: int) -> int {
    days_before_year(gregorian, year + 1)
}

/// The quotient of `a` by `b` rounded down, also where `a` is negative.
pub(crate) fn floor_div(a: i128, b: i128) -> (q: i128)
    requires
        b > 0,
        a > i128::MIN,
    ensures
        q == a / b,
{
    // the sign bit of the remainder takes one off where the division rounded up
    let r: i128 = a % b;
    assert(r >> 127 == (if r < 0 { -1i128 } else { 0i128 })) by (bit_vector);
    proof {
        if a < 0 {
            let k = (-a) / (b as int);
            let s = (-a) % (b as int);
            vstd::arithmetic::div_mod::lemma_fundamental_div_mod(-a, b as int);
            vstd::arithmetic::div_mod::lemma_mod_bound(-a, b as int);
            if s == 0 {
                assert(a == b * (-k) + 0) by (nonlinear_arith)
                    requires
                        -a == b * k + s,
                        s == 0,
                ;
                vstd::arithmetic::div_mod::lemma_fundamental_div_mod_converse(
                    a as int,
                    b as int,
                    -k,
                    0,
                );
            } else {
                assert(a == b * (-k - 1) + (b - s)) by (nonlinear_arith)
                    requires
                        -a == b * k + s,
                ;
                vstd::arithmetic::div_mod::lemma_fundamental_div_mod_converse(
                    a as int,
                    b as int,
                    -k - 1,
                    b - s,
                );
            }
        }
    }
    a / b + (r >> 127)
}

/// The days from the 1st of March of year 0 to the 1st of March of `year`.
fn days_before_march(gregorian: bool, year: i128) -> (days: i128)
    requires
        -0x1_0000_0000_0000_0000 <= year <= 0x1_0000_0000_0000_0000,
    ensures
        days == days_before_march_of(gregorian, year as int),
        -0x200_0000_0000_0000_0000 <= days <= 0x200_0000_0000_0000_0000,
{
    proof {
        reveal(days_before_year);
    }
    // the Julian rule first: every fourth year is a day longer
    let mut days = 365 * year + floor_div(year, 4);
    if gregorian {
        // the Gregorian rule drops three of these in four centuries
        days = days - floor_div(year, 100) + floor_div(year, 400);
    }
    days
}

/// The day number of a date whose month is in range, while its year and its
/// day of the month may be of any size.
pub(crate) fn day_number_wide(gregorian: bool, year: i64, month: u8, day: i128) -> (number: i128)
    requires
        1 <= month <= 12,
        -0x1_0000_0000_0000_0000_0000_0000 <= day <= 0x1_0000_0000_0000_0000_0000_0000,
    ensures
        number == day_number_of(gregorian, year as int, month as int, day as int),
{
    // months counted from March: February comes last, and with it the leap day
    let m0: i128 = (month as i128 + 9) % 12;
    let y: i128 = year as i128 - m0 / 10;
    proof {
        lemma_day_number_from_march(gregorian, y as int, m0 as int, day - 1);
    }
    // 306 days lie between the 1st of March and the end of December, and the
    // same figure spreads the days of the months that follow March
    days_before_march(gregorian, y) + (m0 * 306 + 5) / 10 + (day - 1) - 306
}

/// Counting by fours steps up at every multiple of four.
proof fn lemma_fours_step(n: int)
    ensures
        n / 4 - (n - 1) / 4 == if n % 4 == 0 {
            1int
        } else {
            0int
        },
{
}

/// Counting by hundreds steps up at every multiple of a hundred, which is
/// also one of four.
proof fn lemma_hundreds_step(n: int)
    ensures
        n / 100 - (n - 1) / 100 == if n % 100 == 0 {
            1int
        } else {
            0int
        },
        n % 100 == 0 ==> n % 4 == 0,
{
}

/// Counting by four hundreds steps up at every multiple of four hundred,
/// which is also one of a hundred.
proof fn lemma_four_hundreds_step(n: int)
    ensures
        n / 400 - (n - 1) / 400 == if n % 400 == 0 {
            1int
        } else {
            0int
        },
        n % 400 == 0 ==> n % 100 == 0,
{
}

/// A year is as long as its days: the next year starts that many days later.
pub proof fn lemma_year_step(gregorian: bool, year: int)
    ensures
        days_before_year(gregorian, year + 1) == days_before_year(gregorian, year) + days_in_year(
            gregorian,
            year,
        ),
{
    reveal(days_before_year);
    lemma_fours_step(year);
    if gregorian {
        lemma_hundreds_step(year);
        lemma_four_hundreds_step(year);
    }
}

/// The day number counted from the 1st of March of year 0: `year` and `m0`
/// (0 for March to 11 for February) count from March, `day0` from 0.
proof fn lemma_day_number_from_march(gregorian: bool, year: int, m0: int, day0: int)
    requires
        0 <= m0 <= 11,
    ensures
        day_number_of(gregorian, year + (m0 + 2) / 12, (m0 + 2) % 12 + 1, day0 + 1)
            == days_before_march_of(gregorian, year) + (m0 * 306 + 5) / 10 + day0 - 306,
{
    lemma_year_step(gregorian, year);
    let month = (m0 + 2) % 12 + 1;
    if m0 <= 9 {
        assert(month == m0 + 3);
        assert(days_before_month(gregorian, year, month) + 306 == (m0 * 306 + 5) / 10 + days_in_year(
            gregorian,
            year,
        ));
    } else {
        assert(month == m0 - 9);
        assert(days_before_month(gregorian, year + 1, month) + 306 == (m0 * 306 + 5) / 10);
    }
}

/// The month counted from March, and the day in it, of the day `remaining`
/// (from 0) of a year counted from March.
proof fn lemma_month_from_march(remaining: int, m0: int)
    requires
        0 <= remaining <= 365,
        m0 == (100 * remaining + 52) / 3060,
    ensures
        0 <= m0 <= 11,
        (m0 * 306 + 5) / 10 <= remaining,
        m0 < 11 ==> remaining < ((m0 + 1) * 306 + 5) / 10,
{
}

/// The year, counted from March, into which the day falls that lies `n` days
/// after the 1st of March of year 0, and the days from the 1st of March of
/// that year to it.
fn march_year_of(gregorian: bool, n: i128) -> (found: (i128, i128))
    requires
        -0x1000_0000_0000 <= n <= 0x1000_0000_0000,
    ensures
        -0x1000_0000_0000 <= found.0 <= 0x1000_0000_0000,
        found.1 == n - days_before_march_of(gregorian, found.0 as int),
        0 <= found.1 < days_in_year(gregorian, found.0 + 1),
{
    let days_in_10000_years: i128 = if gregorian {
        3_652_425
    } else {
        3_652_500
    };
    // a first guess at the year, which is right or one too high
    let mut year: i128 = floor_div(10_000 * n + 14_780, days_in_10000_years);
    proof {
        lemma_year_estimate(gregorian, n as int, year as int);
    }
    let mut remaining: i128 = n - days_before_march(gregorian, year);
    if remaining < 0 {
        year = year - 1;
        remaining = n - days_before_march(gregorian, year);
    }
    proof {
        lemma_year_step(gregorian, year + 1);
    }
    (year, remaining)
}

/// The date of a day number that lies in the calendar's range.
pub(crate) fn date_of_day_number(gregorian: bool, number: i64) -> (date: (i32, u8, u8))
    requires
        min_day_number(gregorian) <= number <= max_day_number(gregorian),
    ensures
        is_date_of(gregorian, number as int, date.0 as int, date.1 as int, date.2 as int),
{
    proof {
        lemma_day_number_limits();
    }
    // days since the 1st of March of year 0
    let (year, remaining) = march_year_of(gregorian, number as i128 + 306);
    let m0: i128 = (100 * remaining + 52) / 3060;
    let day0: i128 = remaining - (m0 * 306 + 5) / 10;
    proof {
        lemma_month_from_march(remaining as int, m0 as int);
    }
    // back from counting by March to counting by January
    let civil_year: i128 = year + (m0 + 2) / 12;
    let month: i128 = (m0 + 2) % 12 + 1;
    proof {
        lemma_day_number_from_march(gregorian, year as int, m0 as int, day0 as int);
        lemma_year_of_day_number(
            gregorian,
            number as int,
            civil_year as int,
            month as int,
            day0 + 1,
        );
    }
    (civil_year as i32, month as u8, (day0 + 1) as u8)
}

/// A date whose day number lies in the calendar's range has its year in the
/// range of the years.
proof fn lemma_year_of_day_number(gregorian: bool, number: int, year: int, month: int, day: int)
    requires
        min_day_number(gregorian) <= number <= max_day_number(gregorian),
        is_date(gregorian, year, month, day),
        day_number_of(gregorian, year, month, day) == number,
    ensures
        i32::MIN <= year <= i32::MAX,
{
    if year < i32::MIN {
        lemma_day_number_order(gregorian, year, month, day, i32::MIN as int, 1, 1);
    }
    if year > i32::MAX {
        lemma_day_number_order(gregorian, i32::MAX as int, 12, 31, year, month, day);
    }
}

/// The estimate of the year from the mean length of a year is never too low
/// and at most one too high.
proof fn lemma_year_estimate(gregorian: bool, n: int, estimate: int)
    requires
        estimate == (10_000 * n + 14_780) / (if gregorian {
            3_652_425int
        } else {
            3_652_500int
        }),
    ensures
        days_before_march_of(gregorian, estimate - 1) <= n < days_before_march_of(
            gregorian,
            estimate + 1,
        ),
{
    lemma_mean_year_error(gregorian, estimate - 1);
    lemma_mean_year_error(gregorian, estimate + 1);
}

/// A year in its cycle of 400 years: the centuries `a` that went before it
/// in the cycle, the groups of four years `q` before it in its century and
/// the years `s` before it in its group.
proof fn lemma_year_in_cycle(year: int) -> (parts: (int, int, int, int))
    ensures
        ({
            let (c, a, q, s) = parts;
            &&& year == 400 * c + 100 * a + 4 * q + s
            &&& 0 <= a <= 3
            &&& 0 <= q <= 24
            &&& 0 <= s <= 3
            &&& year / 4 == 100 * c + 25 * a + q
            &&& year / 100 == 4 * c + a
            &&& year / 400 == c
        }),
{
    let c = year / 400;
    let in_cycle = year % 400;
    let a = in_cycle / 100;
    let in_century = in_cycle % 100;
    let q = in_century / 4;
    let s = in_century % 4;
    assert(year == 400 * c + 100 * a + 4 * q + s);
    assert(year / 4 == 100 * c + 25 * a + q);
    assert(year / 100 == 4 * c + a);
    (c, a, q, s)
}

/// How far the true count of days to a year's start runs from the count by
/// the mean length of a year, in units of a ten-thousandth of a day.
proof fn lemma_mean_year_error(gregorian: bool, year: int)
    ensures
        gregorian ==> -14_775 <= 10_000 * days_before_march_of(gregorian, year) - 3_652_425 * year
            <= 7_200,
        !gregorian ==> -7_500 <= 10_000 * days_before_march_of(gregorian, year) - 3_652_500 * year
            <= 0,
{
    reveal(days_before_year);
    if gregorian {
        let (c, a, q, s) = lemma_year_in_cycle(year);
        assert(10_000 * (365 * year + year / 4 - year / 100 + year / 400) - 3_652_425 * year == 300
            * q - 2_500 * a - 2_425 * s);
    } else {
        let q = year / 4;
        let s = year % 4;
        assert(10_000 * (365 * year + year / 4) - 3_652_500 * year == -2_500 * s);
    }
}

/// Later years start later.
pub proof fn lemma_days_before_year_increases(gregorian: bool, earlier: int, later: int)
    requires
        earlier <= later,
    ensures
        days_before_year(gregorian, earlier) + 365 * (later - earlier) <= days_before_year(
            gregorian,
            later,
        ),
    decreases later - earlier,
{
    if earlier < later {
        lemma_days_before_year_increases(gregorian, earlier, later - 1);
        lemma_year_step(gregorian, later - 1);
    }
}

/// Day numbers count the days of the calendar: the 1st of January of year 1
/// has number 0, the first day of a month follows the last day of the month
/// before, and the first day of a year the last day of the year before.
pub proof fn lemma_day_number_counts_days(gregorian: bool, year: int, month: int, day: int)
    requires
        1 <= month <= 12,
    ensures
        day_number_of(gregorian, 1, 1, 1) == 0,
        day_number_of(gregorian, year, month, day + 1) == day_number_of(
            gregorian,
            year,
            month,
            day,
        ) + 1,
        month < 12 ==> day_number_of(gregorian, year, month + 1, 1) == day_number_of(
            gregorian,
            year,
            month,
            days_in_month(gregorian, month, year),
        ) + 1,
        day_number_of(gregorian, year + 1, 1, 1) == day_number_of(gregorian, year, 12, 31) + 1,
        day_number_of(gregorian, year + 1, 1, 1) == day_number_of(gregorian, year, 1, 1)
            + days_in_year(gregorian, year),
{
    assert(days_before_year(gregorian, 1) == 0) by {
        reveal(days_before_year);
    }
    lemma_year_step(gregorian, year);
}

/// Whether the first date comes before the second.
pub open spec fn date_before(
    year1: int,
    month1: int,
    day1: int,
    year2: int,
    month2: int,
    day2: int,
) -> bool {
    year1 < year2 || (year1 == year2 && (month1 < month2 || (month1 == month2 && day1 < day2)))
}

/// Of two dates, the earlier has the lower day number.
pub proof fn lemma_day_number_order(
    gregorian: bool,
    year1: int,
    month1: int,
    day1: int,
    year2: int,
    month2: int,
    day2: int,
)
    requires
        is_date(gregorian, year1, month1, day1),
        is_date(gregorian, year2, month2, day2),
        date_before(year1, month1, day1, year2, month2, day2),
    ensures
        day_number_of(gregorian, year1, month1, day1) < day_number_of(
            gregorian,
            year2,
            month2,
            day2,
        ),
{
    if year1 < year2 {
        lemma_year_step(gregorian, year1);
        lemma_days_before_year_increases(gregorian, year1 + 1, year2);
        assert(days_before_month(gregorian, year1, month1) + day1 <= days_in_year(gregorian, year1));
    } else if month1 < month2 {
        assert(days_before_month(gregorian, year1, month1) + day1 <= days_before_month(
            gregorian,
            year1,
            month2,
        ));
    }
}

/// The date of the day number of a date is that date: whatever date has the
/// day number of (`year`, `month`, `day`) is (`year`, `month`, `day`).
pub proof fn lemma_day_number_round_trip(
    gregorian: bool,
    year: int,
    month: int,
    day: int,
    back: (int, int, int),
)
    requires
        is_date(gregorian, year, month, day),
        is_date_of(gregorian, day_number_of(gregorian, year, month, day), back.0, back.1, back.2),
    ensures
        back == (year, month, day),
{
    if date_before(year, month, day, back.0, back.1, back.2) {
        lemma_day_number_order(gregorian, year, month, day, back.0, back.1, back.2);
    }
    if date_before(back.0, back.1, back.2, year, month, day) {
        lemma_day_number_order(gregorian, back.0, back.1, back.2, year, month, day);
    }
}

/// The day numbers of the dates whose year is in the range of the years are
/// those from the least to the greatest day number of the calendar.
pub proof fn lemma_day_number_range(gregorian: bool, year: int, month: int, day: int)
    requires
        is_date(gregorian, year, month, day),
    ensures
        i32::MIN <= year <= i32::MAX <==> min_day_number(gregorian) <= day_number_of(
            gregorian,
            year,
            month,
            day,
        ) <= max_day_number(gregorian),
{
    if year < i32::MIN {
        lemma_day_number_order(gregorian, year, month, day, i32::MIN as int, 1, 1);
    } else if year > i32::MAX {
        lemma_day_number_order(gregorian, i32::MAX as int, 12, 31, year, month, day);
    } else {
        if date_before(i32::MIN as int, 1, 1, year, month, day) {
            lemma_day_number_order(gregorian, i32::MIN as int, 1, 1, year, month, day);
        }
        if date_before(year, month, day, i32::MAX as int, 12, 31) {
            lemma_day_number_order(gregorian, year, month, day, i32::MAX as int, 12, 31);
        }
    }
}

/// The least and the greatest day number of each calendar.
pub proof fn lemma_day_number_limits()
    ensures
        min_day_number(true) == -784_352_296_671,
        max_day_number(true) == 784_352_295_938,
        min_day_number(false) == -784_368_402_798,
        max_day_number(false) == 784_368_402_065,
{
    reveal(days_before_year);
}

/// The instant at which the calendar starts: the 1st of January of its year
/// 1, 00:00:00 TT.
pub open spec fn calendar_epoch(gregorian: bool) -> int {
    tt_instant(gregorian, 0, 0, 0)
}

/// The name of a calendar.
pub open spec fn calendar_name(gregorian: bool) -> Seq<char> {
    if gregorian {
        "Gregorian"@
    } else {
        "Julian"@
    }
}

/// A calendar of twelve months with leap years: the Gregorian or the Julian
/// one, both taken to hold for all time before and after their use.
///
/// Years are counted as in ISO 8601: year 0 is 1 B.C., year -1 is 2 B.C., and
/// in general the year `n` B.C. is year `1 - n`.
pub trait Calendar {
    /// Whether this is the Gregorian calendar; else it is the Julian one.
    spec fn gregorian() -> bool;

    /// Whether this is the Gregorian calendar; else it is the Julian one.
    fn is_gregorian() -> (gregorian: bool)
        ensures
            gregorian == Self::gregorian(),
    ;

    /// The name of the calendar.
    fn name() -> (name: &'static str)
        ensures
            name@ == calendar_name(Self::gregorian()),
    {
        if Self::is_gregorian() {
            "Gregorian"
        } else {
            "Julian"
        }
    }

    /// The instant at which the calendar starts.
    fn epoch() -> (epoch: Instant)
        ensures
            epoch@ == calendar_epoch(Self::gregorian()),
    {
        if Self::is_gregorian() {
            Epoch::GregorianCalendar.as_instant()
        } else {
            Epoch::JulianCalendar.as_instant()
        }
    }

    /// Whether `year` is a leap year.
    fn is_year_leap(year: i32) -> (leap: bool)
        ensures
            leap == is_leap_year(Self::gregorian(), year as int),
    {
        let year = year as i64;
        let fourth = crate::divmod_i64(year, 4).1 == 0;
        if Self::is_gregorian() {
            fourth && (crate::divmod_i64(year, 100).1 != 0 || crate::divmod_i64(year, 400).1 == 0)
        } else {
            fourth
        }
    }

    /// The day number of a date: the days from the start of the calendar to
    /// it. `year` may be any year. `day` need not lie within the month: it
    /// counts on from the 1st of `month`, backwards too. A `month` outside 1
    /// to 12 is a `RangeError`.
    fn day_number(year: i32, month: u8, day: i64) -> (number: Result<i64, Error>)
        requires
            1 <= month <= 12 ==> i64::MIN <= day_number_of(
                Self::gregorian(),
                year as int,
                month as int,
                day as int,
            ) <= i64::MAX,
        ensures
            1 <= month <= 12 ==> number == Ok::<i64, Error>(
                day_number_of(Self::gregorian(), year as int, month as int, day as int) as i64,
            ),
            !(1 <= month <= 12) ==> number == Err::<i64, Error>(Error::RangeError),
    {
        if month < 1 || month > 12 {
            return Err(Error::RangeError);
        }
        let number = day_number_wide(Self::is_gregorian(), year as i64, month, day as i128);
        Ok(number as i64)
    }

    /// The date (year, month, day) of a day number. A day number before the
    /// first day of the year -2147483648 or after the last day of the year
    /// 2147483647 is a `RangeError`.
    fn from_day_number(day_number: i64) -> (date: Result<(i32, u8, u8), Error>)
        ensures
            min_day_number(Self::gregorian()) <= day_number <= max_day_number(Self::gregorian())
                ==> date.is_ok() && is_date_of(
                Self::gregorian(),
                day_number as int,
                date.unwrap().0 as int,
                date.unwrap().1 as int,
                date.unwrap().2 as int,
            ),
            !(min_day_number(Self::gregorian()) <= day_number <= max_day_number(
                Self::gregorian(),
            )) ==> date == Err::<(i32, u8, u8), Error>(Error::RangeError),
    {
        proof {
            lemma_day_number_limits();
        }
        let gregorian = Self::is_gregorian();
        let (min, max): (i64, i64) = if gregorian {
            (-784_352_296_671, 784_352_295_938)
        } else {
            (-784_368_402_798, 784_368_402_065)
        };
        if day_number < min || day_number > max {
            return Err(Error::RangeError);
        }
        Ok(date_of_day_number(gregorian, day_number))
    }

    /// The number of days of `month` in `year`.
    fn month_days(month: u8, year: i32) -> (days: u8)
        requires
            1 <= month <= 12,
        ensures
            days == days_in_month(Self::gregorian(), month as int, year as int),
    {
        match month {
            2 => if Self::is_year_leap(year) {
                29
            } else {
                28
            },
            4 | 6 | 9 | 11 => 30,
            _ => 31,
        }
    }
}

/// The Julian calendar.
#[derive(Debug, Clone, Copy, PartialEq, Eq, PartialOrd, Ord, Hash)]
pub struct Julian;

impl Calendar for Julian {
    open spec fn gregorian() -> bool {
        false
    }

    fn is_gregorian() -> (gregorian: bool) {
        false
    }
}

/// The Gregorian calendar.
#[derive(Debug, Clone, Copy, PartialEq, Eq, PartialOrd, Ord, Hash)]
pub struct Gregorian;

impl Calendar for Gregorian {
    open spec fn gregorian() -> bool {
        true
    }

    fn is_gregorian() -> (gregorian: bool) {
        true
    }
}

} // verus!
