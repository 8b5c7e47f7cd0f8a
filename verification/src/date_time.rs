use crate::calendar::{
    calendar_epoch, calendar_name, date_of_day_number, day_number_of, day_number_wide,
    days_before_year, days_in_month, floor_div, lemma_day_number_limits, lemma_day_number_range,
    lemma_day_number_round_trip, max_day_number, min_day_number, Calendar, Gregorian, Julian,
};
use crate::duration::{attos_per_sec, Duration, ATTOS_PER_SEC_U64};
use crate::error::Error;
use crate::instant::{tt_instant, Instant};
use crate::leaps::{
    leap_count, leap_instant, leap_reading, leaps_elapsed, leaps_read, lemma_leap_instants_increase,
    lemma_leap_readings_apart, lemma_leaps_elapsed, lemma_leaps_read,
};
use crate::standard::{
    clock_to_tt, in_leap_second, leaps_at, lemma_clock_instant_back, tt_minus_utc, tt_to_clock,
    Standard, Tt,
};
use crate::text::{append_decimal, decimal};
use std::cmp::Ordering;
use std::marker::PhantomData;
use std::ops::{Add, Sub};
use vstd::prelude::*;
use vstd::std_specs::cmp::{PartialEqSpecImpl, PartialOrdSpecImpl};
use vstd::std_specs::convert::{FromSpecImpl, TryFromSpecImpl};
use vstd::std_specs::ops::{AddSpecImpl, SubSpecImpl};
use vstd::string::StringExecFns;

verus! {

/// What a `DateTime` holds, as numbers.
pub struct DateTimeFields {
    pub year: int,
    pub month: int,
    pub day: int,
    pub hour: int,
    pub minute: int,
    pub second: int,
    pub attosecond: int,
}

/// The fields of a date and time.
pub open spec fn fields_of(
    year: int,
    month: int,
    day: int,
    hour: int,
    minute: int,
    second: int,
    attosecond: int,
) -> DateTimeFields {
    DateTimeFields { year, month, day, hour, minute, second, attosecond }
}

/// The attoseconds from the start of the calendar to a date and time whose
/// fields may be of any size and sign: months beyond the twelve count on into
/// the years after, days beyond the month into the months after, and so on
/// down to the attoseconds.
pub open spec fn rolled_total(
    gregorian: bool,
    year: int,
    month: int,
    day: int,
    hour: int,
    minute: int,
    second: int,
    attosecond: int,
) -> int {
    let month0 = month - 1;
    let days = day_number_of(gregorian, year + month0 / 12, month0 % 12 + 1, day);
    (((days * 24 + hour) * 60 + minute) * 60 + second) * attos_per_sec() + attosecond
}

/// Attoseconds in a day.
#[verifier::inline]
pub open spec fn attos_per_day() -> int {
    86_400 * attos_per_sec()
}

/// Whether a date and time that many attoseconds from the start of the
/// calendar falls into the years that can be held.
pub open spec fn in_calendar(gregorian: bool, total: int) -> bool {
    min_day_number(gregorian) * attos_per_day() <= total < (max_day_number(gregorian) + 1)
        * attos_per_day()
}

/// How far from the start of the calendar the date and time lies that a
/// clock shows at `instant`, in attoseconds: the clock is of the standard
/// that is `offset` attoseconds behind Terrestrial Time and has leap seconds
/// where it is `leaping`. During a leap second such a clock stands at the
/// start of the next day, while the date and time shows the second 60 of the
/// day before.
pub open spec fn shown_total(gregorian: bool, offset: int, leaping: bool, instant: int) -> int {
    tt_to_clock(offset, leaping, instant) - calendar_epoch(gregorian)
}

/// Whether the date and time that the clock shows at `instant` falls into
/// the years that can be held.
pub open spec fn is_shown(gregorian: bool, offset: int, leaping: bool, instant: int) -> bool {
    in_calendar(
        gregorian,
        if leaping && in_leap_second(instant) {
            shown_total(gregorian, offset, leaping, instant) - attos_per_sec()
        } else {
            shown_total(gregorian, offset, leaping, instant)
        },
    )
}

/// The instants at which the calendars start, in attoseconds.
pub proof fn lemma_calendar_epochs()
    ensures
        calendar_epoch(true) == -62_356_521_632_184_000_000_000_000_000,
        calendar_epoch(false) == -62_356_694_432_184_000_000_000_000_000,
{
    reveal(days_before_year);
}

/// The second and the attoseconds of a date and time are what is left of
/// the attoseconds from the start of the calendar beside the whole minutes.
proof fn lemma_second_in_total(gregorian: bool, fields: DateTimeFields)
    requires
        fields.is_nominal(),
        fields.second < 60,
    ensures
        fields.total(gregorian) % (60 * attos_per_sec()) == fields.second * attos_per_sec()
            + fields.attosecond,
{
    let minute = 60 * attos_per_sec();
    let minutes = (fields.day_number(gregorian) * 24 + fields.hour) * 60 + fields.minute;
    let rest = fields.second * attos_per_sec() + fields.attosecond;
    assert(fields.total(gregorian) == minute * minutes + rest);
    vstd::arithmetic::div_mod::lemma_fundamental_div_mod_converse(
        fields.total(gregorian),
        minute,
        minutes,
        rest,
    );
}

/// The last second before a whole minute is the second 59.
proof fn lemma_second_59(total: int, minutes: int)
    requires
        minutes * 60 * attos_per_sec() - attos_per_sec() <= total < minutes * 60 * attos_per_sec(),
    ensures
        total % (60 * attos_per_sec()) >= 59 * attos_per_sec(),
{
    let minute = 60 * attos_per_sec();
    let rest = total - (minutes - 1) * minute;
    assert(total == minute * (minutes - 1) + rest);
    vstd::arithmetic::div_mod::lemma_fundamental_div_mod_converse(
        total,
        minute,
        minutes - 1,
        rest,
    );
}

/// At a leap instant UTC reads midnight: the minutes from the start of the
/// calendar to what it reads then.
proof fn lemma_leap_at_midnight(gregorian: bool, index: int) -> (minutes: int)
    requires
        0 <= index < leap_count(),
    ensures
        leap_reading(index) - tt_minus_utc() - calendar_epoch(gregorian) == minutes * 60
            * attos_per_sec(),
{
    lemma_leap_readings_apart(index);
    lemma_calendar_epochs();
    crate::leaps::lemma_ntp_epoch();
    let days = crate::leaps::IANA_NTP_LEAP_SECONDS[index] as int / 86_400;
    assert(crate::leaps::IANA_NTP_LEAP_SECONDS[index] as int == days * 86_400);
    if gregorian {
        days * 1440 + 998_776_800
    } else {
        days * 1440 + 998_779_680
    }
}

/// During a leap second UTC stands at the midnight after it: the second
/// before that is the second 59, and the instant a second later than the one
/// at which UTC reads that.
proof fn lemma_shown_in_leap_second(gregorian: bool, instant: int)
    requires
        in_leap_second(instant),
    ensures
        ({
            let shown = shown_total(gregorian, tt_minus_utc(), true, instant);
            &&& (shown - attos_per_sec()) % (60 * attos_per_sec()) >= 59 * attos_per_sec()
            &&& clock_to_tt(
                tt_minus_utc(),
                true,
                tt_instant(gregorian, 0, 0, shown - attos_per_sec()),
            ) + attos_per_sec() == instant
        }),
{
    let a = attos_per_sec();
    lemma_leaps_elapsed(instant);
    lemma_leaps_elapsed(instant + a);
    let j = leaps_elapsed(instant);
    lemma_clock_instant_back(tt_minus_utc(), true, instant);
    assert(leap_instant(j) - a <= instant < leap_instant(j));
    let shown = shown_total(gregorian, tt_minus_utc(), true, instant);
    let minutes = lemma_leap_at_midnight(gregorian, j);
    lemma_second_59(shown - a, minutes);
    // the second before the leap second is read only once
    let ahead = tt_to_clock(tt_minus_utc(), true, instant) + tt_minus_utc() - a;
    assert(leap_reading(j) - a <= ahead < leap_reading(j));
    lemma_leaps_read(ahead);
    let read = leaps_read(ahead);
    if read > j {
        lemma_leap_instants_increase(j, read - 1);
    }
    if read < j {
        lemma_leap_instants_increase(read, j - 1);
    }
    assert(tt_instant(gregorian, 0, 0, shown - a) == calendar_epoch(gregorian) + shown - a);
}

/// The date and time that a clock shows at an instant names that instant:
/// fields that lie as far from the start of the calendar as the clock shows
/// at `instant`, with the second 60 exactly in a leap second of the clock,
/// are read by the clock at `instant` and at no other.
pub proof fn lemma_shown_names_instant(
    gregorian: bool,
    offset: int,
    leaping: bool,
    instant: int,
    fields: DateTimeFields,
)
    requires
        leaping ==> offset == tt_minus_utc(),
        fields.second == 60 <==> leaping && in_leap_second(instant),
        fields.total(gregorian) == shown_total(gregorian, offset, leaping, instant),
    ensures
        fields.instant(gregorian, offset, leaping) == instant,
{
    lemma_clock_instant_back(offset, leaping, instant);
    if leaping && in_leap_second(instant) {
        lemma_shown_in_leap_second(gregorian, instant);
    }
}

/// The other way round, a clock shows at the instant that a date and time
/// names that date and time again: it stands as far from the start of the
/// calendar there, and has a leap second there exactly where the date and
/// time has the second 60. A second 60 where the clock has no leap second
/// names the first second of the minute after, and is shown as that.
pub proof fn lemma_named_instant_shows(
    gregorian: bool,
    offset: int,
    leaping: bool,
    fields: DateTimeFields,
)
    requires
        fields.second == 60 ==> leaping && in_leap_second(
            fields.instant(gregorian, offset, leaping),
        ),
    ensures
        shown_total(gregorian, offset, leaping, fields.instant(gregorian, offset, leaping))
            == fields.total(gregorian),
        leaping && in_leap_second(fields.instant(gregorian, offset, leaping)) <==> fields.second
            == 60,
{
    let a = attos_per_sec();
    let instant = fields.instant(gregorian, offset, leaping);
    let reading = if fields.second == 60 {
        tt_instant(gregorian, 0, 0, fields.total(gregorian) - a)
    } else {
        tt_instant(gregorian, 0, 0, fields.total(gregorian))
    };
    let named = clock_to_tt(offset, leaping, reading);
    crate::standard::lemma_clock_reads_back(offset, leaping, reading);
    if leaping {
        // the instant given for what a clock reads is never in a leap second
        let ahead = reading + offset;
        let read = leaps_read(ahead);
        lemma_leaps_read(ahead);
        lemma_leaps_elapsed(named);
        lemma_leaps_elapsed(named + a);
        if leaps_elapsed(named + a) > read {
            lemma_leap_instants_increase(read, leaps_elapsed(named + a) - 1);
        }
        if leaps_elapsed(named) < read {
            lemma_leap_instants_increase(leaps_elapsed(named), read - 1);
        }
        assert(!in_leap_second(named));
        if fields.second == 60 {
            lemma_leaps_elapsed(instant);
            lemma_leaps_elapsed(instant + a);
            if leaps_elapsed(instant + a) > read + 1 {
                lemma_leap_instants_increase(read, leaps_elapsed(instant + a) - 1);
            }
        }
    }
}

/// The quotient and the remainder of `value` by `unit`, the remainder never
/// negative: what carries over into the next greater unit, and what stays.
fn carry(value: i128, unit: i128) -> (parts: (i128, i128))
    requires
        0 < unit <= 0x1_0000_0000_0000_0000,
        -0x1_0000_0000_0000_0000_0000 <= value <= 0x1_0000_0000_0000_0000_0000,
    ensures
        parts.0 == value / unit,
        parts.1 == value % unit,
        value == parts.0 * unit + parts.1,
        0 <= parts.1 < unit,
        value >= 0 ==> 0 <= parts.0 <= value,
        value < 0 ==> value <= parts.0 < 0,
{
    let over = floor_div(value, unit);
    proof {
        vstd::arithmetic::div_mod::lemma_fundamental_div_mod(value as int, unit as int);
        vstd::arithmetic::div_mod::lemma_mod_bound(value as int, unit as int);
        let rest = value as int % unit as int;
        assert(over * unit == value - rest && (value >= 0 ==> 0 <= over <= value) && (value < 0
            ==> value <= over < 0)) by (nonlinear_arith)
            requires
                value == unit * over + rest,
                0 <= rest < unit,
        ;
    }
    (over, value - over * unit)
}

/// A date and time is known by the attoseconds from the start of the
/// calendar: two that hold a day that their year has, and no second 60, and
/// lie equally far from it, are the same.
pub proof fn lemma_total_injective(gregorian: bool, first: DateTimeFields, second: DateTimeFields)
    requires
        first.is_valid(gregorian),
        second.is_valid(gregorian),
        first.second < 60,
        second.second < 60,
        first.total(gregorian) == second.total(gregorian),
    ensures
        first == second,
{
    let day1 = first.day_number(gregorian);
    let day2 = second.day_number(gregorian);
    let in_day1 = ((first.hour * 60 + first.minute) * 60 + first.second) * attos_per_sec()
        + first.attosecond;
    let in_day2 = ((second.hour * 60 + second.minute) * 60 + second.second) * attos_per_sec()
        + second.attosecond;
    assert(first.total(gregorian) == day1 * attos_per_day() + in_day1);
    assert(second.total(gregorian) == day2 * attos_per_day() + in_day2);
    assert(0 <= in_day1 < attos_per_day());
    assert(0 <= in_day2 < attos_per_day());
    assert(day1 == day2);
    lemma_day_number_round_trip(
        gregorian,
        first.year,
        first.month,
        first.day,
        (second.year, second.month, second.day),
    );
    let seconds1 = (first.hour * 60 + first.minute) * 60 + first.second;
    let seconds2 = (second.hour * 60 + second.minute) * 60 + second.second;
    assert(seconds1 == seconds2);
}

/// The last second that a minute can have under a standard: the second 60
/// where the standard has leap seconds, else the second 59.
pub open spec fn last_second(leaping: bool) -> int {
    if leaping {
        60
    } else {
        59
    }
}

impl DateTimeFields {
    /// Every field but the year lies in its range: months from 1 to 12, days
    /// from 1 to as many as the month can have, hours up to 23, minutes up to
    /// 59, seconds up to 60, attoseconds under one second.
    pub open spec fn is_nominal(self) -> bool {
        &&& i32::MIN <= self.year <= i32::MAX
        &&& 1 <= self.month <= 12
        &&& 1 <= self.day <= days_in_month(false, self.month, 0)
        &&& 0 <= self.hour <= 23
        &&& 0 <= self.minute <= 59
        &&& 0 <= self.second <= 60
        &&& 0 <= self.attosecond < attos_per_sec()
    }

    /// The fields are in range and the year has the day.
    pub open spec fn is_valid(self, gregorian: bool) -> bool {
        &&& self.is_nominal()
        &&& self.day <= days_in_month(gregorian, self.month, self.year)
    }

    /// The fields are in range, the year has the day, and the second is one
    /// that the standard has: the second 60 stands for a leap second, and is
    /// no second of a standard without leap seconds.
    pub open spec fn is_valid_under(self, gregorian: bool, leaping: bool) -> bool {
        &&& self.is_valid(gregorian)
        &&& self.second <= last_second(leaping)
    }

    /// The day number of the date.
    pub open spec fn day_number(self, gregorian: bool) -> int {
        day_number_of(gregorian, self.year, self.month, self.day)
    }

    /// The attoseconds from the start of the calendar to the date and time.
    /// The second 60 counts as the first second of the minute after.
    pub open spec fn total(self, gregorian: bool) -> int {
        (((self.day_number(gregorian) * 24 + self.hour) * 60 + self.minute) * 60 + self.second)
            * attos_per_sec() + self.attosecond
    }

    /// The instant at which a clock of the standard that is `offset`
    /// attoseconds behind Terrestrial Time, and has leap seconds where it is
    /// `leaping`, reads the date and time. The second 60 is the second after
    /// the second 59, which is a leap second where the clock has one there.
    pub open spec fn instant(self, gregorian: bool, offset: int, leaping: bool) -> int {
        if self.second == 60 {
            clock_to_tt(
                offset,
                leaping,
                tt_instant(gregorian, 0, 0, self.total(gregorian) - attos_per_sec()),
            ) + attos_per_sec()
        } else {
            clock_to_tt(offset, leaping, tt_instant(gregorian, 0, 0, self.total(gregorian)))
        }
    }
}

/// A date of a calendar with the time of day in a time standard, to the
/// attosecond.
///
/// The calendar `C` is `Gregorian` or `Julian`, taken to hold for all time.
/// The fields lie in these ranges:
///
/// * year: any `i32`; year 0 is 1 B.C., year -1 is 2 B.C.
/// * month: 1 to 12
/// * day: 1 to 31, or what the month has
/// * hour: 0 to 23
/// * minute: 0 to 59
/// * second: 0 to 59, and 60 for a leap second where the standard has leap
///   seconds
/// * attosecond: 0 to 999_999_999_999_999_999
///
/// Also in the years before year 1 the fields but the year count forwards.
#[derive(Debug, Hash, Ord)]
pub struct DateTime<C: Calendar, S: Standard = Tt> {
    year: i32,
    month: u8,
    day: u8,
    hour: u8,
    minute: u8,
    second: u8,
    attos: u64,
    _cal: PhantomData<C>,
    _std: PhantomData<S>,
}

impl<C: Calendar, S: Standard> View for DateTime<C, S> {
    type V = DateTimeFields;

    closed spec fn view(&self) -> DateTimeFields {
        fields_of(
            self.year as int,
            self.month as int,
            self.day as int,
            self.hour as int,
            self.minute as int,
            self.second as int,
            self.attos as int,
        )
    }
}

impl<C: Calendar, S: Standard> Clone for DateTime<C, S> {
    fn clone(&self) -> (copy: Self)
        ensures
            copy == *self,
    {
        *self
    }
}

impl<C: Calendar, S: Standard> Copy for DateTime<C, S> {

}

impl<C: Calendar, S: Standard> PartialEq for DateTime<C, S> {
    fn eq(&self, other: &Self) -> (equal: bool) {
        self.year == other.year && self.month == other.month && self.day == other.day && self.hour
            == other.hour && self.minute == other.minute && self.second == other.second
            && self.attos == other.attos
    }
}

impl<C: Calendar, S: Standard> PartialEqSpecImpl for DateTime<C, S> {
    open spec fn obeys_eq_spec() -> bool {
        true
    }

    open spec fn eq_spec(&self, other: &Self) -> bool {
        self@ == other@
    }
}

impl<C: Calendar, S: Standard> Eq for DateTime<C, S> {

}

/// Whether the first date and time reads earlier than the second: the fields
/// are compared from the year down to the attosecond.
pub open spec fn fields_before(first: DateTimeFields, second: DateTimeFields) -> bool {
    first.year < second.year || (first.year == second.year && (first.month < second.month || (
    first.month == second.month && (first.day < second.day || (first.day == second.day && (
    first.hour < second.hour || (first.hour == second.hour && (first.minute < second.minute || (
    first.minute == second.minute && (first.second < second.second || (first.second
        == second.second && first.attosecond < second.attosecond)))))))))))
}

impl<C: Calendar, S: Standard> PartialOrd for DateTime<C, S> {
    fn partial_cmp(&self, other: &Self) -> (order: Option<Ordering>) {
        if self.year != other.year {
            return Some(
                if self.year < other.year {
                    Ordering::Less
                } else {
                    Ordering::Greater
                },
            );
        }
        if self.month != other.month {
            return Some(
                if self.month < other.month {
                    Ordering::Less
                } else {
                    Ordering::Greater
                },
            );
        }
        if self.day != other.day {
            return Some(
                if self.day < other.day {
                    Ordering::Less
                } else {
                    Ordering::Greater
                },
            );
        }
        if self.hour != other.hour {
            return Some(
                if self.hour < other.hour {
                    Ordering::Less
                } else {
                    Ordering::Greater
                },
            );
        }
        if self.minute != other.minute {
            return Some(
                if self.minute < other.minute {
                    Ordering::Less
                } else {
                    Ordering::Greater
                },
            );
        }
        if self.second != other.second {
            return Some(
                if self.second < other.second {
                    Ordering::Less
                } else {
                    Ordering::Greater
                },
            );
        }
        if self.attos != other.attos {
            return Some(
                if self.attos < other.attos {
                    Ordering::Less
                } else {
                    Ordering::Greater
                },
            );
        }
        Some(Ordering::Equal)
    }
}

impl<C: Calendar, S: Standard> PartialOrdSpecImpl for DateTime<C, S> {
    open spec fn obeys_partial_cmp_spec() -> bool {
        true
    }

    open spec fn partial_cmp_spec(&self, other: &Self) -> Option<Ordering> {
        if fields_before(self@, other@) {
            Some(Ordering::Less)
        } else if fields_before(other@, self@) {
            Some(Ordering::Greater)
        } else {
            Some(Ordering::Equal)
        }
    }
}

impl<C: Calendar, S: Standard> DateTime<C, S> {
    /// Every field but the year lies in its range, and the second 60 is
    /// held only under a standard with leap seconds.
    #[verifier::type_invariant]
    pub closed spec fn is_nominal(&self) -> bool {
        self@.is_nominal() && self@.second <= last_second(S::leaping())
    }

    /// The instant that the date and time name.
    pub open spec fn instant(&self) -> int {
        self@.instant(C::gregorian(), S::offset_to_tt(), S::leaping())
    }

    /// Two of them with the same fields are equal.
    pub proof fn lemma_eq_by_view(self, other: Self)
        requires
            self.is_nominal(),
            other.is_nominal(),
            self@ == other@,
        ensures
            self == other,
    {
    }

    /// The date and time without a second 60 that lies `total` attoseconds
    /// from the start of the calendar.
    pub closed spec fn at_total(total: int) -> Self {
        choose|date_time: Self|
            date_time.is_nominal() && date_time@.is_valid(C::gregorian()) && date_time@.second
                < 60 && date_time@.total(C::gregorian()) == total
    }

    /// There is one date and time without a second 60 that far from the
    /// start of the calendar.
    pub proof fn lemma_at_total(self)
        requires
            self.is_nominal(),
            self@.is_valid(C::gregorian()),
            self@.second < 60,
        ensures
            Self::at_total(self@.total(C::gregorian())) == self,
    {
        let found = Self::at_total(self@.total(C::gregorian()));
        lemma_total_injective(C::gregorian(), found@, self@);
        found.lemma_eq_by_view(self);
    }

    /// The date and time that the clock of the standard shows at `instant`:
    /// in a leap second of the standard the second 60 after the second
    /// before.
    pub closed spec fn showing(instant: int) -> Self {
        let total = shown_total(C::gregorian(), S::offset_to_tt(), S::leaping(), instant);
        if S::leaping() && in_leap_second(instant) {
            DateTime { second: 60, ..Self::at_total(total - attos_per_sec()) }
        } else {
            Self::at_total(total)
        }
    }

    /// The date and time with the date of `date` and the time of day of
    /// `self`.
    pub closed spec fn on_date_of<C2: Calendar>(self, date: DateTime<C2, S>) -> DateTime<C2, S> {
        DateTime {
            hour: self.hour,
            minute: self.minute,
            second: self.second,
            attos: self.attos,
            ..date
        }
    }

    /// Puts fields together that are known to be in range.
    fn new_unchecked(
        year: i32,
        month: u8,
        day: u8,
        hour: u8,
        minute: u8,
        second: u8,
        attosecond: u64,
    ) -> (date_time: Self)
        requires
            fields_of(
                year as int,
                month as int,
                day as int,
                hour as int,
                minute as int,
                second as int,
                attosecond as int,
            ).is_nominal(),
            second <= last_second(S::leaping()),
        ensures
            date_time@ == fields_of(
                year as int,
                month as int,
                day as int,
                hour as int,
                minute as int,
                second as int,
                attosecond as int,
            ),
    {
        DateTime {
            year,
            month,
            day,
            hour,
            minute,
            second,
            attos: attosecond,
            _cal: PhantomData,
            _std: PhantomData,
        }
    }

    /// The date and time with the given fields. A field outside its range,
    /// a day that the month does not have in that year, or the second 60
    /// under a standard without leap seconds is a `RangeError`.
    pub fn new(
        year: i32,
        month: u8,
        day: u8,
        hour: u8,
        minute: u8,
        second: u8,
        attosecond: u64,
    ) -> (made: Result<Self, Error>)
        ensures
            ({
                let fields = fields_of(
                    year as int,
                    month as int,
                    day as int,
                    hour as int,
                    minute as int,
                    second as int,
                    attosecond as int,
                );
                if fields.is_valid_under(C::gregorian(), S::leaping()) {
                    made.is_ok() && made.unwrap()@ == fields
                } else {
                    made matches Err(Error::RangeError)
                }
            }),
    {
        if month < 1 || month > 12 {
            return Err(Error::RangeError);
        }
        if day < 1 || day > C::month_days(month, year) {
            return Err(Error::RangeError);
        }
        if hour > 23 {
            return Err(Error::RangeError);
        }
        if minute > 59 {
            return Err(Error::RangeError);
        }
        // the second 60 is a leap second, where the standard has any
        if second > 60 || (second == 60 && !S::has_leap_seconds()) {
            return Err(Error::RangeError);
        }
        if attosecond > 999_999_999_999_999_999 {
            return Err(Error::RangeError);
        }
        Ok(Self::new_unchecked(year, month, day, hour, minute, second, attosecond))
    }

    /// The date and time with the given fields, the year counted B.C.: the
    /// year `bc_year` B.C. is the year `1 - bc_year`. A field outside its
    /// range, a day that the month does not have, the second 60 under a
    /// standard without leap seconds, or a year that cannot be held is a
    /// `RangeError`.
    pub fn new_bc(
        bc_year: i32,
        month: u8,
        day: u8,
        hour: u8,
        minute: u8,
        second: u8,
        attosecond: u64,
    ) -> (made: Result<Self, Error>)
        ensures
            ({
                let fields = fields_of(
                    1 - bc_year,
                    month as int,
                    day as int,
                    hour as int,
                    minute as int,
                    second as int,
                    attosecond as int,
                );
                if fields.is_valid_under(C::gregorian(), S::leaping()) {
                    made.is_ok() && made.unwrap()@ == fields
                } else {
                    made matches Err(Error::RangeError)
                }
            }),
    {
        match 1i32.checked_sub(bc_year) {
            None => Err(Error::RangeError),
            Some(year) => Self::new(year, month, day, hour, minute, second, attosecond),
        }
    }

    /// The date with the given day number, at midnight. Day number 0 is the
    /// 1st of January of year 1. A day number outside the years that can be
    /// held is a `RangeError`.
    pub fn from_day_number(day_number: i64) -> (made: Result<Self, Error>)
        ensures
            ({
                let gregorian = C::gregorian();
                if min_day_number(gregorian) <= day_number <= max_day_number(gregorian) {
                    &&& made.is_ok()
                    &&& made.unwrap()@.is_valid(gregorian)
                    &&& made.unwrap()@.day_number(gregorian) == day_number
                    &&& made.unwrap()@.total(gregorian) == day_number * attos_per_day()
                } else {
                    made matches Err(Error::RangeError)
                }
            }),
    {
        match C::from_day_number(day_number) {
            Err(_) => Err(Error::RangeError),
            Ok((year, month, day)) => {
                Ok(Self::new_unchecked(year, month, day, 0, 0, 0, 0))
            },
        }
    }

    /// The year.
    #[inline]
    pub fn year(&self) -> (year: i32)
        ensures
            year == self@.year,
    {
        self.year
    }

    /// The year counted B.C.: the year 0 is 1 B.C.
    #[inline]
    pub fn year_bc(&self) -> (year_bc: i32)
        requires
            1 - self@.year <= i32::MAX,
        ensures
            year_bc == 1 - self@.year,
    {
        1 - self.year
    }

    /// The month, from 1 to 12.
    #[inline]
    pub fn month(&self) -> (month: u8)
        ensures
            month == self@.month,
            1 <= month <= 12,
    {
        proof {
            use_type_invariant(self);
        }
        self.month
    }

    /// The month counted from 0 for January, to 11.
    #[inline]
    pub fn month0(&self) -> (month0: u8)
        ensures
            month0 == self@.month - 1,
    {
        proof {
            use_type_invariant(self);
        }
        self.month - 1
    }

    /// The day of the month, from 1 to 31.
    #[inline]
    pub fn day(&self) -> (day: u8)
        ensures
            day == self@.day,
            1 <= day <= 31,
    {
        proof {
            use_type_invariant(self);
        }
        self.day
    }

    /// The day of the month counted from 0 for the 1st, to 30.
    #[inline]
    pub fn day0(&self) -> (day0: u8)
        ensures
            day0 == self@.day - 1,
    {
        proof {
            use_type_invariant(self);
        }
        self.day - 1
    }

    /// The hour, from 0 to 23.
    #[inline]
    pub fn hour(&self) -> (hour: u8)
        ensures
            hour == self@.hour,
            hour <= 23,
    {
        proof {
            use_type_invariant(self);
        }
        self.hour
    }

    /// The minute, from 0 to 59.
    #[inline]
    pub fn minute(&self) -> (minute: u8)
        ensures
            minute == self@.minute,
            minute <= 59,
    {
        proof {
            use_type_invariant(self);
        }
        self.minute
    }

    /// The second, from 0 to 59, or 60 in a leap second.
    #[inline]
    pub fn second(&self) -> (second: u8)
        ensures
            second == self@.second,
            second <= last_second(S::leaping()),
    {
        proof {
            use_type_invariant(self);
        }
        self.second
    }

    /// The attoseconds, from 0 to 999_999_999_999_999_999.
    #[inline]
    pub fn attosecond(&self) -> (attosecond: u64)
        ensures
            attosecond == self@.attosecond,
            attosecond < ATTOS_PER_SEC_U64,
    {
        proof {
            use_type_invariant(self);
        }
        self.attos
    }

    /// The day of the week as ISO 8601 counts it, from 1 for Monday to 7 for
    /// Sunday. The Gregorian calendar starts on a Monday, the Julian one on a
    /// Saturday.
    #[inline]
    pub fn weekday(&self) -> (weekday: u8)
        ensures
            weekday == (self@.day_number(C::gregorian()) + if C::gregorian() {
                0int
            } else {
                5int
            }) % 7 + 1,
    {
        proof {
            lemma_day_number_limits();
        }
        let offset: i64 = if C::is_gregorian() {
            0
        } else {
            5
        };
        let (_, since_monday) = crate::divmod_i64(self.day_number() + offset, 7);
        since_monday as u8 + 1
    }

    /// The date: year, month and day.
    #[inline]
    pub fn date(&self) -> (date: (i32, u8, u8))
        ensures
            date.0 == self@.year,
            date.1 == self@.month,
            date.2 == self@.day,
    {
        (self.year(), self.month(), self.day())
    }

    /// The time of day: hour, minute, second and attosecond.
    #[inline]
    pub fn time(&self) -> (time: (u8, u8, u8, u64))
        ensures
            time.0 == self@.hour,
            time.1 == self@.minute,
            time.2 == self@.second,
            time.3 == self@.attosecond,
    {
        (self.hour(), self.minute(), self.second(), self.attosecond())
    }

    /// The day number of the date: the days from the 1st of January of year
    /// 1, which has day number 0.
    pub fn day_number(&self) -> (number: i64)
        ensures
            number == self@.day_number(C::gregorian()),
            min_day_number(C::gregorian()) <= number <= max_day_number(C::gregorian()) + 2,
    {
        proof {
            use_type_invariant(self);
            self.lemma_day_number_bounds();
            lemma_day_number_limits();
        }
        day_number_wide(C::is_gregorian(), self.year as i64, self.month, self.day as i128) as i64
    }

    /// Sets the year and leaves the other fields as they are: a 29th of
    /// February stays one, whether the year has it or not.
    #[inline]
    pub fn set_year(&mut self, year: i32)
        ensures
            final(self)@ == (DateTimeFields { year: year as int, ..old(self)@ }),
    {
        proof {
            use_type_invariant(&*self);
        }
        self.year = year;
    }

    /// Sets the year to the year `year_bc` B.C., which is the year
    /// `1 - year_bc`, and leaves the other fields as they are.
    #[inline]
    pub fn set_year_bc(&mut self, year_bc: i32)
        requires
            1 - year_bc <= i32::MAX,
        ensures
            final(self)@ == (DateTimeFields { year: 1 - year_bc, ..old(self)@ }),
    {
        proof {
            use_type_invariant(&*self);
        }
        self.year = 1 - year_bc;
    }

    /// Sets the month and leaves the other fields as they are. A month
    /// outside 1 to 12, or one that does not have the day that is set, is a
    /// `RangeError` and changes nothing.
    pub fn set_month(&mut self, month: u8) -> (set: Result<(), Error>)
        ensures
            ({
                let before = old(self)@;
                if 1 <= month <= 12 && before.day <= days_in_month(
                    C::gregorian(),
                    month as int,
                    before.year,
                ) {
                    set.is_ok() && final(self)@ == (DateTimeFields { month: month as int, ..before })
                } else {
                    set matches Err(Error::RangeError) && final(self)@ == before
                }
            }),
    {
        proof {
            use_type_invariant(&*self);
        }
        if month < 1 || month > 12 {
            return Err(Error::RangeError);
        }
        if self.day > C::month_days(month, self.year) {
            return Err(Error::RangeError);
        }
        self.month = month;
        Ok(())
    }

    /// Sets the day of the month and leaves the other fields as they are. A
    /// day that the month does not have in the year that is set is a
    /// `RangeError` and changes nothing.
    pub fn set_day(&mut self, day: u8) -> (set: Result<(), Error>)
        ensures
            ({
                let before = old(self)@;
                if 1 <= day <= days_in_month(C::gregorian(), before.month, before.year) {
                    set.is_ok() && final(self)@ == (DateTimeFields { day: day as int, ..before })
                } else {
                    set matches Err(Error::RangeError) && final(self)@ == before
                }
            }),
    {
        proof {
            use_type_invariant(&*self);
        }
        if day < 1 || day > C::month_days(self.month, self.year) {
            return Err(Error::RangeError);
        }
        self.day = day;
        Ok(())
    }

    /// Sets the hour and leaves the other fields as they are. An hour over
    /// 23 is a `RangeError` and changes nothing.
    pub fn set_hour(&mut self, hour: u8) -> (set: Result<(), Error>)
        ensures
            ({
                let before = old(self)@;
                if hour <= 23 {
                    set.is_ok() && final(self)@ == (DateTimeFields { hour: hour as int, ..before })
                } else {
                    set matches Err(Error::RangeError) && final(self)@ == before
                }
            }),
    {
        proof {
            use_type_invariant(&*self);
        }
        if hour > 23 {
            return Err(Error::RangeError);
        }
        self.hour = hour;
        Ok(())
    }

    /// Sets the minute and leaves the other fields as they are. A minute
    /// over 59 is a `RangeError` and changes nothing.
    pub fn set_minute(&mut self, minute: u8) -> (set: Result<(), Error>)
        ensures
            ({
                let before = old(self)@;
                if minute <= 59 {
                    set.is_ok() && final(self)@ == (DateTimeFields {
                        minute: minute as int,
                        ..before
                    })
                } else {
                    set matches Err(Error::RangeError) && final(self)@ == before
                }
            }),
    {
        proof {
            use_type_invariant(&*self);
        }
        if minute > 59 {
            return Err(Error::RangeError);
        }
        self.minute = minute;
        Ok(())
    }

    /// Sets the second and leaves the other fields as they are. A second
    /// over 60, or the second 60 under a standard without leap seconds, is a
    /// `RangeError` and changes nothing. Under a standard with leap seconds
    /// the second 60 is taken in any minute.
    pub fn set_second(&mut self, second: u8) -> (set: Result<(), Error>)
        ensures
            ({
                let before = old(self)@;
                if second <= last_second(S::leaping()) {
                    set.is_ok() && final(self)@ == (DateTimeFields {
                        second: second as int,
                        ..before
                    })
                } else {
                    set matches Err(Error::RangeError) && final(self)@ == before
                }
            }),
    {
        proof {
            use_type_invariant(&*self);
        }
        if second > 60 || (second == 60 && !S::has_leap_seconds()) {
            return Err(Error::RangeError);
        }
        self.second = second;
        Ok(())
    }

    /// Sets the attoseconds and leaves the other fields as they are. One
    /// second's worth of attoseconds or more is a `RangeError` and changes
    /// nothing.
    pub fn set_attosecond(&mut self, attosecond: u64) -> (set: Result<(), Error>)
        ensures
            ({
                let before = old(self)@;
                if attosecond < ATTOS_PER_SEC_U64 {
                    set.is_ok() && final(self)@ == (DateTimeFields {
                        attosecond: attosecond as int,
                        ..before
                    })
                } else {
                    set matches Err(Error::RangeError) && final(self)@ == before
                }
            }),
    {
        proof {
            use_type_invariant(&*self);
        }
        if attosecond >= ATTOS_PER_SEC_U64 {
            return Err(Error::RangeError);
        }
        self.attos = attosecond;
        Ok(())
    }

    /// Sets the date (year, month, day), field by field in this order. The
    /// year is set in any case. The month is set next, unless it lies outside
    /// 1 to 12 or does not have the day that was set before; the day last,
    /// unless the month does not have it. What is refused is a `RangeError`,
    /// and the fields from there on stay as they were.
    pub fn set_date(&mut self, date: (i32, u8, u8)) -> (set: Result<(), Error>)
        ensures
            ({
                let gregorian = C::gregorian();
                let before = old(self)@;
                let (year, month, day) = (date.0 as int, date.1 as int, date.2 as int);
                let with_year = DateTimeFields { year, ..before };
                let with_month = DateTimeFields { month, ..with_year };
                if !(1 <= month <= 12 && before.day <= days_in_month(gregorian, month, year)) {
                    set matches Err(Error::RangeError) && final(self)@ == with_year
                } else if !(1 <= day <= days_in_month(gregorian, month, year)) {
                    set matches Err(Error::RangeError) && final(self)@ == with_month
                } else {
                    set.is_ok() && final(self)@ == (DateTimeFields { day, ..with_month })
                }
            }),
    {
        self.set_year(date.0);
        match self.set_month(date.1) {
            Err(e) => Err(e),
            Ok(()) => self.set_day(date.2),
        }
    }

    /// Sets the time of day (hour, minute, second, attosecond), field by
    /// field in this order. The first field that lies outside its range is a
    /// `RangeError`; it and the fields after it stay as they were. The
    /// second 60 lies outside the range under a standard without leap
    /// seconds.
    pub fn set_time(&mut self, time: (u8, u8, u8, u64)) -> (set: Result<(), Error>)
        ensures
            ({
                let before = old(self)@;
                let (hour, minute, second, attosecond) = (
                    time.0 as int,
                    time.1 as int,
                    time.2 as int,
                    time.3 as int,
                );
                let with_hour = DateTimeFields { hour, ..before };
                let with_minute = DateTimeFields { minute, ..with_hour };
                let with_second = DateTimeFields { second, ..with_minute };
                if hour > 23 {
                    set matches Err(Error::RangeError) && final(self)@ == before
                } else if minute > 59 {
                    set matches Err(Error::RangeError) && final(self)@ == with_hour
                } else if second > last_second(S::leaping()) {
                    set matches Err(Error::RangeError) && final(self)@ == with_minute
                } else if attosecond >= ATTOS_PER_SEC_U64 {
                    set matches Err(Error::RangeError) && final(self)@ == with_second
                } else {
                    set.is_ok() && final(self)@ == (DateTimeFields { attosecond, ..with_second })
                }
            }),
    {
        match self.set_hour(time.0) {
            Err(e) => Err(e),
            Ok(()) => match self.set_minute(time.1) {
                Err(e) => Err(e),
                Ok(()) => match self.set_second(time.2) {
                    Err(e) => Err(e),
                    Ok(()) => self.set_attosecond(time.3),
                },
            },
        }
    }

    /// Brings fields of any size and sign to their ranges: what goes beyond
    /// a field's range is carried into the next greater field. Where the
    /// date falls outside the years that can be held there is none.
    fn normalized(
        year: i32,
        month: i64,
        day: i128,
        hour: i128,
        minute: i128,
        second: i128,
        attosecond: i128,
    ) -> (made: Option<Self>)
        requires
            -0x8_0000_0000_0000_0000 <= day <= 0x8_0000_0000_0000_0000,
            -0x8_0000_0000_0000_0000 <= hour <= 0x8_0000_0000_0000_0000,
            -0x8_0000_0000_0000_0000 <= minute <= 0x8_0000_0000_0000_0000,
            -0x8_0000_0000_0000_0000 <= second <= 0x8_0000_0000_0000_0000,
            -0x8_0000_0000_0000_0000 <= attosecond <= 0x8_0000_0000_0000_0000,
        ensures
            ({
                let g = C::gregorian();
                let total = rolled_total(
                    g,
                    year as int,
                    month as int,
                    day as int,
                    hour as int,
                    minute as int,
                    second as int,
                    attosecond as int,
                );
                if in_calendar(g, total) {
                    &&& made.is_some()
                    &&& made.unwrap()@.is_valid(g)
                    &&& made.unwrap()@.second < 60
                    &&& made.unwrap()@.total(g) == total
                    &&& made.unwrap() == Self::at_total(total)
                } else {
                    made.is_none()
                }
            }),
    {
        // Nothing is tested before a carry: a carry of zero does no harm.
        // attoseconds into seconds
        let (over, attosecond) = carry(attosecond, 1_000_000_000_000_000_000);
        let second = second + over;
        // seconds into minutes
        let (over, second) = carry(second, 60);
        let minute = minute + over;
        // minutes into hours
        let (over, minute) = carry(minute, 60);
        let hour = hour + over;
        // hours into days
        let (over, hour) = carry(hour, 24);
        let day = day + over;
        // Months into years: the day number is counted from a month of the
        // year. The days may still be of any size, and are counted on from
        // the 1st of that month.
        let (over, month0) = carry(month as i128 - 1, 12);
        let year = year as i128 + over;
        let gregorian = C::is_gregorian();
        let number = day_number_wide(gregorian, year as i64, (month0 + 1) as u8, day);
        proof {
            lemma_day_number_limits();
        }
        let (first_day, last_day): (i128, i128) = if gregorian {
            (-784_352_296_671, 784_352_295_938)
        } else {
            (-784_368_402_798, 784_368_402_065)
        };
        if number < first_day || number > last_day {
            return None;
        }
        let (year, month, day) = date_of_day_number(gregorian, number as i64);
        let made = Self::new_unchecked(
            year,
            month,
            day,
            hour as u8,
            minute as u8,
            second as u8,
            attosecond as u64,
        );
        proof {
            use_type_invariant(made);
            made.lemma_at_total();
        }
        Some(made)
    }

    /// The date and time with the given fields, which may lie outside their
    /// ranges and may be negative: what goes beyond a field's range is
    /// carried into the next greater field, attoseconds into seconds and so
    /// on up to the months into years. The result has no second 60, also
    /// where the standard has a leap second there. A date that falls outside
    /// the years that can be held is a `RangeError`.
    pub fn try_new_abnormal(
        year: i32,
        month: i64,
        day: i64,
        hour: i64,
        minute: i64,
        second: i64,
        attosecond: i64,
    ) -> (made: Result<Self, Error>)
        ensures
            ({
                let g = C::gregorian();
                let total = rolled_total(
                    g,
                    year as int,
                    month as int,
                    day as int,
                    hour as int,
                    minute as int,
                    second as int,
                    attosecond as int,
                );
                if in_calendar(g, total) {
                    &&& made.is_ok()
                    &&& made.unwrap()@.is_valid(g)
                    &&& made.unwrap()@.second < 60
                    &&& made.unwrap()@.total(g) == total
                } else {
                    made matches Err(Error::RangeError)
                }
            }),
    {
        match Self::normalized(
            year,
            month,
            day as i128,
            hour as i128,
            minute as i128,
            second as i128,
            attosecond as i128,
        ) {
            None => Err(Error::RangeError),
            Some(made) => Ok(made),
        }
    }

    /// The date and time that lies `rhs` after this one, or none where it
    /// falls outside the years that can be held. The second 60 counts as the
    /// first second of the minute after; the result has none.
    pub fn checked_add(self, rhs: Duration) -> (later: Option<Self>)
        ensures
            ({
                let g = C::gregorian();
                if in_calendar(g, self@.total(g) + rhs@) {
                    &&& later.is_some()
                    &&& later.unwrap()@.is_valid(g)
                    &&& later.unwrap()@.second < 60
                    &&& later.unwrap()@.total(g) == self@.total(g) + rhs@
                    &&& later.unwrap() == Self::at_total(self@.total(g) + rhs@)
                } else {
                    later.is_none()
                }
            }),
    {
        proof {
            use_type_invariant(self);
        }
        Self::normalized(
            self.year,
            self.month as i64,
            self.day as i128,
            self.hour as i128,
            self.minute as i128,
            self.second as i128 + rhs.seconds_part() as i128,
            self.attos as i128 + rhs.attos_part() as i128,
        )
    }

    /// The date and time that lies `rhs` before this one, or none where it
    /// falls outside the years that can be held. The second 60 counts as the
    /// first second of the minute after; the result has none.
    pub fn checked_sub(self, rhs: Duration) -> (earlier: Option<Self>)
        ensures
            ({
                let g = C::gregorian();
                if in_calendar(g, self@.total(g) - rhs@) {
                    &&& earlier.is_some()
                    &&& earlier.unwrap()@.is_valid(g)
                    &&& earlier.unwrap()@.second < 60
                    &&& earlier.unwrap()@.total(g) == self@.total(g) - rhs@
                    &&& earlier.unwrap() == Self::at_total(self@.total(g) - rhs@)
                } else {
                    earlier.is_none()
                }
            }),
    {
        proof {
            use_type_invariant(self);
        }
        Self::normalized(
            self.year,
            self.month as i64,
            self.day as i128,
            self.hour as i128,
            self.minute as i128,
            self.second as i128 - rhs.seconds_part() as i128,
            self.attos as i128 - rhs.attos_part() as i128,
        )
    }

    /// The date and time with the given fields, which may lie outside their
    /// ranges and may be negative: what goes beyond a field's range is
    /// carried into the next greater field, attoseconds into seconds and so
    /// on up to the months into years. The result has no second 60, also
    /// where the standard has a leap second there. The date that comes out
    /// must lie in the years that can be held.
    pub fn new_abnormal(
        year: i32,
        month: i64,
        day: i64,
        hour: i64,
        minute: i64,
        second: i64,
        attosecond: i64,
    ) -> (date_time: Self)
        requires
            in_calendar(
                C::gregorian(),
                rolled_total(
                    C::gregorian(),
                    year as int,
                    month as int,
                    day as int,
                    hour as int,
                    minute as int,
                    second as int,
                    attosecond as int,
                ),
            ),
        ensures
            date_time@.is_valid(C::gregorian()),
            date_time@.second < 60,
            date_time@.total(C::gregorian()) == rolled_total(
                C::gregorian(),
                year as int,
                month as int,
                day as int,
                hour as int,
                minute as int,
                second as int,
                attosecond as int,
            ),
    {
        Self::normalized(
            year,
            month,
            day as i128,
            hour as i128,
            minute as i128,
            second as i128,
            attosecond as i128,
        ).unwrap()
    }

    /// The seconds from the start of the calendar to the date and time,
    /// beside the attoseconds.
    fn total_seconds(&self) -> (seconds: i64)
        ensures
            seconds * attos_per_sec() + self@.attosecond == self@.total(C::gregorian()),
            -69_000_000_000_000_000 <= seconds <= 69_000_000_000_000_000,
    {
        proof {
            use_type_invariant(self);
            lemma_day_number_limits();
        }
        self.day_number() * 86400 + self.hour as i64 * 3600 + self.minute as i64 * 60
            + self.second as i64
    }

    /// How far from the start of the calendar the clock of the standard
    /// stands at `instant`, and whether that is in a leap second. In a leap
    /// second the clock stands still: there the second before is given.
    fn shown_at(instant: Instant) -> (shown: (Duration, bool))
        requires
            -70_000_000_000_000_000 * attos_per_sec() <= instant@ <= 70_000_000_000_000_000
                * attos_per_sec(),
        ensures
            shown.1 == (S::leaping() && in_leap_second(instant@)),
            shown.0@ == shown_total(C::gregorian(), S::offset_to_tt(), S::leaping(), instant@) - (
            if shown.1 {
                attos_per_sec()
            } else {
                0
            }),
            shown.1 ==> shown.0@ % (60 * attos_per_sec()) >= 59 * attos_per_sec(),
    {
        proof {
            lemma_leaps_elapsed(instant@);
            lemma_leaps_elapsed(instant@ + attos_per_sec());
            S::lemma_offset_to_tt();
            lemma_calendar_epochs();
            if S::leaping() && in_leap_second(instant@) {
                lemma_shown_in_leap_second(C::gregorian(), instant@);
            }
        }
        // in a leap second, one second later the leap second counts
        let inside_a_leap = S::has_leap_seconds() && leaps_at(instant + Duration::new(1, 0))
            > leaps_at(instant);
        // what the clock of the standard reads, and how far that is from
        // the start of the calendar
        let shown = S::from_tt(instant) - C::epoch();
        if inside_a_leap {
            (shown - Duration::new(1, 0), true)
        } else {
            (shown, false)
        }
    }

    /// The date and time of a clock that stands `shown` from the start of
    /// the calendar, with the second 60 in place of the second 59 where the
    /// clock is `inside_a_leap` second.
    fn from_shown(shown: Duration, inside_a_leap: bool) -> (date_time: Self)
        requires
            in_calendar(C::gregorian(), shown@),
            inside_a_leap ==> S::leaping(),
            inside_a_leap ==> shown@ % (60 * attos_per_sec()) >= 59 * attos_per_sec(),
        ensures
            date_time@.is_valid(C::gregorian()),
            date_time@.second == 60 <==> inside_a_leap,
            date_time@.total(C::gregorian()) == shown@ + (if inside_a_leap {
                attos_per_sec()
            } else {
                0
            }),
            date_time == if inside_a_leap {
                DateTime { second: 60, ..Self::at_total(shown@) }
            } else {
                Self::at_total(shown@)
            },
    {
        proof {
            assert(day_number_of(C::gregorian(), 1, 1, 1) == 0) by {
                reveal(days_before_year);
            }
        }
        let mut date_time = Self::normalized(
            1,
            1,
            1,
            0,
            0,
            shown.seconds_part() as i128,
            shown.attos_part() as i128,
        ).unwrap();
        proof {
            use_type_invariant(date_time);
            lemma_second_in_total(C::gregorian(), date_time@);
            assert(inside_a_leap ==> date_time@.second == 59);
        }
        if inside_a_leap {
            date_time.second = 60;
        }
        date_time
    }

    /// The date and time that the clock of the standard shows when the
    /// duration `duration` has passed since the start of the calendar. In a
    /// leap second of the standard it shows the second 60. The date must
    /// fall into the years that can be held.
    pub fn from_duration_from_epoch(duration: Duration) -> (date_time: Self)
        requires
            Duration::fits(calendar_epoch(C::gregorian()) + duration@),
            is_shown(
                C::gregorian(),
                S::offset_to_tt(),
                S::leaping(),
                calendar_epoch(C::gregorian()) + duration@,
            ),
        ensures
            date_time@.is_valid(C::gregorian()),
            date_time@.second == 60 <==> S::leaping() && in_leap_second(
                calendar_epoch(C::gregorian()) + duration@,
            ),
            date_time@.total(C::gregorian()) == shown_total(
                C::gregorian(),
                S::offset_to_tt(),
                S::leaping(),
                calendar_epoch(C::gregorian()) + duration@,
            ),
            date_time.instant() == calendar_epoch(C::gregorian()) + duration@,
            date_time == Self::showing(calendar_epoch(C::gregorian()) + duration@),
    {
        let instant = C::epoch() + duration;
        proof {
            lemma_day_number_limits();
            lemma_leaps_elapsed(instant@);
            S::lemma_offset_to_tt();
            lemma_calendar_epochs();
        }
        let (shown, inside_a_leap) = Self::shown_at(instant);
        let date_time = Self::from_shown(shown, inside_a_leap);
        proof {
            lemma_shown_names_instant(
                C::gregorian(),
                S::offset_to_tt(),
                S::leaping(),
                instant@,
                date_time@,
            );
        }
        date_time
    }

    /// The date and time that the clock of the standard shows at `instant`,
    /// with the second 60 in a leap second of the standard. An instant whose
    /// date falls outside the years that can be held is a `RangeError`.
    pub fn from_instant(instant: Instant) -> (shown: Result<Self, Error>)
        ensures
            ({
                let (g, o, l) = (C::gregorian(), S::offset_to_tt(), S::leaping());
                if is_shown(g, o, l, instant@) {
                    &&& shown.is_ok()
                    &&& shown.unwrap()@.is_valid(g)
                    &&& shown.unwrap()@.second == 60 <==> l && in_leap_second(instant@)
                    &&& shown.unwrap()@.total(g) == shown_total(g, o, l, instant@)
                    &&& shown.unwrap().instant() == instant@
                    &&& shown.unwrap() == Self::showing(instant@)
                } else {
                    shown matches Err(Error::RangeError)
                }
            }),
    {
        proof {
            lemma_day_number_limits();
            lemma_leaps_elapsed(instant@);
            S::lemma_offset_to_tt();
            lemma_calendar_epochs();
        }
        // far outside of every calendar
        let reach = Duration::new(69_000_000_000_000_000, 0);
        let origin = Instant::from_offset(Duration::new(0, 0));
        if instant < origin - reach || instant > origin + reach {
            return Err(Error::RangeError);
        }
        let (shown, inside_a_leap) = Self::shown_at(instant);
        let (first_day, last_day): (i64, i64) = if C::is_gregorian() {
            (-784_352_296_671, 784_352_295_938)
        } else {
            (-784_368_402_798, 784_368_402_065)
        };
        if shown < Duration::new(first_day * 86_400, 0) || shown >= Duration::new(
            (last_day + 1) * 86_400,
            0,
        ) {
            return Err(Error::RangeError);
        }
        let date_time = Self::from_shown(shown, inside_a_leap);
        proof {
            lemma_shown_names_instant(
                C::gregorian(),
                S::offset_to_tt(),
                S::leaping(),
                instant@,
                date_time@,
            );
        }
        Ok(date_time)
    }

    /// The instant that the date and time name.
    pub fn to_instant(&self) -> (instant: Instant)
        ensures
            instant@ == self.instant(),
    {
        proof {
            lemma_calendar_epochs();
        }
        C::epoch() + self.duration_from_epoch()
    }

    /// The duration from the start of the calendar to the instant that the
    /// date and time name.
    pub fn duration_from_epoch(&self) -> (duration: Duration)
        ensures
            duration@ == self.instant() - calendar_epoch(C::gregorian()),
            -70_000_000_000_000_000 * attos_per_sec() <= duration@ <= 70_000_000_000_000_000
                * attos_per_sec(),
    {
        proof {
            use_type_invariant(self);
            S::lemma_offset_to_tt();
            lemma_calendar_epochs();
        }
        // the second 60 is the second after the second 59
        let in_second_60 = self.second == 60;
        let seconds = if in_second_60 {
            self.total_seconds() - 1
        } else {
            self.total_seconds()
        };
        let shown = Duration::new(seconds, self.attos as i64);
        proof {
            lemma_leaps_read(calendar_epoch(C::gregorian()) + shown@ + S::offset_to_tt());
        }
        let instant = S::to_tt(C::epoch() + shown);
        let duration = instant - C::epoch();
        if in_second_60 {
            duration + Duration::new(1, 0)
        } else {
            duration
        }
    }

    /// The day number of a date and time lies in the range of the calendar,
    /// or up to two days after it where the day is one that the month does
    /// not have in that year.
    pub proof fn lemma_day_number_bounds(self)
        requires
            self.is_nominal(),
        ensures
            min_day_number(C::gregorian()) <= self@.day_number(C::gregorian()) <= max_day_number(
                C::gregorian(),
            ) + 2,
            self@.is_valid(C::gregorian()) ==> self@.day_number(C::gregorian()) <= max_day_number(
                C::gregorian(),
            ),
    {
        let g = C::gregorian();
        let f = self@;
        let last = days_in_month(g, f.month, f.year);
        let day = if f.day <= last {
            f.day
        } else {
            last
        };
        lemma_day_number_range(g, f.year, f.month, day);
    }
}

impl<C: Calendar, S: Standard> DateTime<C, S> {
    /// The same instant as the clock of another standard shows it. A date
    /// that falls outside the years that can be held is a `RangeError`.
    pub fn to_standard<S2: Standard>(self) -> (shown: Result<DateTime<C, S2>, Error>)
        ensures
            ({
                let (g, o, l) = (C::gregorian(), S2::offset_to_tt(), S2::leaping());
                if is_shown(g, o, l, self.instant()) {
                    &&& shown.is_ok()
                    &&& shown.unwrap()@.is_valid(g)
                    &&& shown.unwrap()@.second == 60 <==> l && in_leap_second(self.instant())
                    &&& shown.unwrap()@.total(g) == shown_total(g, o, l, self.instant())
                    &&& shown.unwrap().instant() == self.instant()
                } else {
                    shown matches Err(Error::RangeError)
                }
            }),
    {
        DateTime::<C, S2>::from_instant(self.to_instant())
    }

    /// The same day and time of day in the other calendar: the day number
    /// there is `shift` days ahead.
    fn to_calendar<C2: Calendar>(self, shift: i64) -> (named: Result<DateTime<C2, S>, Error>)
        requires
            -2 <= shift <= 2,
        ensures
            ({
                let number = self@.day_number(C::gregorian()) + shift;
                if min_day_number(C2::gregorian()) <= number <= max_day_number(C2::gregorian()) {
                    &&& named.is_ok()
                    &&& is_renamed(C::gregorian(), self@, C2::gregorian(), named.unwrap()@, shift as int)
                    &&& named.unwrap() == self.on_date_of(
                        DateTime::<C2, S>::at_total(number * attos_per_day()),
                    )
                } else {
                    named matches Err(Error::RangeError)
                }
            }),
    {
        proof {
            use_type_invariant(self);
            lemma_day_number_limits();
        }
        match DateTime::<C2, S>::from_day_number(self.day_number() + shift) {
            Err(_) => Err(Error::RangeError),
            Ok(mut named) => {
                proof {
                    use_type_invariant(named);
                    named.lemma_at_total();
                }
                named.hour = self.hour;
                named.minute = self.minute;
                named.second = self.second;
                named.attos = self.attos;
                Ok(named)
            },
        }
    }

    /// The time of day since midnight in units of 10 femtoseconds (10^-14
    /// s): the finest that a day can be cut into and still be counted in 64
    /// bits.
    pub fn day_part(&self) -> (part: u64)
        ensures
            part == ((self@.hour * 60 + self@.minute) * 60 + self@.second) * 100_000_000_000_000
                + self@.attosecond / 10_000,
    {
        proof {
            use_type_invariant(self);
        }
        let units: u64 = 100_000_000_000_000;
        self.hour as u64 * 3600 * units + self.minute as u64 * 60 * units + self.second as u64
            * units + self.attos / 10_000
    }

    /// The date with the given day number at the time of day that lies
    /// `part` units of 10 femtoseconds (10^-14 s) after midnight. A day
    /// number outside the years that can be held, or a part of a whole day
    /// or more, is a `RangeError`.
    pub fn from_day_number_and_part(day_number: i64, part: u64) -> (made: Result<Self, Error>)
        ensures
            ({
                let gregorian = C::gregorian();
                if min_day_number(gregorian) <= day_number <= max_day_number(gregorian) && part
                    < 8_640_000_000_000_000_000 {
                    &&& made.is_ok()
                    &&& made.unwrap()@.is_valid(gregorian)
                    &&& made.unwrap()@.second < 60
                    &&& made.unwrap()@.total(gregorian) == day_number * attos_per_day() + part
                        * 10_000
                } else {
                    made matches Err(Error::RangeError)
                }
            }),
    {
        if part >= 8_640_000_000_000_000_000 {
            return Err(Error::RangeError);
        }
        match C::from_day_number(day_number) {
            Err(_) => Err(Error::RangeError),
            Ok((year, month, day)) => {
                let units: u64 = 100_000_000_000_000;
                let mut seconds = part / units;
                let attosecond = part % units * 10_000;
                let mut minutes = seconds / 60;
                seconds = seconds % 60;
                let hours = minutes / 60;
                minutes = minutes % 60;
                Ok(
                    Self::new_unchecked(
                        year,
                        month,
                        day,
                        hours as u8,
                        minutes as u8,
                        seconds as u8,
                        attosecond,
                    ),
                )
            },
        }
    }
}

/// A year as a date and time is written: with four digits at least, where
/// the sign of a year before the year 0 stands for the first of them.
pub open spec fn year_text(year: int) -> Seq<char> {
    if year < 0 {
        "-"@ + decimal((-year) as nat, 3)
    } else {
        decimal(year as nat, 4)
    }
}

/// A date and time as it is written: year, month and day with `-` between
/// them, then hour, minute and second with `:` between them, the
/// attoseconds as 18 decimal places, and the names of the calendar and of
/// the standard, as in
/// `1977-01-01 00:00:32.184000000000000000 Gregorian TT`.
pub open spec fn date_time_text(
    fields: DateTimeFields,
    calendar: Seq<char>,
    standard: Seq<char>,
) -> Seq<char> {
    year_text(fields.year) + "-"@ + decimal(fields.month as nat, 2) + "-"@ + decimal(
        fields.day as nat,
        2,
    ) + " "@ + decimal(fields.hour as nat, 2) + ":"@ + decimal(fields.minute as nat, 2) + ":"@
        + decimal(fields.second as nat, 2) + "."@ + decimal(fields.attosecond as nat, 18) + " "@
        + calendar + " "@ + standard
}

/// Writes a year after `text`.
fn append_year(text: &mut String, year: i32)
    ensures
        final(text)@ == old(text)@ + year_text(year as int),
{
    if year < 0 {
        text.append("-");
        append_decimal(text, (0 - year as i64) as u64, 3);
    } else {
        append_decimal(text, year as u64, 4);
    }
    assert(text@ =~= old(text)@ + year_text(year as int));
}

impl<C: Calendar, S: Standard> DateTime<C, S> {
    /// The date and time as it is written, such as
    /// `1977-01-01 00:00:32.184000000000000000 Gregorian TT`.
    pub fn to_string(&self) -> (text: String)
        ensures
            text@ == date_time_text(self@, calendar_name(C::gregorian()), S::abbrev_text()),
    {
        proof {
            use_type_invariant(self);
        }
        let mut text = String::new();
        append_year(&mut text, self.year);
        assert(text@ =~= year_text(self@.year));
        text.append("-");
        append_decimal(&mut text, self.month as u64, 2);
        text.append("-");
        append_decimal(&mut text, self.day as u64, 2);
        text.append(" ");
        append_decimal(&mut text, self.hour as u64, 2);
        text.append(":");
        append_decimal(&mut text, self.minute as u64, 2);
        text.append(":");
        append_decimal(&mut text, self.second as u64, 2);
        text.append(".");
        append_decimal(&mut text, self.attos, 18);
        text.append(" ");
        text.append(C::name());
        text.append(" ");
        text.append(S::abbrev());
        text
    }
}

/// Whether `named` is the day and time of day `given` in another
/// calendar, whose day numbers are `shift` ahead: a day that its year has,
/// with the same time of day.
pub open spec fn is_renamed(
    from_gregorian: bool,
    given: DateTimeFields,
    to_gregorian: bool,
    named: DateTimeFields,
    shift: int,
) -> bool {
    &&& named.is_valid(to_gregorian)
    &&& named.day_number(to_gregorian) == given.day_number(from_gregorian) + shift
    &&& named.hour == given.hour
    &&& named.minute == given.minute
    &&& named.second == given.second
    &&& named.attosecond == given.attosecond
}

/// A date and time named in the other calendar and from there in the first
/// one again is as it was: the Julian calendar is two days ahead of the
/// Gregorian one in its day numbers, and the Gregorian one two days behind.
pub proof fn lemma_calendar_round_trip(
    gregorian: bool,
    given: DateTimeFields,
    named: DateTimeFields,
    back: DateTimeFields,
    shift: int,
)
    requires
        given.is_valid(gregorian),
        is_renamed(gregorian, given, !gregorian, named, shift),
        is_renamed(!gregorian, named, gregorian, back, -shift),
    ensures
        back == given,
{
    lemma_day_number_round_trip(
        gregorian,
        given.year,
        given.month,
        given.day,
        (back.year, back.month, back.day),
    );
}

/// A date and time named in the other calendar names the same instant.
pub proof fn lemma_calendar_keeps_instant(
    given: DateTimeFields,
    named: DateTimeFields,
    offset: int,
    leaping: bool,
)
    requires
        is_renamed(true, given, false, named, 2),
    ensures
        named.instant(false, offset, leaping) == given.instant(true, offset, leaping),
{
}

impl<C: Calendar, S: Standard> TryFrom<Instant> for DateTime<C, S> {
    type Error = Error;

    fn try_from(instant: Instant) -> (shown: Result<Self, Error>)
        ensures
            ({
                let (g, o, l) = (C::gregorian(), S::offset_to_tt(), S::leaping());
                if is_shown(g, o, l, instant@) {
                    &&& shown.is_ok()
                    &&& shown.unwrap()@.is_valid(g)
                    &&& shown.unwrap()@.second == 60 <==> l && in_leap_second(instant@)
                    &&& shown.unwrap()@.total(g) == shown_total(g, o, l, instant@)
                    &&& shown.unwrap().instant() == instant@
                } else {
                    shown matches Err(Error::RangeError)
                }
            }),
    {
        Self::from_instant(instant)
    }
}

impl<C: Calendar, S: Standard> TryFromSpecImpl<Instant> for DateTime<C, S> {
    open spec fn obeys_try_from_spec() -> bool {
        true
    }

    open spec fn try_from_spec(instant: Instant) -> Result<Self, Error> {
        if is_shown(C::gregorian(), S::offset_to_tt(), S::leaping(), instant@) {
            Ok(Self::showing(instant@))
        } else {
            Err(Error::RangeError)
        }
    }
}

impl<C: Calendar, S: Standard> From<DateTime<C, S>> for Instant {
    fn from(date_time: DateTime<C, S>) -> (instant: Instant)
        ensures
            instant@ == date_time.instant(),
    {
        let instant = date_time.to_instant();
        proof {
            use_type_invariant(instant);
            instant.lemma_of_view();
        }
        instant
    }
}

impl<C: Calendar, S: Standard> FromSpecImpl<DateTime<C, S>> for Instant {
    open spec fn obeys_from_spec() -> bool {
        true
    }

    open spec fn from_spec(date_time: DateTime<C, S>) -> Instant {
        Instant::of(date_time.instant())
    }
}

impl<S: Standard> TryFrom<DateTime<Gregorian, S>> for DateTime<Julian, S> {
    type Error = Error;

    fn try_from(input: DateTime<Gregorian, S>) -> (named: Result<Self, Error>)
        ensures
            ({
                let number = input@.day_number(true) + 2;
                if min_day_number(false) <= number <= max_day_number(false) {
                    named.is_ok() && is_renamed(true, input@, false, named.unwrap()@, 2)
                } else {
                    named matches Err(Error::RangeError)
                }
            }),
    {
        input.to_calendar::<Julian>(2)
    }
}

impl<S: Standard> TryFromSpecImpl<DateTime<Gregorian, S>> for DateTime<Julian, S> {
    open spec fn obeys_try_from_spec() -> bool {
        true
    }

    open spec fn try_from_spec(input: DateTime<Gregorian, S>) -> Result<Self, Error> {
        let number = input@.day_number(true) + 2;
        if min_day_number(false) <= number <= max_day_number(false) {
            Ok(input.on_date_of(Self::at_total(number * attos_per_day())))
        } else {
            Err(Error::RangeError)
        }
    }
}

impl<S: Standard> TryFrom<DateTime<Julian, S>> for DateTime<Gregorian, S> {
    type Error = Error;

    fn try_from(input: DateTime<Julian, S>) -> (named: Result<Self, Error>)
        ensures
            ({
                let number = input@.day_number(false) - 2;
                if min_day_number(true) <= number <= max_day_number(true) {
                    named.is_ok() && is_renamed(false, input@, true, named.unwrap()@, -2)
                } else {
                    named matches Err(Error::RangeError)
                }
            }),
    {
        input.to_calendar::<Gregorian>(-2)
    }
}

impl<S: Standard> TryFromSpecImpl<DateTime<Julian, S>> for DateTime<Gregorian, S> {
    open spec fn obeys_try_from_spec() -> bool {
        true
    }

    open spec fn try_from_spec(input: DateTime<Julian, S>) -> Result<Self, Error> {
        let number = input@.day_number(false) - 2;
        if min_day_number(true) <= number <= max_day_number(true) {
            Ok(input.on_date_of(Self::at_total(number * attos_per_day())))
        } else {
            Err(Error::RangeError)
        }
    }
}

impl<C: Calendar, S: Standard> Add<Duration> for DateTime<C, S> {
    type Output = Self;

    fn add(self, rhs: Duration) -> (later: Self)
        ensures
            later@.is_valid(C::gregorian()),
            later@.second < 60,
            later@.total(C::gregorian()) == self@.total(C::gregorian()) + rhs@,
    {
        proof {
            use_type_invariant(self);
        }
        self.checked_add(rhs).unwrap()
    }
}

impl<C: Calendar, S: Standard> AddSpecImpl<Duration> for DateTime<C, S> {
    open spec fn obeys_add_spec() -> bool {
        true
    }

    open spec fn add_req(self, rhs: Duration) -> bool {
        in_calendar(C::gregorian(), self@.total(C::gregorian()) + rhs@)
    }

    open spec fn add_spec(self, rhs: Duration) -> Self {
        Self::at_total(self@.total(C::gregorian()) + rhs@)
    }
}

impl<C: Calendar, S: Standard> Sub<Duration> for DateTime<C, S> {
    type Output = Self;

    fn sub(self, rhs: Duration) -> (earlier: Self)
        ensures
            earlier@.is_valid(C::gregorian()),
            earlier@.second < 60,
            earlier@.total(C::gregorian()) == self@.total(C::gregorian()) - rhs@,
    {
        proof {
            use_type_invariant(self);
        }
        self.checked_sub(rhs).unwrap()
    }
}

impl<C: Calendar, S: Standard> SubSpecImpl<Duration> for DateTime<C, S> {
    open spec fn obeys_sub_spec() -> bool {
        true
    }

    open spec fn sub_req(self, rhs: Duration) -> bool {
        in_calendar(C::gregorian(), self@.total(C::gregorian()) - rhs@)
    }

    open spec fn sub_spec(self, rhs: Duration) -> Self {
        Self::at_total(self@.total(C::gregorian()) - rhs@)
    }
}

impl<C: Calendar, S: Standard> Sub<DateTime<C, S>> for DateTime<C, S> {
    type Output = Duration;

    fn sub(self, other: Self) -> (between: Duration)
        ensures
            between@ == self@.total(C::gregorian()) - other@.total(C::gregorian()),
    {
        proof {
            use_type_invariant(self);
            use_type_invariant(other);
        }
        let secs = self.total_seconds() - other.total_seconds();
        let attos = self.attos as i64 - other.attos as i64;
        let between = Duration::new(secs, attos);
        proof {
            use_type_invariant(between);
            between.lemma_of_view();
        }
        between
    }
}

impl<C: Calendar, S: Standard> SubSpecImpl<DateTime<C, S>> for DateTime<C, S> {
    open spec fn obeys_sub_spec() -> bool {
        true
    }

    open spec fn sub_req(self, other: Self) -> bool {
        true
    }

    open spec fn sub_spec(self, other: Self) -> Duration {
        Duration::of(self@.total(C::gregorian()) - other@.total(C::gregorian()))
    }
}

} // verus!
