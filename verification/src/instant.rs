use crate::calendar::{day_number_of, floor_div};
use crate::duration::{attos_of, attos_per_sec, seconds_of, Duration};
use crate::epoch::{lemma_epoch_instants, Epoch};
use crate::error::Error;
use crate::leaps::{
    leaps_elapsed, leaps_read, lemma_leap_instants_increase, lemma_leaps_elapsed, lemma_leaps_read,
};
use crate::standard::{leaps_at, lemma_leap_bounds, with_leap_seconds};
use std::cmp::Ordering;
use std::ops::{Add, Sub};
use vstd::prelude::*;
use vstd::std_specs::cmp::PartialOrdSpecImpl;
use vstd::std_specs::ops::{AddSpecImpl, SubSpecImpl};

verus! {

/// The instant at which Terrestrial Time reads `seconds` seconds and `attos`
/// attoseconds after the start of the day with number `day_number` in the
/// Gregorian or the Julian calendar, in attoseconds from the instant that all
/// instants are counted from: the 1st of January 1977 (Gregorian),
/// 00:00:32.184 TT. Day numbers of the Julian calendar are two ahead of
/// those of the Gregorian calendar.
pub open spec fn tt_instant(gregorian: bool, day_number: int, seconds: int, attos: int) -> int {
    let gregorian_day = if gregorian {
        day_number
    } else {
        day_number - 2
    };
    let days = gregorian_day - day_number_of(true, 1977, 1, 1);
    (days * 86_400 + seconds - 32) * attos_per_sec() + attos
        - 184_000_000_000_000_000
}

/// A moment in time, the same whatever calendar or time standard names it.
///
/// It is kept as the `Duration` from the 1st of January 1977, 00:00:32.184
/// TT, to the moment; its view is that duration in attoseconds.
#[derive(Debug, Clone, Copy, PartialEq, Eq, Structural, Ord, Hash)]
pub struct Instant(Duration);

impl View for Instant {
    type V = int;

    closed spec fn view(&self) -> int {
        self.0@
    }
}

impl Instant {
    /// The instant `total` attoseconds from the instant all are counted from.
    pub closed spec fn of(total: int) -> Instant {
        Instant(Duration::of(total))
    }

    /// The duration inside is normalized.
    #[verifier::type_invariant]
    pub closed spec fn is_normalized(&self) -> bool {
        self.0.is_normalized()
    }

    /// A normalized instant is the one that `of` gives for its view: two of
    /// them with the same view are equal.
    pub proof fn lemma_of_view(self)
        requires
            self.is_normalized(),
        ensures
            self == Instant::of(self@),
            Duration::fits(self@),
    {
        self.0.lemma_of_view();
    }

    /// `of` gives a normalized instant with the view asked for.
    pub proof fn lemma_view_of(total: int)
        requires
            Duration::fits(total),
        ensures
            Instant::of(total)@ == total,
            Instant::of(total).is_normalized(),
    {
        Duration::lemma_view_of(total);
    }

    /// The instant that lies `rhs` after this one, or none where it cannot
    /// be held.
    pub fn checked_add(self, rhs: Duration) -> (sum: Option<Instant>)
        ensures
            Duration::fits(self@ + rhs@) ==> sum.is_some() && sum.unwrap()@ == self@ + rhs@,
            !Duration::fits(self@ + rhs@) ==> sum.is_none(),
    {
        match self.0.checked_add(rhs) {
            None => None,
            Some(offset) => {
                proof {
                    use_type_invariant(offset);
                }
                Some(Instant(offset))
            },
        }
    }

    /// The instant that lies `rhs` before this one, or none where it cannot
    /// be held.
    pub fn checked_sub(self, rhs: Duration) -> (difference: Option<Instant>)
        ensures
            Duration::fits(self@ - rhs@) ==> difference.is_some() && difference.unwrap()@ == self@
                - rhs@,
            !Duration::fits(self@ - rhs@) ==> difference.is_none(),
    {
        match self.0.checked_sub(rhs) {
            None => None,
            Some(offset) => {
                proof {
                    use_type_invariant(offset);
                }
                Some(Instant(offset))
            },
        }
    }

    /// The duration from `earlier` to this instant, or none where it cannot
    /// be held.
    pub fn checked_since(self, earlier: Instant) -> (between: Option<Duration>)
        ensures
            Duration::fits(self@ - earlier@) ==> between.is_some() && between.unwrap()@ == self@
                - earlier@,
            !Duration::fits(self@ - earlier@) ==> between.is_none(),
    {
        self.0.checked_sub(earlier.0)
    }

    /// The instant that lies `offset` after the instant all are counted from.
    pub fn from_offset(offset: Duration) -> (instant: Instant)
        ensures
            instant@ == offset@,
            instant.is_normalized(),
    {
        proof {
            use_type_invariant(offset);
        }
        Instant(offset)
    }

    /// The duration from the instant all are counted from to this one.
    pub fn offset(&self) -> (offset: Duration)
        ensures
            offset@ == self@,
            self.is_normalized(),
    {
        proof {
            use_type_invariant(self.0);
        }
        self.0
    }
}

impl Instant {
    /// The instant that lies `seconds` seconds and `attoseconds` attoseconds
    /// after the start of the Julian Day `day`, in Terrestrial Time: Julian
    /// Day 0 starts at the start of the Julian Period, and a Julian Day starts
    /// at noon. Seconds of a whole day or more, attoseconds that are negative
    /// or make up a second, seconds since Julian Day 0 that 64 bits cannot
    /// hold and an instant that cannot be held are a `RangeError`.
    pub fn from_julian_day_precise(day: i64, seconds: u32, attoseconds: i64) -> (made: Result<
        Instant,
        Error,
    >)
        ensures
            ({
                let secs = day * 86_400 + seconds;
                let instant = Epoch::JulianPeriod.instant() + secs * attos_per_sec() + attoseconds;
                if seconds < 86_400 && 0 <= attoseconds < attos_per_sec() && i64::MIN <= secs
                    <= i64::MAX && Duration::fits(instant) {
                    made.is_ok() && made.unwrap()@ == instant
                } else {
                    made matches Err(Error::RangeError)
                }
            }),
    {
        proof {
            lemma_epoch_instants();
        }
        if seconds >= 86400 {
            return Err(Error::RangeError);
        }
        if attoseconds < 0 || attoseconds >= 1_000_000_000_000_000_000 {
            return Err(Error::RangeError);
        }
        let secs = match day.checked_mul(86400) {
            None => {
                return Err(Error::RangeError);
            },
            Some(day_secs) => match day_secs.checked_add(seconds as i64) {
                None => {
                    return Err(Error::RangeError);
                },
                Some(secs) => secs,
            },
        };
        match Epoch::JulianPeriod.as_instant().checked_add(Duration::new(secs, attoseconds)) {
            None => Err(Error::RangeError),
            Some(made) => Ok(made),
        }
    }

    /// The instant as a Julian Day: the number of the Julian Day that the
    /// instant lies in, and the seconds and the attoseconds from the start of
    /// that day to the instant. Before the start of the Julian Period the
    /// number of the day is negative; the seconds and the attoseconds never
    /// are. These are the parts that `from_julian_day_precise` makes the
    /// instant from.
    pub fn as_julian_day_precise(&self) -> (parts: (i64, i64, i64))
        requires
            Duration::fits(self@ - Epoch::JulianPeriod.instant()),
        ensures
            (parts.0 * 86_400 + parts.1) * attos_per_sec() + parts.2 == self@
                - Epoch::JulianPeriod.instant(),
            0 <= parts.1 < 86_400,
            0 <= parts.2 < attos_per_sec(),
            parts.0 == (self@ - Epoch::JulianPeriod.instant()) / (86_400 * attos_per_sec()),
            parts.1 == (self@ - Epoch::JulianPeriod.instant()) / attos_per_sec() % 86_400,
            parts.2 == (self@ - Epoch::JulianPeriod.instant()) % attos_per_sec(),
    {
        let since = *self - Epoch::JulianPeriod.as_instant();
        let mut secs: i128 = since.seconds_part() as i128;
        let mut attos: i64 = since.attos_part();
        proof {
            crate::duration::lemma_parts_agree(since@);
        }
        // before the start of the Julian Period the parts of the duration
        // count backwards: take the attoseconds from the second before
        if attos < 0 {
            attos = attos + 1_000_000_000_000_000_000;
            secs = secs - 1;
        }
        // and the seconds from the start of the day, also where the day is
        // negative
        let day: i128 = floor_div(secs, 86400);
        let in_day: i128 = secs - day * 86400;
        proof {
            lemma_julian_day_parts(since@, day as int, in_day as int, attos as int);
        }
        (day as i64, in_day as i64, attos)
    }

    /// The instant at which a clock shows the duration `since_unix_epoch`
    /// since the UNIX epoch, where the clock counts no leap seconds: it reads
    /// the second after each leap instant twice. Of the two instants at
    /// which it shows a time in such a second, the earlier one is given, in
    /// the leap second itself. So as many seconds are added as the clock has
    /// read a second after a leap instant to its end. The instant must be one
    /// that can be held.
    pub fn from_unix_clock(since_unix_epoch: Duration) -> (instant: Instant)
        requires
            Duration::fits(Epoch::Unix.instant() + since_unix_epoch@),
            Duration::fits(
                Epoch::Unix.instant() + since_unix_epoch@ + leaps_read(
                    Epoch::Unix.instant() + since_unix_epoch@ - attos_per_sec(),
                ) * attos_per_sec(),
            ),
        ensures
            instant@ == Epoch::Unix.instant() + since_unix_epoch@ + leaps_read(
                Epoch::Unix.instant() + since_unix_epoch@ - attos_per_sec(),
            ) * attos_per_sec(),
    {
        let time_less_leaps = Epoch::Unix.as_instant() + since_unix_epoch;
        proof {
            lemma_leaps_counted_after_clock(time_less_leaps@);
            lemma_leaps_read(time_less_leaps@ - attos_per_sec());
            lemma_leaps_elapsed(time_less_leaps@);
        }
        // add the leap seconds that the clock has left out, in two passes
        let leap_seconds_elapsed_try1 = leaps_at(time_less_leaps);
        let time_maybe_missing_one_leap = time_less_leaps + Duration::new(
            leap_seconds_elapsed_try1,
            0,
        );
        // that may have reached one leap instant more
        let leap_seconds_elapsed_try2 = leaps_at(time_maybe_missing_one_leap);
        if leap_seconds_elapsed_try2 > leap_seconds_elapsed_try1 {
            time_maybe_missing_one_leap + Duration::new(1, 0)
        } else {
            time_maybe_missing_one_leap
        }
    }

    /// The instant at which a clock without leap seconds, started at the
    /// 1st of January 1900, 00:00:00 UTC, reads `secs` seconds and `attos`
    /// attoseconds: an NTP date. Such a clock reads the second that starts
    /// at a leap instant twice, first during the leap second; the instant
    /// given is the later one. So as many seconds are added as leap seconds
    /// lie behind the clock. The instant must be one that can be held.
    pub fn from_ntp_date(secs: i64, attos: i64) -> (instant: Instant)
        requires
            Duration::fits(secs * attos_per_sec() + attos),
            Duration::fits(
                Epoch::Ntp.instant() + secs * attos_per_sec() + attos + leaps_read(
                    Epoch::Ntp.instant() + secs * attos_per_sec() + attos,
                ) * attos_per_sec(),
            ),
        ensures
            instant@ == Epoch::Ntp.instant() + secs * attos_per_sec() + attos + leaps_read(
                Epoch::Ntp.instant() + secs * attos_per_sec() + attos,
            ) * attos_per_sec(),
    {
        proof {
            lemma_epoch_instants();
            lemma_leaps_read(Epoch::Ntp.instant() + secs * attos_per_sec() + attos);
            lemma_leap_bounds();
        }
        with_leap_seconds(Epoch::Ntp.as_instant() + Duration::new(secs, attos))
    }

    /// The NTP date of the instant: the seconds and attoseconds that a clock
    /// without leap seconds, started at the 1st of January 1900, 00:00:00
    /// UTC, reads at it. The leap seconds that have passed at the instant
    /// are left out. Before 1900 both parts are negative or zero.
    pub fn as_ntp_date(&self) -> (date: (i64, i64))
        requires
            Duration::fits(
                self@ - Epoch::Ntp.instant() - leaps_elapsed(self@) * attos_per_sec(),
            ),
        ensures
            date.0 * attos_per_sec() + date.1 == self@ - Epoch::Ntp.instant() - leaps_elapsed(
                self@,
            ) * attos_per_sec(),
            date.0 == seconds_of(date.0 * attos_per_sec() + date.1),
            date.1 == attos_of(date.0 * attos_per_sec() + date.1),
    {
        proof {
            lemma_epoch_instants();
            use_type_invariant(self);
            self.lemma_of_view();
            lemma_leaps_elapsed(self@);
            lemma_leap_bounds();
        }
        let since = (*self - Duration::new(leaps_at(*self), 0)) - Epoch::Ntp.as_instant();
        (since.seconds_part(), since.attos_part())
    }
}

impl Add<Duration> for Instant {
    type Output = Instant;

    fn add(self, rhs: Duration) -> (sum: Instant)
        ensures
            sum@ == self@ + rhs@,
    {
        let offset = self.0 + rhs;
        proof {
            use_type_invariant(offset);
        }
        Instant(offset)
    }
}

impl AddSpecImpl<Duration> for Instant {
    open spec fn obeys_add_spec() -> bool {
        true
    }

    open spec fn add_req(self, rhs: Duration) -> bool {
        Duration::fits(self@ + rhs@)
    }

    open spec fn add_spec(self, rhs: Duration) -> Instant {
        Instant::of(self@ + rhs@)
    }
}

impl Sub<Duration> for Instant {
    type Output = Instant;

    fn sub(self, rhs: Duration) -> (difference: Instant)
        ensures
            difference@ == self@ - rhs@,
    {
        let offset = self.0 - rhs;
        proof {
            use_type_invariant(offset);
        }
        Instant(offset)
    }
}

impl SubSpecImpl<Duration> for Instant {
    open spec fn obeys_sub_spec() -> bool {
        true
    }

    open spec fn sub_req(self, rhs: Duration) -> bool {
        Duration::fits(self@ - rhs@)
    }

    open spec fn sub_spec(self, rhs: Duration) -> Instant {
        Instant::of(self@ - rhs@)
    }
}

impl Sub<Instant> for Instant {
    type Output = Duration;

    fn sub(self, rhs: Instant) -> (between: Duration)
        ensures
            between@ == self@ - rhs@,
    {
        self.0 - rhs.0
    }
}

impl SubSpecImpl<Instant> for Instant {
    open spec fn obeys_sub_spec() -> bool {
        true
    }

    open spec fn sub_req(self, rhs: Instant) -> bool {
        Duration::fits(self@ - rhs@)
    }

    open spec fn sub_spec(self, rhs: Instant) -> Duration {
        Duration::of(self@ - rhs@)
    }
}

impl PartialOrd for Instant {
    fn partial_cmp(&self, other: &Instant) -> (order: Option<Ordering>) {
        self.0.partial_cmp(&other.0)
    }
}

impl PartialOrdSpecImpl for Instant {
    open spec fn obeys_partial_cmp_spec() -> bool {
        true
    }

    open spec fn partial_cmp_spec(&self, other: &Instant) -> Option<Ordering> {
        if self@ < other@ {
            Some(Ordering::Less)
        } else if self@ > other@ {
            Some(Ordering::Greater)
        } else {
            Some(Ordering::Equal)
        }
    }
}

/// The leap seconds to add to what a clock without leap seconds shows are
/// found in two passes: count those that have passed at the instant `ahead`
/// that it shows, add them, and add one more where another one has passed
/// by then. These are the leap seconds whose following second the clock has
/// read to its end.
pub proof fn lemma_leaps_counted_after_clock(ahead: int)
    ensures
        ({
            let first = leaps_elapsed(ahead);
            let second = leaps_elapsed(ahead + first * attos_per_sec());
            let counted = if second > first {
                first + 1
            } else {
                first
            };
            counted == leaps_read(ahead - attos_per_sec())
        }),
{
    let a = attos_per_sec();
    let first = leaps_elapsed(ahead);
    let read = leaps_read(ahead - a);
    lemma_leaps_elapsed(ahead);
    lemma_leaps_read(ahead - a);
    if first > read {
        lemma_leap_instants_increase(read, first - 1);
    }
    if first < read - 1 {
        lemma_leap_instants_increase(first, read - 1);
    }
    let second = leaps_elapsed(ahead + first * a);
    lemma_leaps_elapsed(ahead + first * a);
    if second > read {
        lemma_leap_instants_increase(read, second - 1);
    }
    if second < read {
        lemma_leap_instants_increase(second, read - 1);
    }
}

/// Days, seconds and attoseconds that make up a duration, the seconds
/// within a day and the attoseconds within a second, are its whole days, the
/// whole seconds beside them and the attoseconds beside those, all rounded
/// down.
proof fn lemma_julian_day_parts(since: int, day: int, seconds: int, attoseconds: int)
    requires
        0 <= seconds < 86_400,
        0 <= attoseconds < attos_per_sec(),
        (day * 86_400 + seconds) * attos_per_sec() + attoseconds == since,
    ensures
        day == since / (86_400 * attos_per_sec()),
        seconds == since / attos_per_sec() % 86_400,
        attoseconds == since % attos_per_sec(),
{
    let whole = day * 86_400 + seconds;
    assert(since == attos_per_sec() * whole + attoseconds);
    vstd::arithmetic::div_mod::lemma_fundamental_div_mod_converse(
        since,
        attos_per_sec(),
        whole,
        attoseconds,
    );
    let in_day = seconds * attos_per_sec() + attoseconds;
    assert(since == (86_400 * attos_per_sec()) * day + in_day);
    vstd::arithmetic::div_mod::lemma_fundamental_div_mod_converse(
        since,
        86_400 * attos_per_sec(),
        day,
        in_day,
    );
}

/// A Julian Day with its seconds and attoseconds is known by the instant:
/// parts in their ranges that lie as far from the start of the Julian Period
/// as the day `day` with `seconds` seconds and `attoseconds` attoseconds are
/// these. So the parts that `as_julian_day_precise` gives for the instant
/// that `from_julian_day_precise` makes are those it was made from, before
/// Julian Day 0 as after it.
pub proof fn lemma_julian_day_round_trip(
    day: int,
    seconds: int,
    attoseconds: int,
    parts: (int, int, int),
)
    requires
        0 <= seconds < 86_400,
        0 <= attoseconds < attos_per_sec(),
        0 <= parts.1 < 86_400,
        0 <= parts.2 < attos_per_sec(),
        (parts.0 * 86_400 + parts.1) * attos_per_sec() + parts.2 == (day * 86_400 + seconds)
            * attos_per_sec() + attoseconds,
    ensures
        parts == (day, seconds, attoseconds),
{
    let given = day * 86_400 + seconds;
    let found = parts.0 * 86_400 + parts.1;
    assert(found == given);
    assert(parts.0 == day);
}

} // verus!
