use crate::calendar::{day_number_of, days_before_year};
use crate::duration::{attos_per_sec, Duration};
use crate::epoch::{lemma_epoch_instants, Epoch};
use crate::instant::{tt_instant, Instant};
use vstd::prelude::*;

verus! {

//  Around a leap second the clocks read as follows:
//
//    UTC seconds     59.0      59.5      60.0      60.5      0.0       0.5
//                    |         |         |         |         |         |
//    without leaps   599.0     599.5     600.0     600.5     600.0     600.5
//
//                                        |<----------------->|
//                                           the leap second  ^
//                                                            the leap instant
//
//  A clock that leaves the leap seconds out reads one second twice: during
//  the leap second it stands at what it reads after it, while UTC names the
//  leap second :60. The list below holds, for every leap second, what such a
//  clock reads at the leap instant, which is the instant right after it.
/// The leap seconds that UTC has had, from the list that IANA publishes: for
/// each one the seconds that a clock without leap seconds, started at the
/// 1st of January 1900, 00:00:00 UTC, reads right after it.
pub const IANA_NTP_LEAP_SECONDS: [i64; 28] = [
    2272060800,  // 1 Jan 1972
    2287785600,  // 1 Jul 1972
    2303683200,  // 1 Jan 1973
    2335219200,  // 1 Jan 1974
    2366755200,  // 1 Jan 1975
    2398291200,  // 1 Jan 1976
    2429913600,  // 1 Jan 1977
    2461449600,  // 1 Jan 1978
    2492985600,  // 1 Jan 1979
    2524521600,  // 1 Jan 1980
    2571782400,  // 1 Jul 1981
    2603318400,  // 1 Jul 1982
    2634854400,  // 1 Jul 1983
    2698012800,  // 1 Jul 1985
    2776982400,  // 1 Jan 1988
    2840140800,  // 1 Jan 1990
    2871676800,  // 1 Jan 1991
    2918937600,  // 1 Jul 1992
    2950473600,  // 1 Jul 1993
    2982009600,  // 1 Jul 1994
    3029443200,  // 1 Jan 1996
    3076704000,  // 1 Jul 1997
    3124137600,  // 1 Jan 1999
    3345062400,  // 1 Jan 2006
    3439756800,  // 1 Jan 2009
    3550089600,  // 1 Jul 2012
    3644697600,  // 1 Jul 2015
    3692217600,  // 1 Jan 2017
];

/// How many leap seconds are listed.
pub open spec fn leap_count() -> int {
    28
}

/// The instant from which the list counts: the 1st of January 1900,
/// 00:00:00 UTC, when Terrestrial Time read 41.184 s more.
pub open spec fn ntp_epoch() -> int {
    tt_instant(true, day_number_of(true, 1900, 1, 1), 41, 184_000_000_000_000_000)
}

/// What a clock without leap seconds reads at the leap instant of index
/// `index` (from 0), in attoseconds from the instant all are counted from.
/// The clock shows the NTP seconds of the list and started at the NTP epoch.
pub open spec fn leap_reading(index: int) -> int {
    ntp_epoch() + IANA_NTP_LEAP_SECONDS[index] * attos_per_sec()
}

/// The leap instant of index `index` (from 0): the instant right after that
/// leap second, in attoseconds. It lies later than the clock without leap
/// seconds reads, by that leap second and all before it.
pub open spec fn leap_instant(index: int) -> int {
    leap_reading(index) + (index + 1) * attos_per_sec()
}

/// How many of the first `among` leap instants lie at or before `instant`.
pub open spec fn leaps_elapsed_among(instant: int, among: int) -> int
    decreases among,
{
    if among <= 0 {
        0
    } else {
        leaps_elapsed_among(instant, among - 1) + if leap_instant(among - 1) <= instant {
            1int
        } else {
            0int
        }
    }
}

/// How many leap seconds have passed at `instant`: a leap second counts from
/// the instant right after it.
pub open spec fn leaps_elapsed(instant: int) -> int {
    leaps_elapsed_among(instant, leap_count())
}

/// For how many of the first `among` leap instants a clock without leap
/// seconds that reads `reading` has reached what it reads at them.
pub open spec fn leaps_read_among(reading: int, among: int) -> int
    decreases among,
{
    if among <= 0 {
        0
    } else {
        leaps_read_among(reading, among - 1) + if leap_reading(among - 1) <= reading {
            1int
        } else {
            0int
        }
    }
}

/// How many leap seconds lie behind a clock without leap seconds when it
/// reads `reading` for the last time. What it reads in the second that
/// starts at a leap instant it has read before, during the leap second; the
/// later time counts.
pub open spec fn leaps_read(reading: int) -> int {
    leaps_read_among(reading, leap_count())
}

/// The instant from which the list counts, in seconds.
pub proof fn lemma_ntp_epoch()
    ensures
        ntp_epoch() == -2_429_913_591 * attos_per_sec(),
{
    reveal(days_before_year);
}

/// Leap seconds are at least half a year apart, and at the end of a day.
pub proof fn lemma_leap_readings_apart(index: int)
    requires
        0 <= index < leap_count(),
    ensures
        index + 1 < leap_count() ==> leap_reading(index) + 15_000_000 * attos_per_sec()
            <= leap_reading(index + 1),
        IANA_NTP_LEAP_SECONDS[index] % 86_400 == 0,
        2_000_000_000 <= IANA_NTP_LEAP_SECONDS[index] <= 4_000_000_000,
        -500_000_000 * attos_per_sec() <= leap_reading(index) <= 2_000_000_000
            * attos_per_sec(),
{
    lemma_ntp_epoch();
}

/// Later leap instants lie later.
pub proof fn lemma_leap_instants_increase(earlier: int, later: int)
    requires
        0 <= earlier <= later < leap_count(),
    ensures
        leap_reading(earlier) + (later - earlier) * 15_000_000 * attos_per_sec() <= leap_reading(
            later,
        ),
        leap_instant(earlier) + (later - earlier) * 15_000_000 * attos_per_sec() <= leap_instant(
            later,
        ),
    decreases later - earlier,
{
    if earlier < later {
        lemma_leap_instants_increase(earlier, later - 1);
        lemma_leap_readings_apart(later - 1);
        assert((later - earlier) * 15_000_000 * attos_per_sec() == (later - 1 - earlier)
            * 15_000_000 * attos_per_sec() + 15_000_000 * attos_per_sec()) by (nonlinear_arith);
    }
}

/// Where the first `count` leap instants lie at or before `instant` and the
/// rest of the first `among` after it, `count` of them have passed.
proof fn lemma_leaps_elapsed_among(instant: int, count: int, among: int)
    requires
        0 <= count <= among <= leap_count(),
        count > 0 ==> leap_instant(count - 1) <= instant,
        count < leap_count() ==> instant < leap_instant(count),
    ensures
        leaps_elapsed_among(instant, among) == count,
        leaps_elapsed_among(instant, count) == count,
    decreases among,
{
    if among > count {
        lemma_leaps_elapsed_among(instant, count, among - 1);
        lemma_leap_instants_increase(count, among - 1);
    } else if among > 0 {
        lemma_leaps_elapsed_prefix(instant, count);
    }
}

/// The first `count` leap instants have all passed once the last of them has.
proof fn lemma_leaps_elapsed_prefix(instant: int, count: int)
    requires
        0 <= count <= leap_count(),
        count > 0 ==> leap_instant(count - 1) <= instant,
    ensures
        leaps_elapsed_among(instant, count) == count,
    decreases count,
{
    if count > 0 {
        if count > 1 {
            lemma_leap_instants_increase(count - 2, count - 1);
        }
        lemma_leaps_elapsed_prefix(instant, count - 1);
    }
}

/// The same for a clock without leap seconds and what it reads.
proof fn lemma_leaps_read_among(reading: int, count: int, among: int)
    requires
        0 <= count <= among <= leap_count(),
        count > 0 ==> leap_reading(count - 1) <= reading,
        count < leap_count() ==> reading < leap_reading(count),
    ensures
        leaps_read_among(reading, among) == count,
        leaps_read_among(reading, count) == count,
    decreases among,
{
    if among > count {
        lemma_leaps_read_among(reading, count, among - 1);
        lemma_leap_instants_increase(count, among - 1);
    } else if among > 0 {
        lemma_leaps_read_prefix(reading, count);
    }
}

proof fn lemma_leaps_read_prefix(reading: int, count: int)
    requires
        0 <= count <= leap_count(),
        count > 0 ==> leap_reading(count - 1) <= reading,
    ensures
        leaps_read_among(reading, count) == count,
    decreases count,
{
    if count > 0 {
        if count > 1 {
            lemma_leap_instants_increase(count - 2, count - 1);
        }
        lemma_leaps_read_prefix(reading, count - 1);
    }
}

/// The count of the leap seconds that have passed says between which leap
/// instants an instant lies.
pub proof fn lemma_leaps_elapsed(instant: int)
    ensures
        0 <= leaps_elapsed(instant) <= leap_count(),
        leaps_elapsed(instant) > 0 ==> leap_instant(leaps_elapsed(instant) - 1) <= instant,
        leaps_elapsed(instant) < leap_count() ==> instant < leap_instant(leaps_elapsed(instant)),
{
    lemma_leaps_elapsed_bounds(instant, leap_count());
}

proof fn lemma_leaps_elapsed_bounds(instant: int, among: int)
    requires
        0 <= among <= leap_count(),
    ensures
        0 <= leaps_elapsed_among(instant, among) <= among,
        leaps_elapsed_among(instant, among) > 0 ==> leap_instant(
            leaps_elapsed_among(instant, among) - 1,
        ) <= instant,
        leaps_elapsed_among(instant, among) < among ==> instant < leap_instant(
            leaps_elapsed_among(instant, among),
        ),
    decreases among,
{
    if among > 0 {
        lemma_leaps_elapsed_bounds(instant, among - 1);
        if leap_instant(among - 1) <= instant {
            lemma_leaps_elapsed_prefix(instant, among);
        }
    }
}

/// The same for a clock without leap seconds and what it reads.
pub proof fn lemma_leaps_read(reading: int)
    ensures
        0 <= leaps_read(reading) <= leap_count(),
        leaps_read(reading) > 0 ==> leap_reading(leaps_read(reading) - 1) <= reading,
        leaps_read(reading) < leap_count() ==> reading < leap_reading(leaps_read(reading)),
{
    lemma_leaps_read_bounds(reading, leap_count());
}

proof fn lemma_leaps_read_bounds(reading: int, among: int)
    requires
        0 <= among <= leap_count(),
    ensures
        0 <= leaps_read_among(reading, among) <= among,
        leaps_read_among(reading, among) > 0 ==> leap_reading(leaps_read_among(reading, among) - 1)
            <= reading,
        leaps_read_among(reading, among) < among ==> reading < leap_reading(
            leaps_read_among(reading, among),
        ),
    decreases among,
{
    if among > 0 {
        lemma_leaps_read_bounds(reading, among - 1);
        if leap_reading(among - 1) <= reading {
            lemma_leaps_read_prefix(reading, among);
        }
    }
}

/// The count of the leap seconds that have passed never falls as time goes
/// on.
pub proof fn lemma_leaps_elapsed_monotonic(earlier: int, later: int)
    requires
        earlier <= later,
    ensures
        leaps_elapsed(earlier) <= leaps_elapsed(later),
{
    lemma_leaps_elapsed(earlier);
    lemma_leaps_elapsed(later);
    if leaps_elapsed(earlier) > leaps_elapsed(later) {
        lemma_leap_instants_increase(leaps_elapsed(later), leaps_elapsed(earlier) - 1);
    }
}

/// The count of the leap seconds that have passed goes up by one at each
/// leap instant. During the leap second before the leap instant of index
/// `index` it is `index`, the leap seconds before that one; from the leap
/// instant on, until the next, it is one more.
pub proof fn lemma_leaps_elapsed_steps(index: int, instant: int)
    requires
        0 <= index < leap_count(),
    ensures
        leaps_elapsed(leap_instant(index)) == index + 1,
        leap_instant(index) - attos_per_sec() <= instant < leap_instant(index) ==> leaps_elapsed(
            instant,
        ) == index,
        leap_instant(index) <= instant && (index + 1 < leap_count() ==> instant < leap_instant(
            index + 1,
        )) ==> leaps_elapsed(instant) == index + 1,
{
    if index + 1 < leap_count() {
        lemma_leap_instants_increase(index, index + 1);
    }
    lemma_leaps_elapsed_among(leap_instant(index), index + 1, leap_count());
    if leap_instant(index) - attos_per_sec() <= instant < leap_instant(index) {
        if index > 0 {
            lemma_leap_instants_increase(index - 1, index);
        }
        lemma_leaps_elapsed_among(instant, index, leap_count());
    }
    if leap_instant(index) <= instant && (index + 1 < leap_count() ==> instant < leap_instant(
        index + 1,
    )) {
        lemma_leaps_elapsed_among(instant, index + 1, leap_count());
    }
}

/// A clock without leap seconds has as many leap seconds behind it as it has
/// reached of what it reads at the leap instants: none before the first; and
/// one more than `index` from what it reads at the leap instant of index
/// `index` on, until what it reads at the next.
pub proof fn lemma_leaps_read_steps(index: int, reading: int)
    requires
        0 <= index < leap_count(),
    ensures
        reading < leap_reading(0) ==> leaps_read(reading) == 0,
        leap_reading(index) <= reading && (index + 1 < leap_count() ==> reading < leap_reading(
            index + 1,
        )) ==> leaps_read(reading) == index + 1,
{
    if reading < leap_reading(0) {
        lemma_leaps_read_among(reading, 0, leap_count());
    }
    if leap_reading(index) <= reading && (index + 1 < leap_count() ==> reading < leap_reading(
        index + 1,
    )) {
        lemma_leaps_read_among(reading, index + 1, leap_count());
    }
}

/// The instants right after the leap seconds, one after the other.
pub struct LeapInstantIter {
    i: usize,
}

impl LeapInstantIter {
    /// There is no more to go through than the list holds.
    #[verifier::type_invariant]
    spec fn in_list(&self) -> bool {
        self.i <= IANA_NTP_LEAP_SECONDS@.len()
    }

    /// The index (from 0) of the leap instant that comes next.
    pub closed spec fn index(&self) -> int {
        self.i as int
    }

    /// The next leap instant, or `None` after the last one.
    pub fn next(&mut self) -> (item: Option<Instant>)
        ensures
            final(self).index() <= leap_count(),
            old(self).index() < leap_count() ==> final(self).index() == old(self).index() + 1
                && item.is_some() && item.unwrap()@ == leap_instant(old(self).index()),
            old(self).index() >= leap_count() ==> final(self).index() == old(self).index()
                && item.is_none(),
    {
        proof {
            use_type_invariant(&*self);
        }
        if self.i >= IANA_NTP_LEAP_SECONDS.len() {
            None
        } else {
            // The list counts seconds without the leap seconds. The first
            // leap instant lies 1 second later than that, the second 2
            // seconds later, and so on.
            let leaps_elapsed = self.i + 1;
            proof {
                lemma_leap_readings_apart(self.i as int);
                lemma_ntp_epoch();
                lemma_epoch_instants();
            }
            let offset = Duration::new(IANA_NTP_LEAP_SECONDS[self.i] + leaps_elapsed as i64, 0);
            self.i += 1;
            Some(Epoch::Ntp.as_instant() + offset)
        }
    }
}

/// The instants right after the leap seconds, from the first.
pub fn leap_instants() -> (iter: LeapInstantIter)
    ensures
        iter.index() == 0,
{
    LeapInstantIter { i: 0 }
}

/// How many leap seconds have passed at the instant `i`. Only the listed
/// leap seconds count, not the 9 seconds by which UTC was behind TAI before
/// them. During a leap second it does not count yet; right after it, which
/// is at the instant that the list gives, it does.
pub fn leap_seconds_elapsed_at(i: Instant) -> (count: i64)
    ensures
        count == leaps_elapsed(i@),
{
    let mut count: i64 = 0;
    let mut iter = leap_instants();
    loop
        invariant_except_break
            iter.index() == count,
        invariant
            0 <= count <= leap_count(),
            count > 0 ==> leap_instant(count - 1) <= i@,
        ensures
            count < leap_count() ==> i@ < leap_instant(count as int),
        decreases leap_count() - count,
    {
        match iter.next() {
            None => {
                break ;
            },
            Some(leap_instant) => {
                if i >= leap_instant {
                    count += 1;
                } else {
                    break ;
                }
            },
        }
    }
    proof {
        lemma_leaps_elapsed_among(i@, count as int, leap_count());
    }
    count
}

} // verus!
