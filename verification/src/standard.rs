use crate::duration::{attos_per_sec, Duration};
use crate::instant::Instant;
use crate::leaps::{
    leap_count, leap_instant, leap_seconds_elapsed_at, leaps_elapsed, leaps_read,
    lemma_leap_instants_increase, lemma_leap_readings_apart, lemma_leaps_elapsed, lemma_leaps_read,
};
use vstd::prelude::*;

verus! {

/// By how much Terrestrial Time is ahead of International Atomic Time:
/// 32.184 s, in attoseconds.
pub open spec fn tt_minus_tai() -> int {
    32_184_000_000_000_000_000
}

/// By how much Terrestrial Time was ahead of Coordinated Universal Time
/// before the first listed leap second: 9 s more than it is ahead of TAI.
pub open spec fn tt_minus_utc() -> int {
    41_184_000_000_000_000_000
}

/// The instant at which a clock reads `reading`. The clock reads instants,
/// behind Terrestrial Time by `offset` attoseconds and, where it is
/// `leaping`, by one second more for every leap second that has passed: it
/// stands still during a leap second. What a leaping clock reads during a
/// leap second it reads again in the second after it, and that later instant
/// is the one given.
pub open spec fn clock_to_tt(offset: int, leaping: bool, reading: int) -> int {
    let ahead = reading + offset;
    if leaping {
        ahead + leaps_read(ahead) * attos_per_sec()
    } else {
        ahead
    }
}

/// What the clock reads at `instant`.
pub open spec fn tt_to_clock(offset: int, leaping: bool, instant: int) -> int {
    if leaping {
        instant - offset - leaps_elapsed(instant) * attos_per_sec()
    } else {
        instant - offset
    }
}

/// Whether `instant` lies inside a leap second.
pub open spec fn in_leap_second(instant: int) -> bool {
    leaps_elapsed(instant + attos_per_sec()) > leaps_elapsed(instant)
}

/// A standard of time: a clock that names instants.
///
/// What such a clock reads is itself written as an `Instant`, the one at
/// which Terrestrial Time would read the same.
pub trait Standard {
    /// By how many attoseconds Terrestrial Time is ahead of the standard,
    /// leap seconds apart.
    spec fn offset_to_tt() -> int;

    /// Whether the standard stands still during leap seconds.
    spec fn leaping() -> bool;

    /// No standard is ahead of Terrestrial Time, and none is a minute behind
    /// before the leap seconds. One with leap seconds is as far behind as
    /// UTC, so that its leap seconds are the last second of a day.
    proof fn lemma_offset_to_tt()
        ensures
            0 <= Self::offset_to_tt() <= 60 * attos_per_sec(),
            Self::leaping() ==> Self::offset_to_tt() == tt_minus_utc(),
    ;

    /// The short name of the standard in capital letters.
    spec fn abbrev_text() -> Seq<char>;

    /// The short name of the standard in capital letters.
    fn abbrev() -> (name: &'static str)
        ensures
            name@ == Self::abbrev_text(),
    ;

    /// Whether the standard has leap seconds.
    fn has_leap_seconds() -> (leaping: bool)
        ensures
            leaping == Self::leaping(),
    ;

    /// The instant at which the standard reads `at`.
    fn to_tt(at: Instant) -> (tt: Instant)
        requires
            Duration::fits(clock_to_tt(Self::offset_to_tt(), Self::leaping(), at@)),
        ensures
            tt@ == clock_to_tt(Self::offset_to_tt(), Self::leaping(), at@),
    ;

    /// What the standard reads at the instant `at`.
    fn from_tt(at: Instant) -> (reading: Instant)
        requires
            Duration::fits(tt_to_clock(Self::offset_to_tt(), Self::leaping(), at@)),
        ensures
            reading@ == tt_to_clock(Self::offset_to_tt(), Self::leaping(), at@),
    ;
}

/// A standard without leap seconds.
pub trait Continuous {

}

/// Terrestrial Time: the time on the surface of the Earth, without leap
/// seconds. Instants are counted in it.
#[derive(Debug, Clone, Copy, PartialEq, Eq, PartialOrd, Ord, Hash)]
pub struct Tt;

impl Standard for Tt {
    open spec fn offset_to_tt() -> int {
        0
    }

    open spec fn leaping() -> bool {
        false
    }

    proof fn lemma_offset_to_tt() {
    }

    open spec fn abbrev_text() -> Seq<char> {
        "TT"@
    }

    fn abbrev() -> (name: &'static str) {
        "TT"
    }

    fn has_leap_seconds() -> (leaping: bool) {
        false
    }

    fn to_tt(at: Instant) -> (tt: Instant) {
        at
    }

    fn from_tt(at: Instant) -> (reading: Instant) {
        at
    }
}

impl Continuous for Tt {

}

/// International Atomic Time: Terrestrial Time as atomic clocks keep it,
/// 32.184 s behind.
#[derive(Debug, Clone, Copy, PartialEq, Eq, PartialOrd, Ord, Hash)]
pub struct Tai;

impl Standard for Tai {
    open spec fn offset_to_tt() -> int {
        tt_minus_tai()
    }

    open spec fn leaping() -> bool {
        false
    }

    proof fn lemma_offset_to_tt() {
    }

    open spec fn abbrev_text() -> Seq<char> {
        "TAI"@
    }

    fn abbrev() -> (name: &'static str) {
        "TAI"
    }

    fn has_leap_seconds() -> (leaping: bool) {
        false
    }

    fn to_tt(at: Instant) -> (tt: Instant) {
        at + Duration::new(32, 184_000_000_000_000_000)
    }

    fn from_tt(at: Instant) -> (reading: Instant) {
        at - Duration::new(32, 184_000_000_000_000_000)
    }
}

impl Continuous for Tai {

}

/// Coordinated Universal Time: civil time. It was 9 s behind TAI before the
/// first listed leap second and falls one second further behind with every
/// leap second.
#[derive(Debug, Clone, Copy, PartialEq, Eq, PartialOrd, Ord, Hash)]
pub struct Utc;

impl Standard for Utc {
    open spec fn offset_to_tt() -> int {
        tt_minus_utc()
    }

    open spec fn leaping() -> bool {
        true
    }

    proof fn lemma_offset_to_tt() {
    }

    open spec fn abbrev_text() -> Seq<char> {
        "UTC"@
    }

    fn abbrev() -> (name: &'static str) {
        "UTC"
    }

    fn has_leap_seconds() -> (leaping: bool) {
        true
    }

    fn to_tt(at: Instant) -> (tt: Instant) {
        proof {
            use_type_invariant(at);
            at.lemma_of_view();
            lemma_leaps_read(at@ + tt_minus_utc());
            if leaps_read(at@ + tt_minus_utc()) > 0 {
                lemma_leap_readings_apart(leaps_read(at@ + tt_minus_utc()) - 1);
            }
        }
        // 32.184 s to TAI and the 9 s from before 1972
        with_leap_seconds(at + Duration::new(41, 184_000_000_000_000_000))
    }

    fn from_tt(at: Instant) -> (reading: Instant) {
        proof {
            use_type_invariant(at);
            at.lemma_of_view();
            lemma_leaps_elapsed(at@);
        }
        let leaps = leaps_at(at);
        at - Duration::new(41, 184_000_000_000_000_000) - Duration::new(leaps, 0)
    }
}

/// The instant at which a clock without leap seconds that started with
/// Terrestrial Time reads the instant `ahead`: the leap seconds that lie
/// behind the clock are added.
pub(crate) fn with_leap_seconds(ahead: Instant) -> (instant: Instant)
    requires
        Duration::fits(ahead@ + leaps_read(ahead@) * attos_per_sec()),
    ensures
        instant@ == ahead@ + leaps_read(ahead@) * attos_per_sec(),
{
    proof {
        lemma_leaps_read(ahead@);
        lemma_leaps_counted_in_two_passes(ahead@);
        lemma_leaps_elapsed(ahead@);
        lemma_leap_bounds();
    }
    // The leap seconds are listed by instant, and the instant is not known
    // before they are added: count them where the clock reads, then again
    // one second past all that were found.
    let approx_leaps = leaps_at(ahead);
    let actual_leaps = if approx_leaps < 28 {
        leaps_at(ahead + Duration::new(approx_leaps + 1, 0))
    } else {
        approx_leaps
    };
    ahead + Duration::new(actual_leaps, 0)
}

/// How many leap seconds have passed at the instant `at`; during a leap
/// second it does not count yet.
pub fn leaps_at(at: Instant) -> (count: i64)
    ensures
        count == leaps_elapsed(at@),
        0 <= count <= leap_count(),
{
    proof {
        lemma_leaps_elapsed(at@);
    }
    leap_seconds_elapsed_at(at)
}

/// Every leap instant lies within a century of the instant all are counted
/// from.
pub proof fn lemma_leap_bounds()
    ensures
        forall|index: int|
            0 <= index < leap_count() ==> -3_000_000_000 * attos_per_sec()
                <= #[trigger] leap_instant(index) <= 3_000_000_000 * attos_per_sec(),
{
    assert forall|index: int| 0 <= index < leap_count() implies -3_000_000_000 * attos_per_sec()
        <= #[trigger] leap_instant(index) <= 3_000_000_000 * attos_per_sec() by {
        lemma_leap_readings_apart(index);
    }
}

/// The leap seconds behind a clock without leap seconds that reads `ahead`
/// are found in two passes: count those that have passed at the instant
/// `ahead`, then those that have passed one second past that many seconds
/// later.
pub proof fn lemma_leaps_counted_in_two_passes(ahead: int)
    ensures
        ({
            let approx = leaps_elapsed(ahead);
            let actual = if approx < leap_count() {
                leaps_elapsed(ahead + (approx + 1) * attos_per_sec())
            } else {
                approx
            };
            actual == leaps_read(ahead)
        }),
{
    let a = attos_per_sec();
    let approx = leaps_elapsed(ahead);
    let read = leaps_read(ahead);
    lemma_leaps_elapsed(ahead);
    lemma_leaps_read(ahead);
    // not more have passed than the clock has reached
    if approx > read {
        lemma_leap_instants_increase(read, approx - 1);
    }
    // and at most one less
    if approx < read - 1 {
        lemma_leap_instants_increase(approx, read - 1);
    }
    if approx < leap_count() {
        let probe = ahead + (approx + 1) * a;
        lemma_leaps_elapsed(probe);
        let actual = leaps_elapsed(probe);
        if actual > read {
            lemma_leap_instants_increase(read, actual - 1);
        }
        if actual < read {
            lemma_leap_instants_increase(actual, read - 1);
        }
    }
}

/// A clock reads at the instant given for a reading what was read.
pub proof fn lemma_clock_reads_back(offset: int, leaping: bool, reading: int)
    ensures
        tt_to_clock(offset, leaping, clock_to_tt(offset, leaping, reading)) == reading,
{
    if leaping {
        let a = attos_per_sec();
        let ahead = reading + offset;
        let read = leaps_read(ahead);
        let instant = ahead + read * a;
        lemma_leaps_read(ahead);
        lemma_leaps_elapsed(instant);
        let elapsed = leaps_elapsed(instant);
        if elapsed > read {
            lemma_leap_instants_increase(read, elapsed - 1);
        }
        if elapsed < read {
            lemma_leap_instants_increase(elapsed, read - 1);
        }
    }
}

/// The instant given for what a clock reads at an instant is that instant,
/// but for a leaping clock during a leap second: what it reads then it reads
/// again one second later, and that later instant is given.
pub proof fn lemma_clock_instant_back(offset: int, leaping: bool, instant: int)
    ensures
        clock_to_tt(offset, leaping, tt_to_clock(offset, leaping, instant)) == if leaping
            && in_leap_second(instant) {
            instant + attos_per_sec()
        } else {
            instant
        },
        in_leap_second(instant) ==> leaps_elapsed(instant + attos_per_sec()) == leaps_elapsed(
            instant,
        ) + 1,
{
    let a = attos_per_sec();
    let elapsed = leaps_elapsed(instant);
    let next = leaps_elapsed(instant + a);
    lemma_leaps_elapsed(instant);
    lemma_leaps_elapsed(instant + a);
    if next > elapsed + 1 {
        lemma_leap_instants_increase(elapsed, next - 1);
    }
    if next < elapsed {
        lemma_leap_instants_increase(next, elapsed - 1);
    }
    if leaping {
        let ahead = instant - elapsed * a;
        lemma_leaps_read(ahead);
        let read = leaps_read(ahead);
        if read > next {
            lemma_leap_instants_increase(next, read - 1);
        }
        if read < next {
            lemma_leap_instants_increase(read, next - 1);
        }
    }
}

} // verus!
