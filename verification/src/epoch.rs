use crate::calendar::{day_number_of, days_before_year};
use crate::duration::{attos_per_sec, Duration};
use crate::instant::{tt_instant, Instant};
use crate::leaps::{lemma_leaps_read_steps, ntp_epoch};
use crate::standard::{clock_to_tt, tt_minus_utc};
use vstd::prelude::*;

verus! {

/// The instant at which Coordinated Universal Time reads the start of the
/// day with the given number in the Gregorian calendar: Terrestrial Time is
/// ahead of it by 41.184 s and by the leap seconds up to then.
pub open spec fn utc_instant(day_number: int) -> int {
    clock_to_tt(tt_minus_utc(), true, tt_instant(true, day_number, 0, 0))
}

/// A well known instant to count others from.
#[derive(Debug, Clone, Copy, PartialEq, Eq)]
pub enum Epoch {
    /// The start of the Julian Period: the 1st of January 4713 B.C. in the
    /// Julian calendar, 12:00:00 TT. Julian Day 0.
    JulianPeriod,
    /// The start of the Julian calendar: the 1st of January of its year 1,
    /// 00:00:00 TT, two days before the start of the Gregorian calendar.
    JulianCalendar,
    /// The start of the Gregorian calendar: the 1st of January of its year 1,
    /// 00:00:00 TT.
    GregorianCalendar,
    /// The astronomical epoch J1900.0: the 31st of December 1899, 12:00:00 TT.
    J1900_0,
    /// The start of the year 1900: the 1st of January 1900, 00:00:00 TT.
    E1900_0,
    /// The epoch of the Network Time Protocol: the 1st of January 1900,
    /// 00:00:00 UTC.
    Ntp,
    /// The UNIX epoch: the 1st of January 1970, 00:00:00 UTC.
    Unix,
    /// The instant at which TT, TCG and TCB read the same: the 1st of January
    /// 1977, 00:00:32.184 TT. All instants are counted from this one.
    TimeStandard,
    /// The start of the year 1977 in UTC: the 1st of January 1977, 00:00:00
    /// UTC, right after a leap second.
    Y1977,
    /// The astronomical epoch J1991.25: the 2nd of April 1991, 13:30:00 TT.
    J1991_25,
    /// The start of the year 2000 in UTC: the 1st of January 2000, 00:00:00
    /// UTC.
    Y2k,
    /// The astronomical epoch J2000.0: the 1st of January 2000, 12:00:00 TT.
    J2000_0,
    /// The astronomical epoch J2100.0: the 1st of January 2100, 12:00:00 TT.
    J2100_0,
    /// The astronomical epoch J2200.0: the 2nd of January 2200, 12:00:00 TT.
    J2200_0,
}

impl Epoch {
    /// The instant of the epoch in attoseconds, from its date and its time of
    /// day in Terrestrial Time or, for some, in Coordinated Universal Time.
    /// Years are counted as in ISO 8601: 4713 B.C. is the year -4712.
    pub open spec fn instant(self) -> int {
        match self {
            Epoch::JulianPeriod => tt_instant(
                false,
                day_number_of(false, -4712, 1, 1),
                12int * 3600,
                0,
            ),
            Epoch::JulianCalendar => tt_instant(false, 0, 0, 0),
            Epoch::GregorianCalendar => tt_instant(true, 0, 0, 0),
            Epoch::J1900_0 => tt_instant(true, day_number_of(true, 1899, 12, 31), 12int * 3600, 0),
            Epoch::E1900_0 => tt_instant(true, day_number_of(true, 1900, 1, 1), 0, 0),
            Epoch::Ntp => utc_instant(day_number_of(true, 1900, 1, 1)),
            Epoch::Unix => utc_instant(day_number_of(true, 1970, 1, 1)),
            Epoch::TimeStandard => tt_instant(
                true,
                day_number_of(true, 1977, 1, 1),
                32,
                184_000_000_000_000_000,
            ),
            Epoch::Y1977 => utc_instant(day_number_of(true, 1977, 1, 1)),
            Epoch::J1991_25 => tt_instant(
                true,
                day_number_of(true, 1991, 4, 2),
                13int * 3600 + 30 * 60,
                0,
            ),
            Epoch::Y2k => utc_instant(day_number_of(true, 2000, 1, 1)),
            Epoch::J2000_0 => tt_instant(true, day_number_of(true, 2000, 1, 1), 12int * 3600, 0),
            Epoch::J2100_0 => tt_instant(true, day_number_of(true, 2100, 1, 1), 12int * 3600, 0),
            Epoch::J2200_0 => tt_instant(true, day_number_of(true, 2200, 1, 2), 12int * 3600, 0),
        }
    }

    /// The instant that the epoch names.
    pub fn as_instant(&self) -> (instant: Instant)
        ensures
            instant@ == self.instant(),
            instant.is_normalized(),
    {
        proof {
            lemma_epoch_instants();
        }
        let offset = match *self {
            Epoch::JulianPeriod => Duration::new(-211_087_684_832, -184_000_000_000_000_000),
            Epoch::JulianCalendar => Duration::new(-62_356_694_432, -184_000_000_000_000_000),
            Epoch::GregorianCalendar => Duration::new(-62_356_521_632, -184_000_000_000_000_000),
            Epoch::J1900_0 => Duration::new(-2_429_956_832, -184_000_000_000_000_000),
            Epoch::E1900_0 => Duration::new(-2_429_913_632, -184_000_000_000_000_000),
            Epoch::Ntp => Duration::new(-2_429_913_591, 0),
            Epoch::Unix => Duration::new(-220_924_791, 0),
            Epoch::TimeStandard => Duration::new(0, 0),
            Epoch::Y1977 => Duration::new(16, 0),
            Epoch::J1991_25 => Duration::new(449_674_167, 816_000_000_000_000_000),
            Epoch::Y2k => Duration::new(725_760_032, 0),
            Epoch::J2000_0 => Duration::new(725_803_167, 816_000_000_000_000_000),
            Epoch::J2100_0 => Duration::new(3_881_563_167, 816_000_000_000_000_000),
            Epoch::J2200_0 => Duration::new(7_037_323_167, 816_000_000_000_000_000),
        };
        Instant::from_offset(offset)
    }
}

/// The day numbers of the days that the epochs fall on.
proof fn lemma_days_of_epochs()
    ensures
        day_number_of(false, -4712, 1, 1) == -1_721_424,
        day_number_of(true, 1899, 12, 31) == 693_594,
        day_number_of(true, 1900, 1, 1) == 693_595,
        day_number_of(true, 1970, 1, 1) == 719_162,
        day_number_of(true, 1977, 1, 1) == 721_719,
        day_number_of(true, 1991, 4, 2) == 726_923,
        day_number_of(true, 2000, 1, 1) == 730_119,
        day_number_of(true, 2100, 1, 1) == 766_644,
        day_number_of(true, 2200, 1, 2) == 803_169,
{
    reveal(days_before_year);
}

/// The leap seconds behind UTC at the epochs that are given in it: none in
/// 1900 and in 1970, 7 at the start of 1977, and 23 at the start of 2000.
proof fn lemma_leaps_at_epochs()
    ensures
        utc_instant(693_595) == -2_429_913_591 * attos_per_sec(),
        utc_instant(719_162) == -220_924_791 * attos_per_sec(),
        utc_instant(721_719) == 16 * attos_per_sec(),
        utc_instant(730_119) == 725_760_032 * attos_per_sec(),
{
    lemma_days_of_epochs();
    lemma_leaps_read_steps(0, tt_instant(true, 693_595, 0, 0) + tt_minus_utc());
    lemma_leaps_read_steps(0, tt_instant(true, 719_162, 0, 0) + tt_minus_utc());
    lemma_leaps_read_steps(6, tt_instant(true, 721_719, 0, 0) + tt_minus_utc());
    lemma_leaps_read_steps(22, tt_instant(true, 730_119, 0, 0) + tt_minus_utc());
}

/// The instants of the epochs, in seconds and attoseconds from the instant
/// all are counted from.
pub proof fn lemma_epoch_instants()
    ensures
        Epoch::JulianPeriod.instant() == -211_087_684_832_184_000_000_000_000_000,
        Epoch::JulianCalendar.instant() == -62_356_694_432_184_000_000_000_000_000,
        Epoch::GregorianCalendar.instant() == -62_356_521_632_184_000_000_000_000_000,
        Epoch::J1900_0.instant() == -2_429_956_832_184_000_000_000_000_000,
        Epoch::E1900_0.instant() == -2_429_913_632_184_000_000_000_000_000,
        Epoch::Ntp.instant() == -2_429_913_591 * attos_per_sec(),
        Epoch::Ntp.instant() == ntp_epoch(),
        Epoch::Unix.instant() == -220_924_791 * attos_per_sec(),
        Epoch::TimeStandard.instant() == 0,
        Epoch::Y1977.instant() == 16 * attos_per_sec(),
        Epoch::J1991_25.instant() == 449_674_167_816_000_000_000_000_000,
        Epoch::Y2k.instant() == 725_760_032 * attos_per_sec(),
        Epoch::J2000_0.instant() == 725_803_167_816_000_000_000_000_000,
        Epoch::J2100_0.instant() == 3_881_563_167_816_000_000_000_000_000,
        Epoch::J2200_0.instant() == 7_037_323_167_816_000_000_000_000_000,
{
    lemma_days_of_epochs();
    lemma_leaps_at_epochs();
}

} // verus!
