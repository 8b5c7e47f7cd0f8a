use astrotime::{
    Calendar, DateTime, Duration, Epoch, Error, Gregorian, Instant, Julian, Tai, Tt, Utc,
    ATTOS_PER_SEC_U64,
};
use std::collections::{BTreeSet, HashSet};

#[test]
fn test_print_extremes() {
    let min = DateTime::<Gregorian, Tt>::new(std::i32::MIN, 1, 1, 0, 0, 0, 0).unwrap();
    println!("Min gregorian: {}", min.to_string());
    let max = DateTime::<Gregorian, Tt>::new(
        std::i32::MAX,
        12,
        31,
        23,
        59,
        59,
        999_999_999_999_999_999,
    )
    .unwrap();
    println!("Max gregorian: {}", max.to_string());
    assert_eq!(
        min.to_string(),
        "-2147483648-01-01 00:00:00.000000000000000000 Gregorian TT"
    );
    assert_eq!(
        max.to_string(),
        "2147483647-12-31 23:59:59.999999999999999999 Gregorian TT"
    );
}

#[test]
fn date_time_as_text() {
    let d = DateTime::<Gregorian, Tt>::new(1977, 1, 1, 0, 0, 32, 184_000_000_000_000_000).unwrap();
    assert_eq!(d.to_string(), "1977-01-01 00:00:32.184000000000000000 Gregorian TT");
    let d = DateTime::<Julian, Utc>::new(5, 10, 9, 8, 7, 60, 1).unwrap();
    assert_eq!(d.to_string(), "0005-10-09 08:07:60.000000000000000001 Julian UTC");
    let d = DateTime::<Julian, Tai>::new(0, 2, 29, 23, 59, 59, 0).unwrap();
    assert_eq!(d.to_string(), "0000-02-29 23:59:59.000000000000000000 Julian TAI");
    let d = DateTime::<Gregorian, Tai>::new(-1, 12, 31, 0, 0, 0, 0).unwrap();
    assert_eq!(d.to_string(), "-001-12-31 00:00:00.000000000000000000 Gregorian TAI");
    let d = DateTime::<Gregorian, Tai>::new(-4712, 1, 1, 12, 0, 0, 0).unwrap();
    assert_eq!(d.to_string(), "-4712-01-01 12:00:00.000000000000000000 Gregorian TAI");
    let d = DateTime::<Gregorian, Tai>::new(12345, 1, 1, 12, 0, 0, 0).unwrap();
    assert_eq!(d.to_string(), "12345-01-01 12:00:00.000000000000000000 Gregorian TAI");
    assert_eq!(Gregorian::name(), "Gregorian");
    assert_eq!(Julian::name(), "Julian");
}

#[test]
fn new_takes_what_is_in_range() {
    assert!(DateTime::<Gregorian, Tt>::new(2000, 1, 1, 0, 0, 0, 0).is_ok());
    assert!(DateTime::<Gregorian, Tt>::new(2000, 12, 31, 23, 59, 59, 999_999_999_999_999_999).is_ok());
    assert!(DateTime::<Gregorian, Tt>::new(2000, 2, 29, 0, 0, 0, 0).is_ok());
    assert!(DateTime::<Gregorian, Tt>::new(1900, 2, 29, 0, 0, 0, 0).is_err());
    assert!(DateTime::<Julian, Tt>::new(1900, 2, 29, 0, 0, 0, 0).is_ok());
    assert!(DateTime::<Gregorian, Tt>::new(-400, 2, 29, 0, 0, 0, 0).is_ok());
    assert!(DateTime::<Gregorian, Tt>::new(-100, 2, 29, 0, 0, 0, 0).is_err());
    assert!(DateTime::<Gregorian, Tt>::new(-4, 2, 29, 0, 0, 0, 0).is_ok());
    assert!(DateTime::<Gregorian, Tt>::new(-1, 2, 29, 0, 0, 0, 0).is_err());
    assert!(matches!(
        DateTime::<Gregorian, Tt>::new(2000, 4, 31, 0, 0, 0, 0),
        Err(Error::RangeError)
    ));
    for month in [4, 6, 9, 11] {
        assert!(DateTime::<Gregorian, Tt>::new(2001, month, 30, 0, 0, 0, 0).is_ok());
        assert!(DateTime::<Gregorian, Tt>::new(2001, month, 31, 0, 0, 0, 0).is_err());
    }
    for month in [1, 3, 5, 7, 8, 10, 12] {
        assert!(DateTime::<Gregorian, Tt>::new(2001, month, 31, 0, 0, 0, 0).is_ok());
        assert!(DateTime::<Gregorian, Tt>::new(2001, month, 32, 0, 0, 0, 0).is_err());
    }
}

#[test]
fn years_bc() {
    let d = DateTime::<Julian, Tt>::new_bc(4713, 1, 1, 12, 0, 0, 0).unwrap();
    assert_eq!(d.year(), -4712);
    assert_eq!(d.year_bc(), 4713);
    let d = DateTime::<Julian, Tt>::new_bc(1, 1, 1, 0, 0, 0, 0).unwrap();
    assert_eq!(d.year(), 0);
    assert!(matches!(
        DateTime::<Julian, Tt>::new_bc(i32::MIN, 1, 1, 0, 0, 0, 0),
        Err(Error::RangeError)
    ));
    assert!(matches!(
        DateTime::<Julian, Tt>::new_bc(-2147483647, 1, 1, 0, 0, 0, 0),
        Err(Error::RangeError)
    ));
    let d = DateTime::<Julian, Tt>::new_bc(-2147483646, 1, 1, 0, 0, 0, 0).unwrap();
    assert_eq!(d.year(), i32::MAX);
    let mut d = DateTime::<Gregorian, Tt>::new(2000, 1, 1, 0, 0, 0, 0).unwrap();
    d.set_year_bc(44);
    assert_eq!(d.year(), -43);
    assert_eq!(d.date(), (-43, 1, 1));
}

#[test]
fn setters_refuse_and_leave_unchanged() {
    let start =
        DateTime::<Gregorian, Tt>::new(2004, 1, 31, 10, 20, 30, 40).unwrap();
    let mut d = start;
    assert!(matches!(d.set_month(0), Err(Error::RangeError)));
    assert!(matches!(d.set_month(13), Err(Error::RangeError)));
    assert!(matches!(d.set_month(4), Err(Error::RangeError)));
    assert!(matches!(d.set_day(0), Err(Error::RangeError)));
    assert!(matches!(d.set_day(32), Err(Error::RangeError)));
    assert!(matches!(d.set_hour(24), Err(Error::RangeError)));
    assert!(matches!(d.set_minute(60), Err(Error::RangeError)));
    assert!(matches!(d.set_second(61), Err(Error::RangeError)));
    assert!(matches!(d.set_attosecond(ATTOS_PER_SEC_U64), Err(Error::RangeError)));
    assert_eq!(d, start);
    assert!(d.set_second(59).is_ok());
    assert!(d.set_attosecond(ATTOS_PER_SEC_U64 - 1).is_ok());
    assert!(d.set_hour(23).is_ok());
    assert!(d.set_minute(59).is_ok());
    assert_eq!(d.time(), (23, 59, 59, ATTOS_PER_SEC_U64 - 1));
    // the 29th of February stays when the year changes
    let mut d = DateTime::<Gregorian, Tt>::new(2004, 2, 29, 0, 0, 0, 0).unwrap();
    d.set_year(2003);
    assert_eq!(d.date(), (2003, 2, 29));
    assert!(d.set_day(29).is_err());
    assert!(d.set_day(28).is_ok());
}

#[test]
fn second_60_needs_a_standard_with_leap_seconds() {
    assert!(matches!(
        DateTime::<Gregorian, Tt>::new(2000, 1, 1, 0, 0, 60, 0),
        Err(Error::RangeError)
    ));
    assert!(matches!(
        DateTime::<Gregorian, Tai>::new(1973, 12, 31, 23, 59, 60, 0),
        Err(Error::RangeError)
    ));
    assert!(matches!(
        DateTime::<Julian, Tt>::new_bc(4713, 1, 1, 12, 0, 60, 0),
        Err(Error::RangeError)
    ));
    assert!(DateTime::<Gregorian, Utc>::new(2000, 1, 1, 0, 0, 60, 0).is_ok());
    assert!(DateTime::<Julian, Utc>::new_bc(4713, 1, 1, 12, 0, 60, 0).is_ok());
    assert!(DateTime::<Gregorian, Utc>::new(1973, 12, 31, 0, 0, 60, 500_000_000_000_000_000).is_ok());
    assert!(DateTime::<Gregorian, Utc>::new(2000, 1, 1, 0, 0, 61, 0).is_err());

    let start = DateTime::<Gregorian, Tt>::new(2000, 1, 1, 1, 2, 3, 4).unwrap();
    let mut tt = start;
    assert!(matches!(tt.set_second(60), Err(Error::RangeError)));
    assert_eq!(tt, start);
    // the hour and the minute are set before the second is refused
    assert!(matches!(tt.set_time((5, 6, 60, 7)), Err(Error::RangeError)));
    assert_eq!(tt.time(), (5, 6, 3, 4));
    let mut tai = DateTime::<Gregorian, Tai>::new(2000, 1, 1, 1, 2, 3, 4).unwrap();
    assert!(matches!(tai.set_second(60), Err(Error::RangeError)));
    assert_eq!(tai.second(), 3);

    let mut utc = DateTime::<Gregorian, Utc>::new(2000, 1, 1, 1, 2, 3, 4).unwrap();
    assert!(utc.set_second(60).is_ok());
    assert_eq!(utc.second(), 60);
    assert!(utc.set_time((5, 6, 60, 7)).is_ok());
    assert_eq!(utc.time(), (5, 6, 60, 7));
    assert!(matches!(utc.set_second(61), Err(Error::RangeError)));

    // what a clock without leap seconds shows never has the second 60
    let in_leap: Instant =
        DateTime::<Gregorian, Utc>::new(1976, 12, 31, 23, 59, 60, 0).unwrap().into();
    assert_eq!(DateTime::<Gregorian, Utc>::from_instant(in_leap).unwrap().second(), 60);
    assert_eq!(
        DateTime::<Gregorian, Tai>::from_instant(in_leap).unwrap(),
        DateTime::<Gregorian, Tai>::new(1977, 1, 1, 0, 0, 15, 0).unwrap()
    );
    assert_eq!(
        DateTime::<Gregorian, Tt>::from_instant(in_leap).unwrap(),
        DateTime::<Gregorian, Tt>::new(1977, 1, 1, 0, 0, 47, 184_000_000_000_000_000).unwrap()
    );
}

#[test]
fn set_date_and_set_time_go_field_by_field() {
    let mut d = DateTime::<Gregorian, Tt>::new(2004, 1, 31, 10, 20, 30, 40).unwrap();
    // February has no 31st: the year is set, the rest is not
    assert!(matches!(d.set_date((2005, 2, 15)), Err(Error::RangeError)));
    assert_eq!(d.date(), (2005, 1, 31));
    // the month is set, the day is refused
    assert!(matches!(d.set_date((2006, 3, 32)), Err(Error::RangeError)));
    assert_eq!(d.date(), (2006, 3, 31));
    assert!(d.set_date((2008, 5, 9)).is_ok());
    assert_eq!(d.date(), (2008, 5, 9));
    assert!(matches!(d.set_time((24, 1, 2, 3)), Err(Error::RangeError)));
    assert_eq!(d.time(), (10, 20, 30, 40));
    assert!(matches!(d.set_time((11, 60, 2, 3)), Err(Error::RangeError)));
    assert_eq!(d.time(), (11, 20, 30, 40));
    assert!(matches!(d.set_time((12, 21, 61, 3)), Err(Error::RangeError)));
    assert_eq!(d.time(), (12, 21, 30, 40));
    assert!(matches!(
        d.set_time((13, 22, 31, ATTOS_PER_SEC_U64)),
        Err(Error::RangeError)
    ));
    assert_eq!(d.time(), (13, 22, 31, 40));
    assert!(d.set_time((14, 23, 32, 41)).is_ok());
    assert_eq!(d.time(), (14, 23, 32, 41));
}

#[test]
fn weekdays() {
    // the Gregorian calendar starts on a Monday, the Julian one on a Saturday
    assert_eq!(DateTime::<Gregorian, Tt>::new(1, 1, 1, 0, 0, 0, 0).unwrap().weekday(), 1);
    assert_eq!(DateTime::<Julian, Tt>::new(1, 1, 1, 0, 0, 0, 0).unwrap().weekday(), 6);
    assert_eq!(DateTime::<Gregorian, Tt>::new(0, 12, 31, 0, 0, 0, 0).unwrap().weekday(), 7);
    // Thursday the 4th of October 1582 was followed by Friday the 15th
    assert_eq!(DateTime::<Julian, Tt>::new(1582, 10, 4, 0, 0, 0, 0).unwrap().weekday(), 4);
    assert_eq!(DateTime::<Gregorian, Tt>::new(1582, 10, 15, 0, 0, 0, 0).unwrap().weekday(), 5);
    assert_eq!(DateTime::<Gregorian, Tt>::new(2000, 1, 1, 0, 0, 0, 0).unwrap().weekday(), 6);
    assert_eq!(DateTime::<Gregorian, Tt>::new(1970, 1, 1, 0, 0, 0, 0).unwrap().weekday(), 4);
    assert_eq!(DateTime::<Gregorian, Tt>::new(-4713, 11, 24, 0, 0, 0, 0).unwrap().weekday(), 1);
}

#[test]
fn day_parts() {
    let d = DateTime::<Gregorian, Tt>::new(2000, 1, 1, 18, 0, 0, 0).unwrap();
    assert_eq!(d.day_part(), 6_480_000_000_000_000_000);
    let e = DateTime::<Gregorian, Tt>::new(2000, 1, 1, 1, 2, 3, 45_678).unwrap();
    assert_eq!(e.day_part(), 372_300_000_000_000_004);
    let made =
        DateTime::<Gregorian, Tt>::from_day_number_and_part(730119, 372_300_000_000_000_004)
            .unwrap();
    assert_eq!(made, DateTime::<Gregorian, Tt>::new(2000, 1, 1, 1, 2, 3, 40_000).unwrap());
    let made = DateTime::<Gregorian, Tt>::from_day_number_and_part(730119, 6_480_000_000_000_000_000)
        .unwrap();
    assert_eq!(made, d);
    let last = DateTime::<Julian, Tt>::from_day_number_and_part(0, 8_639_999_999_999_999_999)
        .unwrap();
    assert_eq!(
        last,
        DateTime::<Julian, Tt>::new(1, 1, 1, 23, 59, 59, 999_999_999_999_990_000).unwrap()
    );
    assert!(matches!(
        DateTime::<Julian, Tt>::from_day_number_and_part(0, 8_640_000_000_000_000_000),
        Err(Error::RangeError)
    ));
    assert!(matches!(
        DateTime::<Julian, Tt>::from_day_number_and_part(784_368_402_066, 0),
        Err(Error::RangeError)
    ));
}

#[test]
fn day_numbers_out_of_range() {
    assert!(matches!(Gregorian::from_day_number(784_352_295_939), Err(Error::RangeError)));
    assert!(matches!(Gregorian::from_day_number(-784_352_296_672), Err(Error::RangeError)));
    assert!(matches!(Julian::from_day_number(784_368_402_066), Err(Error::RangeError)));
    assert!(matches!(Julian::from_day_number(-784_368_402_799), Err(Error::RangeError)));
    assert!(matches!(Gregorian::from_day_number(i64::MAX), Err(Error::RangeError)));
    assert!(matches!(Gregorian::from_day_number(i64::MIN), Err(Error::RangeError)));
    assert!(matches!(Gregorian::day_number(2000, 0, 1), Err(Error::RangeError)));
    assert!(matches!(Gregorian::day_number(2000, 13, 1), Err(Error::RangeError)));
    assert!(matches!(
        DateTime::<Gregorian, Tt>::from_day_number(784_352_295_939),
        Err(Error::RangeError)
    ));
    assert!(DateTime::<Gregorian, Tt>::from_day_number(784_352_295_938).is_ok());
}

#[test]
fn day_numbers_take_any_day() {
    assert_eq!(Gregorian::day_number(2000, 1, 0).unwrap(), 730118);
    assert_eq!(Gregorian::day_number(2000, 1, -30).unwrap(), 730088);
    assert_eq!(Gregorian::day_number(2000, 2, 30).unwrap(), 730179);
    assert_eq!(Gregorian::day_number(2000, 3, 1).unwrap(), 730179);
    assert_eq!(Gregorian::day_number(2000, 1, 367).unwrap(), 730119 + 366);
    assert_eq!(Gregorian::day_number(2001, 1, 1).unwrap(), 730119 + 366);
    assert_eq!(
        Gregorian::day_number(1, 1, i64::MAX).unwrap(),
        i64::MAX - 1
    );
    assert_eq!(
        Gregorian::day_number(2000, 1, i64::MIN).unwrap(),
        i64::MIN + 730118
    );
}

#[test]
fn leap_years_and_month_days() {
    assert!(Gregorian::is_year_leap(2000));
    assert!(!Gregorian::is_year_leap(1900));
    assert!(Gregorian::is_year_leap(1996));
    assert!(!Gregorian::is_year_leap(1997));
    assert!(Gregorian::is_year_leap(0));
    assert!(Gregorian::is_year_leap(-4));
    assert!(!Gregorian::is_year_leap(-100));
    assert!(Gregorian::is_year_leap(-400));
    assert!(Julian::is_year_leap(1900));
    assert!(Julian::is_year_leap(-100));
    assert!(!Julian::is_year_leap(-1));
    assert_eq!(Gregorian::month_days(2, 1900), 28);
    assert_eq!(Julian::month_days(2, 1900), 29);
    assert_eq!(Gregorian::month_days(2, 2000), 29);
    let days: Vec<u8> = (1..=12).map(|m| Gregorian::month_days(m, 2001)).collect();
    assert_eq!(days, vec![31, 28, 31, 30, 31, 30, 31, 31, 30, 31, 30, 31]);
    assert!(Gregorian::is_gregorian());
    assert!(!Julian::is_gregorian());
    assert_eq!(Gregorian::epoch(), Epoch::GregorianCalendar.as_instant());
    assert_eq!(Julian::epoch(), Epoch::JulianCalendar.as_instant());
}

#[test]
fn day_number_round_trips() {
    // every day of some years around the leap years that the calendars
    // treat differently, and around the years before year 1
    for year in [-401, -400, -101, -100, -5, -4, -1, 0, 1, 4, 100, 400, 1582, 1900, 2000, 2023] {
        for month in 1..=12u8 {
            for day in 1..=Gregorian::month_days(month, year) {
                let n = Gregorian::day_number(year, month, day as i64).unwrap();
                assert_eq!(Gregorian::from_day_number(n).unwrap(), (year, month, day));
            }
            for day in 1..=Julian::month_days(month, year) {
                let n = Julian::day_number(year, month, day as i64).unwrap();
                assert_eq!(Julian::from_day_number(n).unwrap(), (year, month, day));
            }
        }
    }
    // day numbers count on without a gap
    let mut expected = Gregorian::day_number(-401, 1, 1).unwrap();
    for year in -401..=401 {
        for month in 1..=12u8 {
            for day in 1..=Gregorian::month_days(month, year) {
                assert_eq!(Gregorian::day_number(year, month, day as i64).unwrap(), expected);
                expected += 1;
            }
        }
    }
    // the ends of the range
    let n = Gregorian::day_number(-2147483648, 1, 1).unwrap();
    assert_eq!(Gregorian::from_day_number(n).unwrap(), (-2147483648, 1, 1));
    let n = Gregorian::day_number(2147483647, 12, 31).unwrap();
    assert_eq!(Gregorian::from_day_number(n).unwrap(), (2147483647, 12, 31));
    let n = Julian::day_number(-2147483648, 1, 1).unwrap();
    assert_eq!(Julian::from_day_number(n).unwrap(), (-2147483648, 1, 1));
    let n = Julian::day_number(2147483647, 12, 31).unwrap();
    assert_eq!(Julian::from_day_number(n).unwrap(), (2147483647, 12, 31));
}

#[test]
fn calendar_conversion_is_its_own_inverse() {
    let j = DateTime::<Julian, Utc>::new(1582, 10, 5, 13, 14, 60, 15).unwrap();
    let g: DateTime<Gregorian, Utc> = TryFrom::try_from(j).unwrap();
    assert_eq!(g, DateTime::<Gregorian, Utc>::new(1582, 10, 15, 13, 14, 60, 15).unwrap());
    let back: DateTime<Julian, Utc> = TryFrom::try_from(g).unwrap();
    assert_eq!(back, j);
    // both name the same instant
    assert_eq!(Instant::from(j), Instant::from(g));
    // the skew widens by three days in four centuries
    let g = DateTime::<Gregorian, Tt>::new(2000, 1, 14, 0, 0, 0, 0).unwrap();
    let j: DateTime<Julian, Tt> = TryFrom::try_from(g).unwrap();
    assert_eq!(j.date(), (2000, 1, 1));
    // the ends: the first days of the Julian calendar have no Gregorian name
    let first = DateTime::<Julian, Tt>::new(i32::MIN, 1, 1, 0, 0, 0, 0).unwrap();
    let named: Result<DateTime<Gregorian, Tt>, Error> = TryFrom::try_from(first);
    assert!(matches!(named, Err(Error::RangeError)));
    let last = DateTime::<Julian, Tt>::new(i32::MAX, 12, 31, 0, 0, 0, 0).unwrap();
    let named: Result<DateTime<Gregorian, Tt>, Error> = TryFrom::try_from(last);
    assert!(matches!(named, Err(Error::RangeError)));
    let last = DateTime::<Gregorian, Tt>::new(i32::MAX, 12, 31, 0, 0, 0, 0).unwrap();
    let named: DateTime<Julian, Tt> = TryFrom::try_from(last).unwrap();
    assert_eq!(named.date(), (2147439551, 10, 31));
}

#[test]
fn instants_out_of_the_calendar() {
    let first = DateTime::<Gregorian, Tt>::new(i32::MIN, 1, 1, 0, 0, 0, 0).unwrap();
    let instant: Instant = first.into();
    assert_eq!(DateTime::<Gregorian, Tt>::from_instant(instant).unwrap(), first);
    let before = instant - Duration::new(0, 1);
    assert!(matches!(
        DateTime::<Gregorian, Tt>::from_instant(before),
        Err(Error::RangeError)
    ));
    // TAI is behind TT: the same instant is still the day before there
    assert!(matches!(first.to_standard::<Tai>(), Err(Error::RangeError)));
    let last =
        DateTime::<Gregorian, Tt>::new(i32::MAX, 12, 31, 23, 59, 59, 999_999_999_999_999_999)
            .unwrap();
    let instant: Instant = last.into();
    assert_eq!(DateTime::<Gregorian, Tt>::from_instant(instant).unwrap(), last);
    assert!(matches!(
        DateTime::<Gregorian, Tt>::from_instant(instant + Duration::new(0, 1)),
        Err(Error::RangeError)
    ));
    assert!(last.to_standard::<Utc>().is_ok());
    let far = Instant::from_offset(Duration::new(i64::MAX, 0));
    assert!(matches!(DateTime::<Julian, Utc>::from_instant(far), Err(Error::RangeError)));
    let far = Instant::from_offset(Duration::new(i64::MIN, 0));
    assert!(matches!(DateTime::<Julian, Utc>::from_instant(far), Err(Error::RangeError)));
}

#[test]
fn arithmetic_with_durations() {
    let d = DateTime::<Gregorian, Utc>::new(1999, 12, 31, 23, 59, 59, 999_999_999_999_999_999)
        .unwrap();
    let next = d + Duration::new(0, 1);
    assert_eq!(next, DateTime::<Gregorian, Utc>::new(2000, 1, 1, 0, 0, 0, 0).unwrap());
    assert_eq!(next - Duration::new(0, 1), d);
    assert_eq!(next - d, Duration::new(0, 1));
    assert_eq!(d - next, Duration::new(0, -1));
    let year_later = next + Duration::new(366 * 86400, 0);
    assert_eq!(year_later.date(), (2001, 1, 1));
    // the second 60 counts as the first second of the next minute
    let in_leap = DateTime::<Gregorian, Utc>::new(1976, 12, 31, 23, 59, 60, 5).unwrap();
    let after = DateTime::<Gregorian, Utc>::new(1977, 1, 1, 0, 0, 0, 5).unwrap();
    assert_eq!(in_leap - after, Duration::new(0, 0));
    assert_eq!(in_leap + Duration::new(0, 0), after);
    let ordered = [d, next, in_leap, after];
    assert!(ordered[2] < ordered[3] && ordered[3] < ordered[0] && ordered[0] < ordered[1]);
}

#[test]
fn abnormal_fields_roll_over() {
    let d = DateTime::<Gregorian, Tt>::new_abnormal(2000, 1, 1, 0, 0, 0, -1);
    assert_eq!(
        d,
        DateTime::<Gregorian, Tt>::new(1999, 12, 31, 23, 59, 59, 999_999_999_999_999_999).unwrap()
    );
    let d = DateTime::<Gregorian, Tt>::new_abnormal(2000, 14, 0, 24, 60, 60, 1_000_000_000_000_000_000);
    assert_eq!(d, DateTime::<Gregorian, Tt>::new(2001, 2, 1, 1, 1, 1, 0).unwrap());
    let d = DateTime::<Julian, Tt>::new_abnormal(1, -11, 1, 0, 0, 0, 0);
    assert_eq!(d, DateTime::<Julian, Tt>::new(0, 1, 1, 0, 0, 0, 0).unwrap());
    let d = DateTime::<Julian, Tt>::new_abnormal(1, -12, 1, 0, 0, 0, 0);
    assert_eq!(d, DateTime::<Julian, Tt>::new(-1, 12, 1, 0, 0, 0, 0).unwrap());
    // a year of months too many, and as many days too few
    let d = DateTime::<Gregorian, Tt>::new_abnormal(i32::MAX, 13, -364, 0, 0, 0, 0);
    assert_eq!(d.date(), (i32::MAX, 1, 1));
    // seconds and attoseconds of any size
    let d = DateTime::<Gregorian, Tt>::new_abnormal(1970, 1, 1, 0, 0, 1_000_000_000_000_000, i64::MAX);
    assert_eq!(
        d,
        DateTime::<Gregorian, Tt>::new(31690708, 7, 5, 1, 46, 49, 223_372_036_854_775_807).unwrap()
    );
    let d = DateTime::<Gregorian, Tt>::new_abnormal(
        1970,
        1,
        1,
        -1_000_000_000_000,
        -1_000_000_000_000,
        0,
        i64::MIN,
    );
    assert_eq!(d.time().3, 776_627_963_145_224_192);
    assert_eq!(
        d + Duration::new(9, 223_372_036_854_775_808),
        DateTime::<Gregorian, Tt>::new_abnormal(1970, 1, 1, -1_000_000_000_000, -1_000_000_000_000, 0, 0)
    );
    assert_eq!(
        DateTime::<Gregorian, Tt>::new_abnormal(1970, 1, 1, -1_000_000_000_000, -1_000_000_000_000, 0, 0),
        DateTime::<Gregorian, Tt>::new(-115978813, 1, 24, 21, 20, 0, 0).unwrap()
    );
}

#[test]
fn abnormal_fields_out_of_the_calendar() {
    assert!(matches!(
        DateTime::<Gregorian, Tt>::try_new_abnormal(i32::MAX, 13, 1, 0, 0, 0, 0),
        Err(Error::RangeError)
    ));
    assert!(matches!(
        DateTime::<Gregorian, Tt>::try_new_abnormal(i32::MIN, 1, 1, 0, 0, 0, -1),
        Err(Error::RangeError)
    ));
    assert!(matches!(
        DateTime::<Gregorian, Tt>::try_new_abnormal(1970, 1, 1, 0, 0, i64::MAX, 0),
        Err(Error::RangeError)
    ));
    assert!(matches!(
        DateTime::<Julian, Tt>::try_new_abnormal(0, i64::MIN, i64::MIN, i64::MIN, 0, 0, 0),
        Err(Error::RangeError)
    ));
    assert_eq!(
        DateTime::<Gregorian, Tt>::try_new_abnormal(i32::MIN, 1, 1, 0, 0, 0, 0).unwrap(),
        DateTime::<Gregorian, Tt>::new(i32::MIN, 1, 1, 0, 0, 0, 0).unwrap()
    );
    assert_eq!(
        DateTime::<Gregorian, Tt>::try_new_abnormal(i32::MAX, 12, 31, 23, 59, 59, 999_999_999_999_999_999)
            .unwrap()
            .date(),
        (i32::MAX, 12, 31)
    );
    let last = DateTime::<Gregorian, Tt>::new(i32::MAX, 12, 31, 23, 59, 59, 999_999_999_999_999_999)
        .unwrap();
    assert_eq!(last.checked_add(Duration::new(0, 1)), None);
    assert_eq!(last.checked_add(Duration::new(0, 0)), Some(last));
    assert_eq!(
        last.checked_sub(Duration::new(86400, 0)).unwrap().date(),
        (i32::MAX, 12, 30)
    );
    let first = DateTime::<Gregorian, Tt>::new(i32::MIN, 1, 1, 0, 0, 0, 0).unwrap();
    assert_eq!(first.checked_sub(Duration::new(0, 1)), None);
    assert_eq!(first.checked_add(last - first), Some(last));
}

#[test]
fn date_times_sort_and_hash() {
    let a = DateTime::<Gregorian, Utc>::new(1999, 12, 31, 23, 59, 59, 0).unwrap();
    let b = DateTime::<Gregorian, Utc>::new(1999, 12, 31, 23, 59, 60, 0).unwrap();
    let c = DateTime::<Gregorian, Utc>::new(2000, 1, 1, 0, 0, 0, 0).unwrap();
    let d = DateTime::<Gregorian, Utc>::new(2000, 1, 1, 0, 0, 0, 1).unwrap();
    let mut sorted = vec![d, b, c, a];
    sorted.sort();
    assert_eq!(sorted, vec![a, b, c, d]);
    let ordered: BTreeSet<_> = [c, a, d, b, a].into_iter().collect();
    assert_eq!(ordered.into_iter().collect::<Vec<_>>(), vec![a, b, c, d]);
    let hashed: HashSet<_> = [c, a, d, b, a, c].into_iter().collect();
    assert_eq!(hashed.len(), 4);
    assert!(a < b && b < c && c < d);
    assert!(a <= a && a >= a && d > a);
    assert!(a != b);
    let copy = a;
    assert_eq!(copy.clone(), a);
    let instants: BTreeSet<Instant> =
        [Epoch::Y2k, Epoch::Unix, Epoch::Ntp].iter().map(|e| e.as_instant()).collect();
    assert_eq!(
        instants.into_iter().collect::<Vec<_>>(),
        vec![Epoch::Ntp.as_instant(), Epoch::Unix.as_instant(), Epoch::Y2k.as_instant()]
    );
}
