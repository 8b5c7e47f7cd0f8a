use astrotime::{DateTime, Duration, Epoch, Error, Gregorian, Instant, Tai, Utc};

#[test]
fn test_instant_julian_day_conversions() {
    // half days and sixteenths of a day, in seconds
    assert_eq!(
        Instant::from_julian_day_precise(1721425, 43200, 0).unwrap(),
        Epoch::GregorianCalendar.as_instant()
    );
    assert_eq!(
        Instant::from_julian_day_precise(1721423, 43200, 0).unwrap(),
        Epoch::JulianCalendar.as_instant()
    );
    assert_eq!(
        Instant::from_julian_day_precise(0, 0, 0).unwrap(),
        Epoch::JulianPeriod.as_instant()
    );
    assert_eq!(
        Instant::from_julian_day_precise(2415020, 0, 0).unwrap(),
        Epoch::J1900_0.as_instant()
    );
    assert_eq!(
        Instant::from_julian_day_precise(2448349, 5400, 0).unwrap(),
        Epoch::J1991_25.as_instant()
    );
    assert_eq!(
        Instant::from_julian_day_precise(2451545, 0, 0).unwrap(),
        Epoch::J2000_0.as_instant()
    );
    assert_eq!(
        Instant::from_julian_day_precise(2488070, 0, 0).unwrap(),
        Epoch::J2100_0.as_instant()
    );
    assert_eq!(
        Instant::from_julian_day_precise(2524595, 0, 0).unwrap(),
        Epoch::J2200_0.as_instant()
    );

    assert_eq!(
        Instant::from_julian_day_precise(2440587, 43200 + 41, 184_000_000_000_000_000).unwrap(),
        Epoch::Unix.as_instant()
    );
    assert_eq!(
        Instant::from_julian_day_precise(2451544, 43200 + 64, 184_000_000_000_000_000).unwrap(),
        Epoch::Y2k.as_instant()
    );

    assert_eq!(
        Instant::from_julian_day_precise(2443144, 43200 + 32, 184_000_000_000_000_000).unwrap(),
        Epoch::TimeStandard.as_instant()
    );
}

#[test]
fn instant_test_time_standard_conversions() {
    let p: Instant =
        From::from(DateTime::<Gregorian, Tai>::new(1993, 6, 30, 0, 0, 27, 0).unwrap());
    let q: DateTime<Gregorian, Utc> = TryFrom::try_from(p).unwrap();
    assert_eq!(q, DateTime::<Gregorian, Utc>::new(1993, 6, 30, 0, 0, 0, 0).unwrap());

    let p: Instant = Epoch::Unix.as_instant();
    let q: DateTime<Gregorian, Utc> = TryFrom::try_from(p).unwrap();
    assert_eq!(q, DateTime::<Gregorian, Utc>::new(1970, 1, 1, 0, 0, 0, 0).unwrap());

    let y2k: Instant = Epoch::Y2k.as_instant();
    let q: DateTime<Gregorian, Utc> = TryFrom::try_from(y2k).unwrap();
    assert_eq!(q, DateTime::<Gregorian, Utc>::new(2000, 1, 1, 0, 0, 0, 0).unwrap());
}

#[test]
fn julian_day_range_errors() {
    assert!(matches!(
        Instant::from_julian_day_precise(0, 86400, 0),
        Err(Error::RangeError)
    ));
    assert!(matches!(
        Instant::from_julian_day_precise(0, 0, -1),
        Err(Error::RangeError)
    ));
    assert!(matches!(
        Instant::from_julian_day_precise(0, 0, 1_000_000_000_000_000_000),
        Err(Error::RangeError)
    ));
    assert!(matches!(
        Instant::from_julian_day_precise(i64::MAX / 86400 + 1, 0, 0),
        Err(Error::RangeError)
    ));
    assert!(matches!(
        Instant::from_julian_day_precise(i64::MIN / 86400, 0, 0),
        Err(Error::RangeError)
    ));
    assert!(Instant::from_julian_day_precise(0, 86399, 999_999_999_999_999_999).is_ok());
}

#[test]
fn julian_day_round_trip() {
    let i = Instant::from_julian_day_precise(2451545, 12345, 678).unwrap();
    assert_eq!(i.as_julian_day_precise(), (2451545, 12345, 678));
    assert_eq!(
        Epoch::J1991_25.as_instant().as_julian_day_precise(),
        (2448349, 5400, 0)
    );
    assert_eq!(
        Epoch::TimeStandard.as_instant().as_julian_day_precise(),
        (2443144, 43232, 184_000_000_000_000_000)
    );
    assert_eq!(Epoch::JulianPeriod.as_instant().as_julian_day_precise(), (0, 0, 0));
    // before the start of the Julian Period only the day is negative
    let before = Epoch::JulianPeriod.as_instant() - Duration::new(86400 + 1, 5);
    assert_eq!(before.as_julian_day_precise(), (-2, 86398, 999_999_999_999_999_995));
    let before = Epoch::JulianPeriod.as_instant() - Duration::new(0, 1);
    assert_eq!(before.as_julian_day_precise(), (-1, 86399, 999_999_999_999_999_999));
    let before = Epoch::JulianPeriod.as_instant() - Duration::new(86400, 0);
    assert_eq!(before.as_julian_day_precise(), (-1, 0, 0));
}

#[test]
fn julian_day_parts_come_back_as_given() {
    let cases: [(i64, u32, i64); 9] = [
        (-1, 10, 0),
        (-1, 0, 1),
        (-1, 86399, 999_999_999_999_999_999),
        (-2443144, 43232, 184_000_000_000_000_000),
        (-100_000_000_000, 1, 1),
        (0, 0, 0),
        (0, 86399, 999_999_999_999_999_999),
        (1, 0, 0),
        (100_000_000_000, 86399, 0),
    ];
    for (day, seconds, attoseconds) in cases {
        let i = Instant::from_julian_day_precise(day, seconds, attoseconds).unwrap();
        assert_eq!(i.as_julian_day_precise(), (day, seconds as i64, attoseconds));
    }
    // and the instant from the parts of an instant
    for epoch in [Epoch::JulianPeriod, Epoch::Ntp, Epoch::TimeStandard, Epoch::J2200_0] {
        let i = epoch.as_instant() - Duration::new(300_000_000_000, 7);
        let (day, seconds, attoseconds) = i.as_julian_day_precise();
        assert_eq!(
            Instant::from_julian_day_precise(day, seconds as u32, attoseconds).unwrap(),
            i
        );
    }
}

#[test]
fn ntp_dates() {
    // what an NTP clock reads at a leap instant is read at that instant
    let leap = Instant::from_ntp_date(2429913600, 0);
    assert_eq!(leap, Epoch::Y1977.as_instant());
    assert_eq!(leap.as_ntp_date(), (2429913600, 0));
    // the second before is read in the second before the leap second
    let before = Instant::from_ntp_date(2429913599, 500_000_000_000_000_000);
    assert_eq!(leap - before, Duration::new(1, 500_000_000_000_000_000));
    assert_eq!(before.as_ntp_date(), (2429913599, 500_000_000_000_000_000));
    // in the leap second the clock reads what it reads after it
    let inside = leap - Duration::new(0, 250_000_000_000_000_000);
    assert_eq!(inside.as_ntp_date(), (2429913600, 750_000_000_000_000_000));
    assert_eq!(
        Instant::from_ntp_date(2429913600, 750_000_000_000_000_000),
        leap + Duration::new(0, 750_000_000_000_000_000)
    );
    // no leap seconds before 1972, all 28 of them after 2017
    assert_eq!(Instant::from_ntp_date(0, 0), Epoch::Ntp.as_instant());
    assert_eq!(
        Instant::from_ntp_date(3692217600, 0) - Epoch::Ntp.as_instant(),
        Duration::new(3692217600 + 28, 0)
    );
    assert_eq!(
        Instant::from_ntp_date(2208988800, 0),
        Epoch::Unix.as_instant()
    );
    assert_eq!(Epoch::Y2k.as_instant().as_ntp_date(), (3155673600, 0));
    assert_eq!(
        Instant::from_ntp_date(-86400, -1).as_ntp_date(),
        (-86400, -1)
    );
}

#[test]
fn unix_clock() {
    assert_eq!(Instant::from_unix_clock(Duration::new(0, 0)), Epoch::Unix.as_instant());
    assert_eq!(
        Instant::from_unix_clock(Duration::new(946684800, 0)),
        Epoch::Y2k.as_instant()
    );
    assert_eq!(
        Instant::from_unix_clock(Duration::new(-86400, 0)),
        Epoch::Unix.as_instant() - Duration::new(86400, 0)
    );
    // a clock that shows the start of 1977 stands in the leap second before
    let y1977 = Epoch::Y1977.as_instant();
    assert_eq!(
        Instant::from_unix_clock(Duration::new(220924800, 0)),
        y1977 - Duration::new(1, 0)
    );
    assert_eq!(
        Instant::from_unix_clock(Duration::new(220924800, 999_999_999_999_999_999)),
        y1977 - Duration::new(0, 1)
    );
    assert_eq!(
        Instant::from_unix_clock(Duration::new(220924801, 0)),
        y1977 + Duration::new(1, 0)
    );
    assert_eq!(
        Instant::from_unix_clock(Duration::new(220924799, 0)),
        y1977 - Duration::new(2, 0)
    );
}

#[test]
fn instant_order_and_checked_add() {
    let a = Epoch::Unix.as_instant();
    let b = Epoch::Y2k.as_instant();
    assert!(a < b);
    assert!(b > a);
    assert!(a <= a && a >= a);
    assert_eq!(b - a, Duration::new(946684823, 0));
    assert_eq!(a + (b - a), b);
    assert_eq!(a.checked_add(b - a), Some(b));
    let far = Instant::from_offset(Duration::new(i64::MAX, 0));
    assert_eq!(far.checked_add(Duration::new(1, 0)), None);
    assert_eq!(far.offset(), Duration::new(i64::MAX, 0));
    assert_eq!(b.checked_sub(b - a), Some(a));
    assert_eq!(b.checked_since(a), Some(Duration::new(946684823, 0)));
    assert_eq!(a.checked_since(b), Some(Duration::new(-946684823, 0)));
    let near = Instant::from_offset(Duration::new(i64::MIN, 0));
    assert_eq!(near.checked_sub(Duration::new(1, 0)), None);
    assert_eq!(far.checked_since(near), None);
    assert_eq!(far.checked_since(a), None);
    assert!(near.checked_since(a).is_some());
}
