use astrotime::divmod_i64;
use astrotime::{Duration, Error, ATTOS_PER_SEC_I64};

#[test]
fn test_divmod() {
    let (div, modulo) = divmod_i64(47, 10);
    assert_eq!(div, 4);
    assert_eq!(modulo, 7);

    let (div, modulo) = divmod_i64(-47, 10);
    assert_eq!(div, -5);
    assert_eq!(modulo, 3);
}

#[test]
fn test_duration_normalize() {
    let d = Duration::new(12, -15);
    assert_eq!(d.seconds_part(), 11);
    assert_eq!(d.attos_part(), ATTOS_PER_SEC_I64 - 15);

    let d = Duration::new(-1, 1_100_000_000_000_000_000);
    assert_eq!(d.seconds_part(), 0);
    assert_eq!(d.attos_part(), 100_000_000_000_000_000);
}

#[test]
fn test_add_duration() {
    let d1 = Duration::new(8000, 12000);
    let d2 = Duration::new(788, 15000);
    let d3 = d1 + d2;
    assert_eq!(d3.seconds_part(), 8788);
    assert_eq!(d3.attos_part(), 27000);

    let d1 = Duration::new(-1, -101);
    let d2 = Duration::new(5, 31);
    let d3 = d1 + d2;
    assert_eq!(d3.seconds_part(), 3);
    assert_eq!(d3.attos_part(), 999_999_999_999_999_930);
}

#[test]
fn test_sub_duration_vs_neg() {
    let d1 = Duration::new(8000, 12000);
    let d2 = Duration::new(788, 15000);
    let d3 = d1 - d2;
    let d4 = d1 + (-d2);
    assert_eq!(d3, d4);
    assert_eq!(d3.seconds_part(), 7211);
    assert_eq!(d3.attos_part(), 999_999_999_999_997_000);
}

#[test]
fn test_duration_display() {
    let d = Duration::new(86400 * 100, 12000);
    assert_eq!(&*d.to_string(), "P100DT0.000000000000012000S");
    let d = Duration::new(86400 + 3600 * 2 + 60 + 1, 120);
    assert_eq!(&*d.to_string(), "P1DT2H1M1.000000000000000120S");
    let d = Duration::new(60 * 3 + 5, 15000);
    assert_eq!(&*d.to_string(), "PT3M5.000000000000015000S");
    let d = Duration::new(-1, -101);
    assert_eq!(&*d.to_string(), "-PT1.000000000000000101S");
    let d = Duration::new(-86400 * 3, -31);
    assert_eq!(&*d.to_string(), "-P3DT0.000000000000000031S");
    let d = Duration::new(0, 31);
    assert_eq!(&*d.to_string(), "PT0.000000000000000031S");
    let d = Duration::new(0, 0);
    assert_eq!(&*d.to_string(), "P");
}

#[test]
fn duration_display_of_whole_parts() {
    assert_eq!(Duration::new(86400, 0).to_string(), "P1D");
    assert_eq!(Duration::new(3600, 0).to_string(), "PT1H");
    assert_eq!(Duration::new(60, 0).to_string(), "PT1M");
    assert_eq!(Duration::new(59, 0).to_string(), "PT59S");
    assert_eq!(Duration::new(90061, 0).to_string(), "P1DT1H1M1S");
    assert_eq!(Duration::new(-45, 0).to_string(), "-PT45S");
    // less than a second before zero is negative too
    assert_eq!(
        Duration::new(0, -500_000_000_000_000_000).to_string(),
        "-PT0.500000000000000000S"
    );
    // the longest and its opposite
    assert_eq!(
        Duration::new(i64::MAX, 999_999_999_999_999_999).to_string(),
        "P106751991167300DT15H30M7.999999999999999999S"
    );
    assert_eq!(
        Duration::new(i64::MIN, -999_999_999_999_999_999).to_string(),
        "-P106751991167300DT15H30M8.999999999999999999S"
    );
}

#[test]
fn duration_parts_agree_in_sign() {
    let cases: [(i64, i64); 10] = [
        (5, -1),
        (-5, 1),
        (0, -1),
        (0, 1),
        (1, -ATTOS_PER_SEC_I64),
        (-1, ATTOS_PER_SEC_I64),
        (7, 3 * ATTOS_PER_SEC_I64 + 9),
        (-7, -3 * ATTOS_PER_SEC_I64 - 9),
        (123_456, -9_000_000_000_000_000_000),
        (-123_456, 9_000_000_000_000_000_000),
    ];
    for (secs, attos) in cases {
        let d = Duration::new(secs, attos);
        let (s, a) = (d.seconds_part(), d.attos_part());
        assert!(a.abs() < ATTOS_PER_SEC_I64);
        assert!(s == 0 || a == 0 || (s > 0) == (a > 0));
        assert_eq!(
            s as i128 * ATTOS_PER_SEC_I64 as i128 + a as i128,
            secs as i128 * ATTOS_PER_SEC_I64 as i128 + attos as i128
        );
    }
}

#[test]
fn duration_addition_is_associative() {
    let a = Duration::new(17, 900_000_000_000_000_000);
    let b = Duration::new(-40, -300_000_000_000_000_000);
    let c = Duration::new(3, 700_000_000_000_000_001);
    assert_eq!((a + b) + c, a + (b + c));
    assert_eq!(a + b, b + a);
    assert_eq!((a + b) - b, a);
    assert_eq!(a - b, a + (-b));
    assert_eq!(((a + b) + c).seconds_part(), -18);
    assert_eq!(((a + b) + c).attos_part(), -699_999_999_999_999_999);
}

#[test]
fn duration_as_attos_and_is_zero() {
    assert_eq!(Duration::new(0, 0).as_attos(), Some(0));
    assert!(Duration::new(0, 0).is_zero());
    assert!(Duration::new(1, -ATTOS_PER_SEC_I64).is_zero());
    assert!(!Duration::new(0, 1).is_zero());
    assert_eq!(Duration::new(9, 223_372_036_854_775_807).as_attos(), Some(i64::MAX));
    assert_eq!(Duration::new(9, 223_372_036_854_775_808).as_attos(), None);
    assert_eq!(Duration::new(-9, -223_372_036_854_775_808).as_attos(), Some(i64::MIN));
    assert_eq!(Duration::new(-9, -223_372_036_854_775_809).as_attos(), None);
    assert_eq!(Duration::new(-2, 5).as_attos(), Some(-1_999_999_999_999_999_995));
    assert_eq!(Duration::new(10, 0).as_attos(), None);
}

#[test]
fn duration_checked_add() {
    let most = Duration::new(i64::MAX, 999_999_999_999_999_999);
    assert_eq!(most.checked_add(Duration::new(0, 1)), None);
    assert_eq!(
        most.checked_add(Duration::new(0, -1)),
        Some(Duration::new(i64::MAX, 999_999_999_999_999_998))
    );
    let least = Duration::new(i64::MIN, -999_999_999_999_999_999);
    assert_eq!(least.checked_add(Duration::new(0, -1)), None);
    assert_eq!(least.checked_add(most), Some(Duration::new(-1, 0)));
}

#[test]
fn duration_checked_new_and_sub() {
    assert_eq!(Duration::checked_new(5, -3), Some(Duration::new(5, -3)));
    assert_eq!(Duration::checked_new(i64::MAX, 1_000_000_000_000_000_000), None);
    assert_eq!(Duration::checked_new(i64::MIN, -1_000_000_000_000_000_000), None);
    assert_eq!(
        Duration::checked_new(i64::MAX, i64::MIN),
        Some(Duration::new(i64::MAX - 10, 776_627_963_145_224_192))
    );
    let least = Duration::new(i64::MIN, -999_999_999_999_999_999);
    assert_eq!(Duration::new(0, 0).checked_sub(least), None);
    assert_eq!(
        Duration::new(-1, 0).checked_sub(least),
        Some(Duration::new(i64::MAX, 999_999_999_999_999_999))
    );
    assert_eq!(
        Duration::new(7, 1).checked_sub(Duration::new(9, 2)),
        Some(Duration::new(-2, -1))
    );
}

#[test]
fn duration_order() {
    let a = Duration::new(-1, -5);
    let b = Duration::new(0, -999_999_999_999_999_999);
    let c = Duration::new(0, 0);
    let d = Duration::new(0, 1);
    let e = Duration::new(1, 0);
    assert!(a < b && b < c && c < d && d < e);
    assert!(e > a);
    assert!(c <= Duration::new(1, -ATTOS_PER_SEC_I64));
    assert!(c >= Duration::new(1, -ATTOS_PER_SEC_I64));
    let mut sorted = vec![e, c, a, d, b];
    sorted.sort();
    assert_eq!(sorted, vec![a, b, c, d, e]);
}

#[test]
fn duration_from_std_parts() {
    let d = Duration::from_std_parts(5, 250_000_000).unwrap();
    assert_eq!(d.seconds_part(), 5);
    assert_eq!(d.attos_part(), 250_000_000_000_000_000);
    assert!(matches!(
        Duration::from_std_parts(i64::MAX as u64 + 1, 0),
        Err(Error::RangeError)
    ));
    assert!(Duration::from_std_parts(i64::MAX as u64, 999_999_999).is_ok());
    assert!(matches!(
        Duration::from_std_parts(i64::MAX as u64, 1_000_000_000),
        Err(Error::RangeError)
    ));
}

#[test]
fn error_messages() {
    assert_eq!(Error::RangeError.message(), "Value out of range");
    assert_eq!(Error::General("no such thing".to_string()).message(), "no such thing");
}
