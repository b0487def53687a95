use promql_parser::util::duration::{
    display_duration, parse_duration, Duration, DAY_MS, HOUR_MS, MILLI_MS, MINUTE_MS, WEEK_MS,
    YEAR_MS,
};

fn ms(v: u128) -> Duration {
    Duration::from_millis(v as u64)
}

#[test]
fn test_valid_duration() {
    let ds = vec![
        ("324ms", Duration::from_millis(324)),
        ("3s", Duration::from_secs(3)),
        ("5m", ms(MINUTE_MS * 5)),
        ("1h", ms(HOUR_MS)),
        ("4d", ms(DAY_MS * 4)),
        ("4d1h", ms(DAY_MS * 4 + HOUR_MS)),
        ("14d", ms(DAY_MS * 14)),
        ("3w", ms(WEEK_MS * 3)),
        ("3w2d1h", ms(WEEK_MS * 3 + HOUR_MS * 49)),
        ("10y", ms(YEAR_MS * 10)),
    ];

    for (s, expect) in ds {
        let d = parse_duration(s);
        assert!(d.is_ok());
        assert_eq!(expect, d.unwrap(), "{} and {:?} not matched", s, expect);
    }
}

// valid here but invalid in PromQL Go Version
#[test]
fn test_diff_with_promql() {
    let ds = vec![
        ("294y", ms(YEAR_MS * 294)),
        ("200y10400w", ms(YEAR_MS * 200 + WEEK_MS * 10400)),
        ("107675d", ms(DAY_MS * 107675)),
        ("2584200h", ms(HOUR_MS * 2584200)),
    ];

    for (s, expect) in ds {
        let d = parse_duration(s);
        assert!(d.is_ok());
        assert_eq!(expect, d.unwrap(), "{} and {:?} not matched", s, expect);
    }
}

#[test]
fn test_invalid_duration() {
    let ds = vec!["1", "1y1m1d", "-1w", "1.5d", "d", "", "0", "0w", "0s"];
    for d in ds {
        assert!(parse_duration(d).is_err(), "{} is invalid duration!", d);
    }
}

#[test]
fn test_display_duration() {
    let ds = vec![
        (Duration::zero(), "0s"),
        (Duration::from_millis(324), "324ms"),
        (Duration::from_secs(3), "3s"),
        (ms(MINUTE_MS * 5), "5m"),
        (ms(MINUTE_MS * 5 + MILLI_MS * 500), "5m500ms"),
        (ms(HOUR_MS), "1h"),
        (ms(DAY_MS * 4), "4d"),
        (ms(DAY_MS * 4 + HOUR_MS), "4d1h"),
        (ms(DAY_MS * 4 + HOUR_MS * 2 + MINUTE_MS * 10), "4d2h10m"),
        (ms(DAY_MS * 14), "2w"),
        (ms(WEEK_MS * 3), "3w"),
        (ms(WEEK_MS * 3 + HOUR_MS * 49), "23d1h"),
        (ms(YEAR_MS * 10), "10y"),
    ];

    for (d, expect) in ds {
        let s = display_duration(&d);
        assert_eq!(expect, s, "{} and {:?} not matched", s, expect);
    }
}

#[test]
fn test_duration_error_messages() {
    assert_eq!(parse_duration(""), Err("empty duration string".to_string()));
    assert_eq!(parse_duration("0"), Err("duration must be greater than 0".to_string()));
    assert_eq!(parse_duration("0s"), Err("duration must be greater than 0".to_string()));
    assert_eq!(
        parse_duration("1.5d"),
        Err("not a valid duration string: 1.5d".to_string())
    );
    assert_eq!(
        parse_duration("1m1h"),
        Err("not a valid duration string: 1m1h".to_string())
    );
}

#[test]
fn test_duration_units_and_overlong_counts() {
    assert_eq!(parse_duration("1h30m").unwrap().as_millis(), 5_400_000);
    assert_eq!(parse_duration("1m5ms").unwrap().as_millis(), 60_005);
    assert_eq!(parse_duration("007s").unwrap().as_millis(), 7000);
    // a count above u32::MAX adds nothing
    assert_eq!(parse_duration("4294967296s1ms").unwrap().as_millis(), 1);
    assert!(parse_duration("4294967296s").is_err());
    assert_eq!(parse_duration("4294967295s").unwrap().as_millis(), 4_294_967_295_000);
}

#[test]
fn test_display_then_parse_gives_back_the_duration() {
    for v in [1u128, 999, 1000, 60_000, 3_600_001, DAY_MS * 14, YEAR_MS * 3 + 7, WEEK_MS * 5 + 2] {
        let d = ms(v);
        let text = display_duration(&d);
        assert_eq!(parse_duration(&text), Ok(d), "{}", text);
    }
}

#[test]
fn test_duration_arithmetic() {
    let m = Duration::from_millis(MINUTE_MS as u64);
    assert_eq!(m.checked_mul(5).unwrap().as_millis(), 300_000);
    assert_eq!(
        m.checked_add(Duration::from_secs(1)).unwrap().as_millis(),
        61_000
    );
    assert!(Duration::zero().is_zero());
}

#[test]
fn test_re() {
    // the accepted forms: units from years down to milliseconds, each at most once, in order
    let res = vec!["1y", "2w", "3d", "4h", "5m", "6s", "7ms", "1y2w3d", "4h30m", "3600ms"];
    for re in res {
        assert!(parse_duration(re).is_ok(), "{} failed.", re)
    }

    let res = vec!["1", "1y1m1d", "-1w", "1.5d", "d"];
    for re in res {
        assert!(parse_duration(re).is_err(), "{} failed.", re)
    }
}
