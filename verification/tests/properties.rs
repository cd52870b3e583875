use chronver::{
    Changeset, Date, IntErrorKind, Kind, ParseChangesetError, ParseDateError, ParseError,
    ParseKindError, Version,
};

#[test]
fn round_trip_strings() {
    for text in [
        "2019.01.06",
        "2019.01.06.1",
        "2019.01.06.4294967295",
        "2019.01.06-test",
        "2019.01.06.1-test",
        "2019.01.06.1-test.2",
        "0000.01.01",
        "9999.12.31",
        "2020.02.29",
        "2019.01.06-0",
        "2019.01.06--dash",
    ] {
        let version = Version::parse(text).unwrap();
        assert_eq!(text, version.format());
        assert_eq!(version, Version::parse(&version.format()).unwrap());
    }
}

#[test]
fn round_trip_constructed() {
    let version = Version {
        date: Date::new(987, 6, 5).unwrap(),
        changeset: Changeset::new(42),
        kind: Kind::Feature {
            name: "my-feature".to_owned(),
        },
    };
    assert_eq!("0987.06.05.42-my-feature", version.format());
    assert_eq!(version, Version::parse(&version.format()).unwrap());
}

#[test]
fn empty_kind_normalizes() {
    let version = Version::parse("2019.01.06-").unwrap();
    assert_eq!(Kind::Regular, version.kind);
    assert_eq!("2019.01.06", version.format());
}

#[test]
fn changeset_zero() {
    assert_eq!(
        ParseChangesetError::Zero,
        Changeset::parse("0").unwrap_err()
    );
    assert_eq!(
        ParseChangesetError::Zero,
        Changeset::parse("00").unwrap_err()
    );
    assert_eq!(None, Changeset::new(0));
    assert!(matches!(
        Version::parse("2019.01.06.0").unwrap_err(),
        ParseError::InvalidChangeset(ParseChangesetError::Zero)
    ));
}

#[test]
fn changeset_values() {
    let cs = Changeset::new(1).unwrap();
    assert_eq!(1, cs.get());
    assert_eq!(2, cs.checked_add(1).get());
    assert_eq!(u32::MAX, Changeset::new(u32::MAX).unwrap().checked_add(1).get());
    assert_eq!("4294967295", Changeset::new(u32::MAX).unwrap().format());
    let err = Changeset::parse("4294967296").unwrap_err();
    assert!(matches!(
        err,
        ParseChangesetError::InvalidInt(e) if e.kind == IntErrorKind::Overflow
    ));
    let err = Changeset::parse("+1").unwrap_err();
    assert!(matches!(
        err,
        ParseChangesetError::InvalidInt(e) if e.kind == IntErrorKind::InvalidDigit
    ));
    let err = Changeset::parse("").unwrap_err();
    assert!(matches!(
        err,
        ParseChangesetError::InvalidInt(e) if e.kind == IntErrorKind::Empty
    ));
}

#[test]
fn date_accessors_and_padding() {
    let date = Date::new(1, 1, 1).unwrap();
    assert_eq!("0001.01.01", date.format());
    let date = Date::parse("2020.01.06").unwrap();
    assert_eq!(2020, date.year());
    assert_eq!(1, date.month());
    assert_eq!(6, date.day());
}

#[test]
fn date_errors() {
    assert_eq!(
        ParseDateError::MissingMonthSeparator,
        Date::parse("2019").unwrap_err()
    );
    assert_eq!(
        ParseDateError::MissingDaySeparator,
        Date::parse("2019.01").unwrap_err()
    );
    assert!(matches!(
        Date::parse("x.01.01").unwrap_err(),
        ParseDateError::InvalidInt(_)
    ));
    assert!(matches!(
        Date::parse("2019.00.01").unwrap_err(),
        ParseDateError::InvalidMonth(e) if e.month == 0
    ));
    assert!(matches!(
        Date::parse("2019.13.01").unwrap_err(),
        ParseDateError::InvalidMonth(e) if e.month == 13
    ));
    assert!(matches!(
        Date::parse("2019.02.30").unwrap_err(),
        ParseDateError::InvalidDate(_)
    ));
    assert!(matches!(
        Date::parse("99999.01.01").unwrap_err(),
        ParseDateError::InvalidDate(_)
    ));
    assert!(matches!(
        Date::parse("99999999999999999999.01.01").unwrap_err(),
        ParseDateError::InvalidInt(e) if e.kind == IntErrorKind::Overflow
    ));
    assert!(matches!(
        Date::parse("-019.01.01").unwrap_err(),
        ParseDateError::InvalidInt(e) if e.kind == IntErrorKind::InvalidDigit
    ));
}

#[test]
fn negative_years_format_but_do_not_parse() {
    let date = Date::new(-5, 1, 1).unwrap();
    assert_eq!("-005.01.01", date.format());
    assert_eq!("-9999.12.31", Date::new(-9999, 12, 31).unwrap().format());
    assert!(Date::new(-10000, 1, 1).is_none());
    assert!(matches!(
        Date::parse("-005.01.01").unwrap_err(),
        ParseDateError::InvalidInt(e) if e.kind == IntErrorKind::InvalidDigit
    ));
    assert!(Version::parse("-005.01.01").is_err());
}

#[test]
fn leap_years() {
    assert!(Date::parse("2020.02.29").is_ok());
    assert!(Date::parse("2000.02.29").is_ok());
    assert!(Date::parse("2019.02.29").is_err());
    assert!(Date::parse("1900.02.29").is_err());
    assert!(Date::new(2024, 2, 29).is_some());
    assert!(Date::new(2023, 2, 29).is_none());
}

#[test]
fn kind_parsing() {
    assert_eq!(Kind::Regular, Kind::parse("").unwrap());
    assert_eq!(Kind::Breaking, Kind::parse("break").unwrap());
    assert_eq!(
        Kind::Feature {
            name: "breakx".to_owned()
        },
        Kind::parse("breakx").unwrap()
    );
    assert_eq!(ParseKindError::NonAscii, Kind::parse("caf\u{e9}").unwrap_err());
    assert_eq!("", Kind::Regular.format());
    assert_eq!("break", Kind::Breaking.format());
    assert_eq!(
        "alpha",
        Kind::Feature {
            name: "alpha".to_owned()
        }
        .format()
    );
    assert!(Kind::Regular.is_regular());
    assert!(!Kind::Breaking.is_regular());
}

#[test]
fn version_errors() {
    assert_eq!(
        ParseError::NonAscii,
        Version::parse("2019.01.06-caf\u{e9}").unwrap_err()
    );
    assert_eq!(ParseError::TooShort, Version::parse("").unwrap_err());
    assert!(matches!(
        Version::parse("2019.01.06.").unwrap_err(),
        ParseError::InvalidChangeset(ParseChangesetError::InvalidInt(e))
            if e.kind == IntErrorKind::Empty
    ));
    assert!(matches!(
        Version::parse("2019.01.06.99999999999").unwrap_err(),
        ParseError::InvalidChangeset(ParseChangesetError::InvalidInt(e))
            if e.kind == IntErrorKind::Overflow
    ));
    assert_eq!(
        ParseError::TrailingData,
        Version::parse("2019.01.06x").unwrap_err()
    );
    assert!(Version::parse("2019.30.01.5").is_err());
}

#[test]
fn date_error_reports_before_later_components() {
    assert!(matches!(
        Version::parse("2019.30.01.a").unwrap_err(),
        ParseError::InvalidDate(_)
    ));
    assert!(matches!(
        Version::parse("2019.30.01.0").unwrap_err(),
        ParseError::InvalidDate(_)
    ));
    assert!(matches!(
        Version::parse("2019.30.01+x").unwrap_err(),
        ParseError::InvalidDate(_)
    ));
    assert!(matches!(
        Version::parse("2019.02.30-caf\u{e9}").unwrap_err(),
        ParseError::NonAscii
    ));
}

#[test]
fn error_messages() {
    assert_eq!("string is too short", ParseError::TooShort.message());
    assert_eq!(
        "unexpected trailing data",
        ParseError::TrailingData.message()
    );
    assert_eq!(
        "changeset value is zero",
        ParseChangesetError::Zero.message()
    );
    assert_eq!(
        "missing separator for the day",
        ParseDateError::MissingDaySeparator.message()
    );
    assert_eq!(
        "string contains non-ascii characters",
        ParseKindError::NonAscii.message()
    );
}

#[test]
fn order_laws_concrete() {
    let a = Version::parse("2024.04.03").unwrap();
    let b = Version::parse("2024.04.03.1").unwrap();
    let c = Version::parse("2024.04.03.1-break").unwrap();
    let d = Version::parse("2024.04.03.1-xyz").unwrap();

    assert!(a < b && b < c && c < d);
    assert!(a < c && a < d && b < d);
    for x in [&a, &b, &c, &d] {
        for y in [&a, &b, &c, &d] {
            let lt = x < y;
            let eq = x == y;
            let gt = x > y;
            assert_eq!(1, u8::from(lt) + u8::from(eq) + u8::from(gt));
            assert_eq!(gt, y < x);
        }
    }
}

#[test]
fn increment_at_fixed_day() {
    let today = Date::new(2024, 4, 3).unwrap();
    let old = Version::parse("2019.01.06.7-break").unwrap();
    let first = old.increment_at(today);
    assert_eq!(
        Version {
            date: today,
            changeset: None,
            kind: Kind::Regular
        },
        first
    );
    let second = first.increment_at(today);
    assert_eq!(Changeset::new(1), second.changeset);
    let third = second.increment_at(today);
    assert_eq!(Changeset::new(2), third.changeset);
    let later = Date::new(2024, 4, 4).unwrap();
    assert_eq!(None, third.increment_at(later).changeset);
}

#[test]
fn breaking_flag() {
    assert!(Version::parse("2020.03.05-break").unwrap().is_breaking());
    assert!(!Version::parse("2020.03.05").unwrap().is_breaking());
    assert!(!Version::parse("2020.03.05-breaker").unwrap().is_breaking());
}

#[test]
fn default_is_today_and_parseable() {
    let version = Version::default();
    assert_eq!(None, version.changeset);
    assert_eq!(Kind::Regular, version.kind);
    let month = version.date.month();
    let day = version.date.day();
    assert!((1..=12).contains(&month));
    assert!((1..=31).contains(&day));
    let text = version.format();
    assert_eq!(version, Version::parse(&text).unwrap());
}

#[test]
fn arbitrary_inputs_return_errors() {
    for text in [
        "",
        ".",
        "..........",
        "2019-01-06",
        "2019.01.06+",
        "\u{30d0}\u{30fc}\u{30b8}\u{30e7}\u{30f3}",
        "0000.00.00",
        "    2019.01.06",
        "2019.01.06 ",
        "9999.99.99",
    ] {
        assert!(Version::parse(text).is_err());
    }
}
