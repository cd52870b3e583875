use chronver::{Changeset, Date, Kind, ParseError, Version};

fn date(year: i32, month: u8, day: u8) -> Date {
    Date::new(year, month, day).unwrap()
}

#[test]
fn simple_version() {
    let version = Version::parse("2019.01.06").unwrap();
    assert_eq!(
        Version {
            date: date(2019, 01, 06),
            changeset: None,
            kind: Kind::Regular,
        },
        version
    );
    assert_eq!("2019.01.06", version.format());
}

#[test]
fn with_changeset() {
    let version = Version::parse("2019.01.06.12").unwrap();
    assert_eq!(
        Version {
            date: date(2019, 01, 06),
            changeset: Changeset::new(12),
            kind: Kind::Regular,
        },
        version
    );
    assert_eq!("2019.01.06.12", version.format());
}

#[test]
fn with_feature() {
    let version = Version::parse("2019.01.06-test").unwrap();
    assert_eq!(
        Version {
            date: date(2019, 01, 06),
            changeset: None,
            kind: Kind::Feature {
                name: "test".to_owned()
            }
        },
        version
    );
    assert_eq!("2019.01.06-test", version.format());
}

#[test]
fn with_breaking() {
    let version = Version::parse("2019.01.06-break").unwrap();
    assert_eq!(
        Version {
            date: date(2019, 01, 06),
            changeset: None,
            kind: Kind::Breaking,
        },
        version,
    );
    assert_eq!("2019.01.06-break", version.format());
}

#[test]
fn with_changeset_and_feature() {
    let version = Version::parse("2019.01.06.1-test").unwrap();
    assert_eq!(
        Version {
            date: date(2019, 01, 06),
            changeset: Changeset::new(1),
            kind: Kind::Feature {
                name: "test".to_owned()
            }
        },
        version
    );
    assert_eq!("2019.01.06.1-test", version.format());
}

#[test]
fn too_short() {
    let version = Version::parse("2019");
    assert_eq!(ParseError::TooShort, version.unwrap_err());
}

#[test]
fn invalid_date() {
    let version = Version::parse("2019.30.01");
    assert!(matches!(version.unwrap_err(), ParseError::InvalidDate(_)));
}

#[test]
fn invalid_changeset() {
    let version = Version::parse("2019.01.06+111");
    assert_eq!(ParseError::TrailingData, version.unwrap_err());
}

#[test]
fn invalid_changeset_number() {
    let version = Version::parse("2019.01.06.a");
    assert!(matches!(
        version.unwrap_err(),
        ParseError::InvalidChangeset(_)
    ));
}

#[test]
fn invalid_kind() {
    let version = Version::parse("2019.01.06.1+test");
    assert_eq!(ParseError::TrailingData, version.unwrap_err());
}

#[test]
fn increment_old() {
    let version = Version::parse("2019.01.06").unwrap();
    assert_eq!(Version::default(), version.increment());
}

#[test]
fn increment_same_date() {
    let version = Version::default();
    assert_eq!(
        Version {
            changeset: Changeset::new(1),
            ..Version::default()
        },
        version.increment()
    );
}

#[test]
fn increment_same_date_twice() {
    let version = Version::default();
    assert_eq!(
        Version {
            changeset: Changeset::new(2),
            ..Version::default()
        },
        version.increment().increment()
    );
}

#[test]
fn increment_breaking() {
    let version = Version::parse("2019.01.06-break").unwrap();
    assert_eq!(Version::default(), version.increment());
}
