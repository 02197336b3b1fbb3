use indexer::archive::Format;
use indexer::pkg::{intake, is_data_member, is_deb_marker, locale_of, Date, Intake, Release};

#[test]
fn deb_marker() {
    assert!(is_deb_marker(Format::Ar, Some("debian-binary")));
    assert!(!is_deb_marker(Format::Tar, Some("debian-binary")));
    assert!(!is_deb_marker(Format::Ar, Some("debian-binary2")));
    assert!(!is_deb_marker(Format::Ar, Some("control.tar.gz")));
    assert!(!is_deb_marker(Format::Ar, None));
    assert!(is_data_member(Some("data.tar")));
    assert!(is_data_member(Some("data.tar.xz")));
    assert!(!is_data_member(Some("control.tar.gz")));
    assert!(!is_data_member(Some("data.ta")));
    assert!(!is_data_member(None));
}

#[test]
fn date_is_found_in_debian_binary() {
    let mut d = Date::Deb;
    d.update(Format::Ar, Some("control.tar.gz"), 5);
    assert!(matches!(d, Date::Deb));
    d.update(Format::Tar, Some("debian-binary"), 6);
    assert!(matches!(d, Date::Deb));
    d.update(Format::Ar, None, 6);
    assert!(matches!(d, Date::Deb));
    d.update(Format::Ar, Some("debian-binary"), 1479627842);
    assert!(matches!(d, Date::Found(1479627842)));
    d.update(Format::Ar, Some("debian-binary"), 7);
    assert!(matches!(d, Date::Found(1479627842)));
    let mut d = Date::Known("2016-11-20");
    d.update(Format::Ar, Some("debian-binary"), 7);
    assert!(matches!(d, Date::Known("2016-11-20")));
    let mut d = Date::Max;
    d.update(Format::Ar, Some("debian-binary"), 7);
    assert!(matches!(d, Date::Max));
    let mut d = Date::Desc;
    d.update(Format::Ar, Some("debian-binary"), 7);
    assert!(matches!(d, Date::Desc));
}

#[test]
fn release_dates() {
    assert_eq!(Date::Known("2016-11-20").release(), Release::Keep);
    assert_eq!(Date::Found(1479627842).release(), Release::Day("2016-11-20".to_string()));
    assert_eq!(Date::Found(0).release(), Release::Day("1970-01-01".to_string()));
    assert_eq!(Date::Found(-1).release(), Release::Day("1969-12-31".to_string()));
    assert_eq!(Date::Found(i64::MAX).release(), Release::Missing);
    assert_eq!(Date::Deb.release(), Release::Missing);
    assert_eq!(Date::Desc.release(), Release::Missing);
    assert_eq!(Date::Max.release(), Release::Missing);
    assert_eq!(Date::Known("2016-11-20").first_day(), "2016-11-20");
    assert_eq!(Date::Found(3).first_day(), "1980-01-01");
    assert_eq!(Date::Deb.first_day(), "1980-01-01");
}

#[test]
fn intake_of_packages() {
    assert_eq!(intake(false, false), Intake::Insert);
    assert_eq!(intake(false, true), Intake::Insert);
    assert_eq!(intake(true, true), Intake::Overwrite);
    assert_eq!(intake(true, false), Intake::Skip);
    assert_eq!(locale_of(""), None);
    assert_eq!(locale_of("de"), Some("de"));
}
