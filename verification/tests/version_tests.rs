use data_lib::version::Version;

#[test]
fn version_compare() {
    let v1 = Version::new(1, 0, 0, None);
    let v2 = Version::new(1, 0, 1, None);
    let v3 = Version::new(1, 1, 0, None);
    let v4 = Version::new(2, 0, 0, None);

    assert!(v1 < v2);
    assert!(v2 < v3);
    assert!(v3 < v4);
    assert!(v1 < v3);
    assert!(v1 < v4);
    assert!(v2 < v4);
}

#[test]
fn version_compare_with_pre_release() {
    let v1 = Version::new(0, 1, 0, None);
    let v2 = Version::new(1, 0, 0, Some("alpha".to_string()));
    let v3 = Version::new(1, 0, 0, None);
    let v4 = Version::new(1, 0, 1, None);

    assert!(v1 < v2);
    assert!(v2 < v3);
    assert!(v3 < v4);
    assert!(v1 < v3);
    assert!(v1 < v4);
    assert!(v2 < v4);
}

#[test]
fn pre_release_sorts_before_release() {
    let tagged = Version::new(1, 0, 0, Some("alpha".to_string()));
    let release = Version::new(1, 0, 0, None);
    let patched = Version::new(1, 0, 1, None);
    assert!(release > tagged);
    assert!(release < patched);
    assert!(tagged.earlier_than(&release));
    assert!(release.later_than(&tagged));
}

#[test]
fn version_parse_accepts_canonical_forms() {
    let v = Version::parse("1.2.3").unwrap();
    assert_eq!((v.major, v.minor, v.patch), (1, 2, 3));
    assert_eq!(v.pre_release, None);

    let v = Version::parse("v1.2.3").unwrap();
    assert_eq!((v.major, v.minor, v.patch), (1, 2, 3));

    let v = Version::parse("1.2").unwrap();
    assert_eq!((v.major, v.minor, v.patch), (1, 2, 0));

    let v = Version::parse("1.2.3-alpha").unwrap();
    assert_eq!((v.major, v.minor, v.patch), (1, 2, 3));
    assert_eq!(v.pre_release.as_deref(), Some("alpha"));

    let v = Version::parse("1.2-beta_2").unwrap();
    assert_eq!((v.major, v.minor, v.patch), (1, 2, 0));
    assert_eq!(v.pre_release.as_deref(), Some("beta_2"));
}

#[test]
fn version_parse_rejects_malformed() {
    assert!(Version::parse("").is_none());
    assert!(Version::parse("1").is_none());
    assert!(Version::parse("1.").is_none());
    assert!(Version::parse("a.b.c").is_none());
    assert!(Version::parse("1.2.3.4").is_none());
    assert!(Version::parse("1.2-").is_none());
    assert!(Version::parse("1.2-0tag").is_none());
    assert!(Version::parse("01.2.3").is_none());
    assert!(Version::parse("1.2.3 ").is_none());
    assert!(Version::parse("99999999999.0").is_none());
}

#[test]
fn version_validate_matches_parse() {
    assert!(Version::validate("1.2.3"));
    assert!(Version::validate("v0.15.0"));
    assert!(!Version::validate("not-a-version"));
}

#[test]
fn version_string_roundtrip() {
    for s in ["1.2.3", "0.1.0", "10.20.30", "1.2.3-alpha", "4.0.0-rc1"] {
        let v = Version::parse(s).unwrap();
        assert_eq!(v.to_fancy_string(), s);
    }
    // a defaulted patch normalizes to an explicit zero
    let v = Version::parse("1.2").unwrap();
    assert_eq!(v.to_fancy_string(), "1.2.0");
}

#[test]
fn version_family_projections() {
    let v = Version::parse("2.5.7-beta").unwrap();
    assert_eq!(v.get_major().to_fancy_string(), "2.0.0");
    assert_eq!(v.get_minor().to_fancy_string(), "2.5.0");
    assert_eq!(v.get_patch().to_fancy_string(), "2.5.7");
}

#[test]
fn version_equality_reads_text() {
    let a = Version::new(1, 2, 3, Some("x".to_string()));
    let b = Version::new(1, 2, 3, Some("x".to_string()));
    let c = Version::new(1, 2, 3, None);
    assert!(a.equals(&b));
    assert!(!a.equals(&c));
    assert!(a == b);
}
