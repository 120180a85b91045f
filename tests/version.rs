use govm::version::{GoVersion, ParseError};

#[test]
fn test_parse_version() {
    let v = GoVersion::parse("1.21.5").unwrap();
    assert_eq!(v.major, 1);
    assert_eq!(v.minor, 21);
    assert_eq!(v.patch, 5);
}

#[test]
fn test_parse_with_prefix() {
    let v1 = GoVersion::parse("go1.21.5").unwrap();
    let v2 = GoVersion::parse("v1.21.5").unwrap();
    assert_eq!(v1, v2);
}

#[test]
fn test_version_ordering() {
    let v1 = GoVersion::new(1, 20, 0);
    let v2 = GoVersion::new(1, 21, 0);
    let v3 = GoVersion::new(1, 21, 5);

    assert!(v1 < v2);
    assert!(v2 < v3);
}

#[test]
fn three_spellings_agree() {
    let a = GoVersion::parse("1.22.3").unwrap();
    let b = GoVersion::parse("v1.22.3").unwrap();
    let c = GoVersion::parse("go1.22.3").unwrap();
    assert_eq!(a, GoVersion::new(1, 22, 3));
    assert_eq!(a, b);
    assert_eq!(b, c);
}

#[test]
fn malformed_inputs_are_refused() {
    assert_eq!(GoVersion::parse("1.2"), Err(ParseError::Format("1.2".to_string())));
    assert_eq!(GoVersion::parse("1.2.x"), Err(ParseError::Patch("x".to_string())));
    assert_eq!(GoVersion::parse(""), Err(ParseError::Format("".to_string())));
    assert_eq!(GoVersion::parse("1.2.3.4"), Err(ParseError::Format("1.2.3.4".to_string())));
    assert_eq!(GoVersion::parse("a.2.3"), Err(ParseError::Major("a".to_string())));
    assert_eq!(GoVersion::parse("1..3"), Err(ParseError::Minor("".to_string())));
    assert_eq!(GoVersion::parse("go1.21rc1"), Err(ParseError::Format("go1.21rc1".to_string())));
}

#[test]
fn segment_out_of_range_is_refused() {
    assert_eq!(
        GoVersion::parse("4294967296.0.0"),
        Err(ParseError::Major("4294967296".to_string()))
    );
    assert_eq!(
        GoVersion::parse("4294967295.0.0"),
        Ok(GoVersion::new(4294967295, 0, 0))
    );
}

#[test]
fn whitespace_and_repeated_prefixes_are_dropped() {
    assert_eq!(GoVersion::parse("  v1.21.5\n"), Ok(GoVersion::new(1, 21, 5)));
    assert_eq!(GoVersion::parse("vgo1.2.3"), Ok(GoVersion::new(1, 2, 3)));
    assert_eq!(GoVersion::parse("vv1.2.3"), Ok(GoVersion::new(1, 2, 3)));
    assert_eq!(GoVersion::parse("gogo1.2.3"), Ok(GoVersion::new(1, 2, 3)));
    assert_eq!(GoVersion::parse("vvgogo1.2.3"), Ok(GoVersion::new(1, 2, 3)));
    assert_eq!(GoVersion::parse("+1.02.3"), Ok(GoVersion::new(1, 2, 3)));
    assert_eq!(GoVersion::parse("gov1.2.3"), Err(ParseError::Major("v1".to_string())));
}

#[test]
fn canonical_names() {
    let v = GoVersion::new(1, 21, 5);
    assert_eq!(v.to_dir_name(), "1.21.5");
    assert_eq!(v.to_download_string(), "go1.21.5");
    assert_eq!(GoVersion::new(0, 0, 10).to_dir_name(), "0.0.10");
}

#[test]
fn dir_name_round_trips() {
    for v in [
        GoVersion::new(0, 0, 0),
        GoVersion::new(1, 21, 5),
        GoVersion::new(10, 100, 1000),
        GoVersion::new(u32::MAX, u32::MAX, u32::MAX),
    ] {
        assert_eq!(GoVersion::parse(&v.to_dir_name()), Ok(v));
        assert_eq!(GoVersion::parse(&v.to_download_string()), Ok(v));
    }
}

#[test]
fn compare_is_lexicographic() {
    let a = GoVersion::new(1, 20, 9);
    let b = GoVersion::new(1, 21, 0);
    assert!(a.is_older_than(&b));
    assert!(!b.is_older_than(&a));
    assert_eq!(a.compare(&b), std::cmp::Ordering::Less);
    assert_eq!(b.compare(&a), std::cmp::Ordering::Greater);
    assert_eq!(a.compare(&a), std::cmp::Ordering::Equal);
    assert_eq!(GoVersion::new(2, 0, 0).compare(&GoVersion::new(1, 99, 99)), std::cmp::Ordering::Greater);
}

#[test]
fn from_str_parses() {
    let v: GoVersion = "go1.19.2".parse().unwrap();
    assert_eq!(v, GoVersion::new(1, 19, 2));
}

#[test]
fn parse_error_messages() {
    assert_eq!(
        ParseError::Format("1.2".to_string()).describe(),
        "Invalid version format: 1.2. Expected format: 1.21.5"
    );
    assert_eq!(ParseError::Major("x".to_string()).describe(), "Invalid major version: x");
    assert_eq!(ParseError::Minor("y".to_string()).describe(), "Invalid minor version: y");
    assert_eq!(ParseError::Patch("z".to_string()).describe(), "Invalid patch version: z");
}
