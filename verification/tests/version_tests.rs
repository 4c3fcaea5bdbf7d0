use nen::node_version::{FullVersion, InvalidVersionError, NodeVersion};

#[test]
fn major_version() {
    assert_eq!(NodeVersion::try_from("10"), Ok(NodeVersion::Major(10)));
}

#[test]
fn major_minor_version() {
    assert_eq!(NodeVersion::try_from("13.9"), Ok(NodeVersion::MajorMinor(13, 9)));
}

#[test]
fn specific_version() {
    assert_eq!(NodeVersion::try_from("13.9.0"), Ok(NodeVersion::Specific(13, 9, 0)));
}

#[test]
fn invalid_version() {
    assert_eq!(NodeVersion::try_from("19.a"), Err(InvalidVersionError));

    assert_eq!(NodeVersion::try_from(".1"), Err(InvalidVersionError));

    assert_eq!(NodeVersion::try_from("hello world"), Err(InvalidVersionError));
}

#[test]
fn invalid_version_message() {
    assert_eq!(InvalidVersionError.message(), "Invalid Node.js version");
}

#[test]
fn wrong_arity_is_invalid() {
    assert_eq!(NodeVersion::try_from(""), Err(InvalidVersionError));
    assert_eq!(NodeVersion::try_from("1.2.3.4"), Err(InvalidVersionError));
    assert_eq!(NodeVersion::try_from("1."), Err(InvalidVersionError));
    assert_eq!(NodeVersion::try_from("1..2"), Err(InvalidVersionError));
}

#[test]
fn oversized_component_is_invalid() {
    assert_eq!(
        NodeVersion::try_from("99999999999999999999999"),
        Err(InvalidVersionError),
    );
    assert_eq!(NodeVersion::try_from("18446744073709551615"), Ok(NodeVersion::Major(u64::MAX)));
    assert_eq!(NodeVersion::try_from("18446744073709551616"), Err(InvalidVersionError));
}

#[test]
fn version_string_round_trips() {
    let cases = vec![
        NodeVersion::Major(0),
        NodeVersion::Major(14),
        NodeVersion::MajorMinor(13, 9),
        NodeVersion::Specific(12, 3, 4),
        NodeVersion::Specific(10, 0, 0),
    ];
    for v in cases {
        let rendered = v.version_string();
        assert_eq!(NodeVersion::try_from(rendered.as_str()), Ok(v));
    }
}

#[test]
fn full_version_string_form() {
    let v = FullVersion { major: 14, minor: 2, patch: 0 };
    assert_eq!(v.version_string(), String::from("14.2.0"));
    let v = FullVersion { major: 0, minor: 0, patch: 0 };
    assert_eq!(v.version_string(), String::from("0.0.0"));
    let v = FullVersion { major: 120, minor: 45, patch: 600 };
    assert_eq!(v.version_string(), String::from("120.45.600"));
}

#[test]
fn satisfies_compares_named_components() {
    let v = FullVersion { major: 12, minor: 3, patch: 4 };
    assert!(v.satisfies(&NodeVersion::Major(12)));
    assert!(v.satisfies(&NodeVersion::MajorMinor(12, 3)));
    assert!(v.satisfies(&NodeVersion::Specific(12, 3, 4)));
    assert!(!v.satisfies(&NodeVersion::Major(13)));
    assert!(!v.satisfies(&NodeVersion::MajorMinor(12, 4)));
    assert!(!v.satisfies(&NodeVersion::Specific(12, 3, 5)));
}

#[test]
fn order_is_lexicographic() {
    let a = FullVersion { major: 10, minor: 5, patch: 2 };
    let b = FullVersion { major: 12, minor: 1, patch: 0 };
    let c = FullVersion { major: 12, minor: 1, patch: 1 };
    assert!(a.le(&b));
    assert!(b.le(&c));
    assert!(!c.le(&a));
    assert!(a.le(&a));
}

#[test]
fn specifier_fills_missing_components_with_zero() {
    assert_eq!(
        FullVersion::from(NodeVersion::Major(14)),
        FullVersion { major: 14, minor: 0, patch: 0 },
    );
    assert_eq!(
        FullVersion::from(NodeVersion::MajorMinor(14, 2)),
        FullVersion { major: 14, minor: 2, patch: 0 },
    );
    assert_eq!(
        FullVersion::from(NodeVersion::Specific(14, 2, 1)),
        FullVersion { major: 14, minor: 2, patch: 1 },
    );
}
