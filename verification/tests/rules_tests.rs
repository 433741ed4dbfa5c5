use peer_routing::themis::rules::{
    has_debuggable_rust_version, has_publish_spec, has_rust_version, has_unified_rust_edition,
    is_unversioned,
};
use peer_routing::themis::text::decimal_string;
use peer_routing::themis::{Error, Package, Workspace};
use semver::{Version, VersionReq};

fn package(name: &str, version: &str, rust_version: Option<&str>, edition: &str) -> Package {
    Package {
        name: name.to_string(),
        version: Version::parse(version).unwrap(),
        publish: Some(Vec::new()),
        rust_version: rust_version.map(|r| VersionReq::parse(r).unwrap()),
        edition: edition.to_string(),
    }
}

fn workspace(members: Vec<Package>) -> Workspace {
    Workspace { root: "/ws".to_string(), members }
}

fn names(err: &Error) -> Vec<String> {
    let Error::OutcomeError { outliers, .. } = err;
    outliers.iter().map(|o| o.pkg.name.clone()).collect()
}

fn values(err: &Error) -> Vec<Option<String>> {
    let Error::OutcomeError { outliers, .. } = err;
    outliers.iter().map(|o| o.value.clone()).collect()
}

#[test]
fn decimal_notation() {
    assert_eq!(decimal_string(0), "0");
    assert_eq!(decimal_string(7), "7");
    assert_eq!(decimal_string(10), "10");
    assert_eq!(decimal_string(1203), "1203");
    assert_eq!(decimal_string(9_876_543_210), "9876543210");
    assert_eq!(decimal_string(u64::MAX), "18446744073709551615");
}

#[test]
fn publish_spec() {
    let mut ws = workspace(vec![
        package("a", "0.0.0", None, "2021"),
        package("b", "0.0.0", None, "2021"),
        package("c", "0.0.0", None, "2021"),
    ]);
    assert!(has_publish_spec(&ws).is_ok());
    assert!(has_publish_spec(&workspace(Vec::new())).is_ok());
    ws.members[0].publish = None;
    ws.members[2].publish = None;
    ws.members[1].publish = Some(vec!["crates-io".to_string()]);
    let err = has_publish_spec(&ws).unwrap_err();
    assert_eq!(names(&err), vec!["a", "c"]);
    assert_eq!(values(&err), vec![None, None]);
    let Error::OutcomeError { msg, expected, .. } = err;
    assert_eq!(msg, "These packages should have the `publish` specification");
    let expected = expected.unwrap();
    assert_eq!(expected.value, "publish = <true/false>");
    assert_eq!(expected.reason, None);
}

#[test]
fn rust_version() {
    let ws = workspace(vec![
        package("a", "0.0.0", Some("1.56"), "2021"),
        package("b", "0.0.0", None, "2021"),
    ]);
    // A cargo that does not know the field checks nothing.
    assert!(has_rust_version(&ws, &Version::new(1, 57, 9)).is_ok());
    assert!(has_rust_version(&ws, &Version::parse("1.58.0-beta.1").unwrap()).is_ok());
    for cargo in [Version::new(1, 58, 0), Version::new(1, 60, 0), Version::new(2, 0, 0)] {
        let err = has_rust_version(&ws, &cargo).unwrap_err();
        assert_eq!(names(&err), vec!["b"]);
        assert_eq!(values(&err), vec![None]);
        let Error::OutcomeError { msg, expected, .. } = err;
        assert_eq!(msg, "These packages should specify a Minimum Supported Rust Version (MSRV)");
        assert!(expected.is_none());
    }
    let ws = workspace(vec![package("a", "0.0.0", Some("1.56"), "2021")]);
    assert!(has_rust_version(&ws, &Version::new(1, 60, 0)).is_ok());
}

#[test]
fn unversioned() {
    let ws = workspace(vec![
        package("a", "0.0.0", None, "2021"),
        package("b", "0.1.0", None, "2021"),
        package("c", "0.0.0-alpha.1", None, "2021"),
        package("d", "0.0.0+build.5", None, "2021"),
        package("e", "1.0.0", None, "2021"),
        package("f", "0.0.3-rc.1+x", None, "2021"),
        package("g", "0.0.0", None, "2018"),
    ]);
    let err = is_unversioned(&ws).unwrap_err();
    assert_eq!(names(&err), vec!["b", "c", "d", "e", "f"]);
    assert_eq!(
        values(&err),
        vec![
            Some("0.1.0".to_string()),
            Some("0.0.0-alpha.1".to_string()),
            Some("0.0.0+build.5".to_string()),
            Some("1.0.0".to_string()),
            Some("0.0.3-rc.1+x".to_string()),
        ]
    );
    let Error::OutcomeError { msg, expected, .. } = err;
    assert_eq!(msg, "These packages shouldn't be versioned");
    let expected = expected.unwrap();
    assert_eq!(expected.value, "0.0.0");
    assert_eq!(expected.reason, None);
    let ws = workspace(vec![package("a", "0.0.0", None, "2021")]);
    assert!(is_unversioned(&ws).is_ok());
}

#[test]
fn debuggable_rust_version() {
    let ws = workspace(vec![
        package("a", "0.0.0", Some(">=1.56"), "2021"),
        package("b", "0.0.0", None, "2021"),
        package("c", "0.0.0", Some("1.61.0"), "2021"),
        package("d", "0.0.0", Some("1.60.0"), "2021"),
    ]);
    let err = has_debuggable_rust_version(&ws, "1.60.0").unwrap_err();
    assert_eq!(names(&err), vec!["a", "d"]);
    assert_eq!(values(&err), vec![Some(">=1.56".to_string()), Some("^1.60.0".to_string())]);
    let Error::OutcomeError { msg, expected, .. } = err;
    assert_eq!(msg, "These packages have an incompatible `rust-version`");
    let expected = expected.unwrap();
    assert_eq!(expected.value, "<=1.60.0");
    assert_eq!(expected.reason, Some("as defined in the `rust-toolchain`".to_string()));

    // A channel that is no version cannot be compared.
    assert!(has_debuggable_rust_version(&ws, "stable").is_ok());
    assert!(has_debuggable_rust_version(&ws, "nightly-2022-01-01").is_ok());
    assert!(has_debuggable_rust_version(&ws, "1.60").is_ok());
    assert!(has_debuggable_rust_version(&ws, "1.55.0").is_ok());
    let err = has_debuggable_rust_version(&ws, "1.61.3").unwrap_err();
    assert_eq!(names(&err), vec!["a", "c", "d"]);
}

#[test]
fn unified_rust_edition() {
    let ws = workspace(vec![
        package("a", "0.0.0", None, "2021"),
        package("b", "0.0.0", None, "2018"),
        package("c", "0.0.0", None, "2021"),
        package("d", "0.0.0", None, "2015"),
        package("e", "0.0.0", None, "2021"),
    ]);
    let err = has_unified_rust_edition(&ws).unwrap_err();
    assert_eq!(names(&err), vec!["b", "d"]);
    assert_eq!(values(&err), vec![Some("2018".to_string()), Some("2015".to_string())]);
    let Error::OutcomeError { msg, expected, .. } = err;
    assert_eq!(msg, "These packages have an unexpected rust-edition");
    let expected = expected.unwrap();
    assert_eq!(expected.value, "2021");
    assert_eq!(
        expected.reason,
        Some("used by 3 other packages in the workspace".to_string())
    );

    let ws = workspace(vec![
        package("a", "0.0.0", None, "2018"),
        package("b", "0.0.0", None, "2018"),
    ]);
    assert!(has_unified_rust_edition(&ws).is_ok());
    let ws = workspace(vec![package("a", "0.0.0", None, "2015")]);
    assert!(has_unified_rust_edition(&ws).is_ok());
}

#[test]
fn edition_tie_names_one_of_the_most_used() {
    let ws = workspace(vec![
        package("a", "0.0.0", None, "2018"),
        package("b", "0.0.0", None, "2021"),
        package("c", "0.0.0", None, "2021"),
        package("d", "0.0.0", None, "2018"),
        package("e", "0.0.0", None, "2015"),
    ]);
    let err = has_unified_rust_edition(&ws).unwrap_err();
    let listed = names(&err);
    let Error::OutcomeError { expected, outliers, .. } = err;
    let expected = expected.unwrap();
    assert!(expected.value == "2018" || expected.value == "2021");
    assert_eq!(
        expected.reason,
        Some("used by 2 other packages in the workspace".to_string())
    );
    assert_eq!(outliers.len(), 3);
    if expected.value == "2018" {
        assert_eq!(listed, vec!["b", "c", "e"]);
    } else {
        assert_eq!(listed, vec!["a", "d", "e"]);
    }
}
