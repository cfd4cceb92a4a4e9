use scout_audit::contract_import_dependency::TomlValue;
use scout_audit::ink_version::{ink_version_value, remove_quotes, InkVersion, InkVersionError};

fn s(x: &str) -> String {
    String::from(x)
}

fn manifest_with(version: TomlValue) -> TomlValue {
    TomlValue::Table(vec![(
        s("dependencies"),
        TomlValue::Table(vec![(s("ink"), TomlValue::Table(vec![(s("version"), version), (s("default-features"), TomlValue::Other(s("false")))]))]),
    )])
}

#[test]
fn quotes_are_removed() {
    assert_eq!(remove_quotes("\"5.0.0\""), "5.0.0");
    assert_eq!(remove_quotes("a\"b\"\"c"), "abc");
    assert_eq!(remove_quotes(""), "");
}

#[test]
fn version_lookup_goes_through_tables() {
    let m = manifest_with(TomlValue::String(s("4.2.0")));
    assert!(matches!(ink_version_value(&m), Some(TomlValue::String(v)) if v.as_str() == "4.2.0"));
    let plain = TomlValue::Table(vec![(s("dependencies"), TomlValue::Table(vec![(s("ink"), TomlValue::String(s("4.2")))]))]);
    assert!(ink_version_value(&plain).is_none());
    assert!(ink_version_value(&TomlValue::Table(vec![])).is_none());
}

#[test]
fn older_requirement_is_reported_with_both_versions() {
    let m = manifest_with(TomlValue::String(s("4.2.0")));
    let r = InkVersion.check_crate("\"5.0.0\"", &m);
    assert_eq!(r, Ok(Some(s("The latest ink! version is \"5.0.0\", and your version is ^4.2.0"))));
}

#[test]
fn matching_requirement_is_not_reported() {
    let m = manifest_with(TomlValue::String(s("5")));
    assert_eq!(InkVersion.check_crate("\"5.0.0\"", &m), Ok(None));
    let m = manifest_with(TomlValue::String(s(">=4.0")));
    assert_eq!(InkVersion.check_crate("\"5.0.0\"", &m), Ok(None));
}

#[test]
fn missing_ink_dependency_is_not_reported() {
    let m = TomlValue::Table(vec![(s("dependencies"), TomlValue::Table(vec![]))]);
    assert_eq!(InkVersion.check_crate("not a version", &m), Ok(None));
}

#[test]
fn invalid_latest_version_is_an_error() {
    let m = manifest_with(TomlValue::String(s("4.2.0")));
    assert_eq!(InkVersion.check_crate("\"five\"", &m), Err(InkVersionError::InvalidLatestVersion));
}

#[test]
fn invalid_requirement_is_an_error() {
    let m = manifest_with(TomlValue::String(s("four")));
    assert_eq!(InkVersion.check_crate("\"5.0.0\"", &m), Err(InkVersionError::InvalidInkVersion));
    let m = manifest_with(TomlValue::Table(vec![]));
    assert_eq!(InkVersion.check_crate("\"5.0.0\"", &m), Err(InkVersionError::InvalidInkVersion));
}

#[test]
fn requirement_is_read_as_toml_prints_it() {
    // `4"2` prints as a literal string `'4"2'`; without its double quote it still holds the
    // single quotes, which no requirement admits.
    let m = manifest_with(TomlValue::String(s("4\"2")));
    assert_eq!(InkVersion.check_crate("\"42.0.0\"", &m), Err(InkVersionError::InvalidInkVersion));
}

#[test]
fn other_values_are_read_by_their_text() {
    let m = manifest_with(TomlValue::Other(s("5")));
    assert_eq!(InkVersion.check_crate("\"5.1.0\"", &m), Ok(None));
}
