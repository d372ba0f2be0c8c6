use univer::Dependency;
use univer::ErrorKind;
use univer::Member;
use univer::TomlValue;
use univer::validate_member;
use univer::validate_workspace;

fn tbl(entries: Vec<(&str, TomlValue)>) -> TomlValue {
    TomlValue::Table(entries.into_iter().map(|(k, v)| (k.to_string(), v)).collect())
}

fn s(text: &str) -> TomlValue {
    TomlValue::Str(text.to_string())
}

fn workspace_doc(deps: Vec<(&str, TomlValue)>) -> TomlValue {
    tbl(vec![(
        "workspace",
        tbl(vec![
            ("package", tbl(vec![("version", s("1.2.3"))])),
            ("dependencies", tbl(deps)),
        ]),
    )])
}

fn member_bbb() -> Member {
    Member {
        name: "bbb".to_string(),
        version: "1.2.3".to_string(),
        manifest_path: "/ws/crates/bbb/Cargo.toml".to_string(),
        manifest_dir: "/ws/crates/bbb".to_string(),
        path: "crates/bbb".to_string(),
        dependencies: vec![Dependency { name: "aaa".to_string() }],
    }
}

#[test]
fn valid_workspace_yields_its_version() {
    let doc = workspace_doc(vec![
        ("aaa", tbl(vec![("path", s("crates/aaa"))])),
        ("serde", tbl(vec![("version", s("1"))])),
    ]);
    assert_eq!(validate_workspace(&doc).unwrap(), "1.2.3");
}

#[test]
fn missing_workspace_table_is_rejected() {
    let doc = tbl(vec![("package", tbl(vec![]))]);
    let e = validate_workspace(&doc).unwrap_err();
    assert_eq!(e.kind, ErrorKind::Validation);
    assert_eq!(e.message, "missing [workspace] table");
}

#[test]
fn missing_workspace_package_table_is_rejected() {
    let doc = tbl(vec![("workspace", tbl(vec![]))]);
    let e = validate_workspace(&doc).unwrap_err();
    assert_eq!(e.message, "missing [workspace.package] table");
}

#[test]
fn missing_workspace_version_is_rejected() {
    let doc = tbl(vec![("workspace", tbl(vec![("package", tbl(vec![]))]))]);
    let e = validate_workspace(&doc).unwrap_err();
    assert_eq!(e.kind, ErrorKind::Validation);
    assert_eq!(e.message, "missing 'version' in [workspace.package] table");
}

#[test]
fn non_string_workspace_version_is_rejected() {
    let doc = tbl(vec![(
        "workspace",
        tbl(vec![("package", tbl(vec![("version", TomlValue::Bool(true))]))]),
    )]);
    let e = validate_workspace(&doc).unwrap_err();
    assert_eq!(e.message, "'version' is not a string in [workspace.package] table");
}

#[test]
fn missing_dependencies_table_is_rejected() {
    let doc = tbl(vec![(
        "workspace",
        tbl(vec![("package", tbl(vec![("version", s("1.2.3"))]))]),
    )]);
    let e = validate_workspace(&doc).unwrap_err();
    assert_eq!(e.message, "missing [workspace.dependencies] table");
}

#[test]
fn non_table_dependencies_section_is_rejected() {
    let doc = tbl(vec![(
        "workspace",
        tbl(vec![
            ("package", tbl(vec![("version", s("1.2.3"))])),
            ("dependencies", s("oops")),
        ]),
    )]);
    let e = validate_workspace(&doc).unwrap_err();
    assert_eq!(e.message, "[workspace.dependencies] is not a table");
}

#[test]
fn non_string_path_entry_is_rejected() {
    let doc = workspace_doc(vec![("aaa", tbl(vec![("path", TomlValue::Bool(true))]))]);
    let e = validate_workspace(&doc).unwrap_err();
    assert_eq!(
        e.message,
        "'path' is not a string for 'aaa' in [workspace.dependencies] table"
    );
}

#[test]
fn non_string_version_entry_is_rejected() {
    let doc = workspace_doc(vec![("aaa", tbl(vec![("version", TomlValue::Bool(true))]))]);
    let e = validate_workspace(&doc).unwrap_err();
    assert_eq!(
        e.message,
        "'version' is not a string for 'aaa' in [workspace.dependencies] table"
    );
}

#[test]
fn dependency_with_path_and_version_is_rejected() {
    let doc = workspace_doc(vec![
        ("serde", tbl(vec![("version", s("1"))])),
        ("aaa", tbl(vec![("path", s("crates/aaa")), ("version", s("1.2.3"))])),
    ]);
    let e = validate_workspace(&doc).unwrap_err();
    assert_eq!(e.kind, ErrorKind::Validation);
    assert_eq!(
        e.message,
        "dependency 'aaa' has 'path' and 'version' set in [workspace.dependencies] table"
    );
}

#[test]
fn valid_member_manifest_is_accepted() {
    let doc = tbl(vec![
        ("package", tbl(vec![("version", tbl(vec![("workspace", TomlValue::Bool(true))]))])),
        ("dependencies", tbl(vec![
            ("aaa", tbl(vec![("workspace", TomlValue::Bool(true))])),
            ("serde", tbl(vec![("version", s("1"))])),
        ])),
    ]);
    assert!(validate_member(&member_bbb(), &doc).is_ok());
}

#[test]
fn member_without_package_section_is_rejected() {
    let doc = tbl(vec![]);
    let e = validate_member(&member_bbb(), &doc).unwrap_err();
    assert_eq!(e.kind, ErrorKind::Validation);
    assert_eq!(e.message, "missing [package] section in manifest for dependency 'bbb'");
}

#[test]
fn member_with_literal_version_is_rejected() {
    let doc = tbl(vec![("package", tbl(vec![("version", s("1.2.3"))]))]);
    let e = validate_member(&member_bbb(), &doc).unwrap_err();
    assert_eq!(
        e.message,
        "missing [package].version.workspace attribute in manifest for dependency 'bbb'"
    );
}

#[test]
fn member_with_false_version_workspace_flag_is_rejected() {
    let doc = tbl(vec![(
        "package",
        tbl(vec![("version", tbl(vec![("workspace", TomlValue::Bool(false))]))]),
    )]);
    let e = validate_member(&member_bbb(), &doc).unwrap_err();
    assert_eq!(
        e.message,
        "[package].version.workspace attribute in crate 'bbb' must have value 'true'"
    );
}

#[test]
fn member_dependency_without_workspace_flag_is_rejected() {
    let doc = tbl(vec![
        ("package", tbl(vec![("version", tbl(vec![("workspace", TomlValue::Bool(true))]))])),
        ("dependencies", tbl(vec![("aaa", tbl(vec![("version", s("1.2.3"))]))])),
    ]);
    let e = validate_member(&member_bbb(), &doc).unwrap_err();
    assert_eq!(e.message, "missing dependency aaa.workspace attribute in crate 'bbb'");
}

#[test]
fn member_dependency_with_version_override_is_rejected() {
    let doc = tbl(vec![
        ("package", tbl(vec![("version", tbl(vec![("workspace", TomlValue::Bool(true))]))])),
        ("dependencies", tbl(vec![(
            "aaa",
            tbl(vec![("workspace", TomlValue::Bool(true)), ("version", s("1.2.3"))]),
        )])),
    ]);
    let e = validate_member(&member_bbb(), &doc).unwrap_err();
    assert_eq!(e.kind, ErrorKind::Validation);
    assert_eq!(
        e.message,
        "'aaa' dependency must not have 'version' attribute set in crate 'bbb'"
    );
}

#[test]
fn member_dev_dependency_with_path_override_is_rejected() {
    let doc = tbl(vec![
        ("package", tbl(vec![("version", tbl(vec![("workspace", TomlValue::Bool(true))]))])),
        ("dev-dependencies", tbl(vec![(
            "aaa",
            tbl(vec![("workspace", TomlValue::Bool(true)), ("path", s("crates/aaa"))]),
        )])),
    ]);
    let e = validate_member(&member_bbb(), &doc).unwrap_err();
    assert_eq!(
        e.message,
        "'aaa' dependency must not have 'path' attribute set in crate 'bbb'"
    );
}

#[test]
fn unrelated_dependency_entries_are_not_checked() {
    let doc = tbl(vec![
        ("package", tbl(vec![("version", tbl(vec![("workspace", TomlValue::Bool(true))]))])),
        ("dependencies", tbl(vec![("serde", tbl(vec![("version", s("1"))]))])),
    ]);
    assert!(validate_member(&member_bbb(), &doc).is_ok());
}
