use univer::ErrorKind;
use univer::Member;
use univer::to_path_form;
use univer::to_version_form;

fn member(name: &str, version: &str, path: &str) -> Member {
    Member {
        name: name.to_string(),
        version: version.to_string(),
        manifest_path: format!("/ws/{}/Cargo.toml", path),
        manifest_dir: format!("/ws/{}", path),
        path: path.to_string(),
        dependencies: vec![],
    }
}

#[test]
fn dependency_prefixes_have_expected_shape() {
    let m = member("aaa", "0.1.0", "crates/aaa");
    assert_eq!(m.dependency_with_version(), "aaa = { version = \"0.1.0\"");
    assert_eq!(m.dependency_with_path(), "aaa = { path = \"crates/aaa\"");
}

#[test]
fn to_path_form_rewrites_version_declaration() {
    let m = member("aaa", "0.1.0", "crates/aaa");
    let text = "[workspace.dependencies]\naaa = { version = \"0.1.0\" }\n";
    let rewritten = to_path_form(text, &m).unwrap();
    assert_eq!(rewritten, "[workspace.dependencies]\naaa = { path = \"crates/aaa\" }\n");
}

#[test]
fn to_path_form_rewrites_every_occurrence() {
    let m = member("aaa", "0.1.0", "crates/aaa");
    let text = "aaa = { version = \"0.1.0\" }\naaa = { version = \"0.1.0\", default-features = false }\n";
    let rewritten = to_path_form(text, &m).unwrap();
    assert_eq!(
        rewritten,
        "aaa = { path = \"crates/aaa\" }\naaa = { path = \"crates/aaa\", default-features = false }\n"
    );
}

#[test]
fn round_trip_restores_original_text() {
    let m = member("aaa", "0.1.0", "crates/aaa");
    let text = "# tools\naaa = { version = \"0.1.0\" }\nserde = { version = \"1\" }\n";
    let developed = to_path_form(text, &m).unwrap();
    let published = to_version_form(&developed, &m).unwrap();
    assert_eq!(published, text);
}

#[test]
fn reverse_round_trip_restores_original_text() {
    let m = member("aaa", "0.1.0", "crates/aaa");
    let text = "aaa = { path = \"crates/aaa\" }\n";
    let published = to_version_form(text, &m).unwrap();
    assert_eq!(published, "aaa = { version = \"0.1.0\" }\n");
    let developed = to_path_form(&published, &m).unwrap();
    assert_eq!(developed, text);
}

#[test]
fn to_version_form_is_a_noop_when_already_in_version_form() {
    let m = member("aaa", "0.1.0", "crates/aaa");
    let text = "aaa = { version = \"0.1.0\" }\n";
    let once = to_version_form(text, &m).unwrap();
    assert_eq!(once, text);
    let twice = to_version_form(&once, &m).unwrap();
    assert_eq!(twice, once);
}

#[test]
fn to_path_form_fails_when_version_form_is_absent() {
    let m = member("aaa", "0.1.0", "crates/aaa");
    let text = "aaa = { path = \"crates/aaa\" }\n";
    let e = to_path_form(text, &m).unwrap_err();
    assert_eq!(e.kind, ErrorKind::NotFound);
    assert_eq!(
        e.message,
        "dependency 'aaa' with version '0.1.0' not found or has an invalid format, expected: aaa = { version = \"0.1.0\""
    );
}

#[test]
fn to_path_form_twice_in_a_row_fails() {
    let m = member("aaa", "0.1.0", "crates/aaa");
    let text = "aaa = { version = \"0.1.0\" }\n";
    let developed = to_path_form(text, &m).unwrap();
    let e = to_path_form(&developed, &m).unwrap_err();
    assert_eq!(e.kind, ErrorKind::NotFound);
}

#[test]
fn to_version_form_fails_when_both_forms_are_absent() {
    let m = member("aaa", "0.1.0", "crates/aaa");
    let text = "bbb = { version = \"0.1.0\" }\n";
    let e = to_version_form(text, &m).unwrap_err();
    assert_eq!(e.kind, ErrorKind::NotFound);
    assert_eq!(
        e.message,
        "dependency 'aaa' with path 'crates/aaa' not found or has an invalid format, expected: aaa = { path = \"crates/aaa\""
    );
}

#[test]
fn version_mismatch_is_reported_as_not_found() {
    let m = member("aaa", "0.2.0", "crates/aaa");
    let text = "aaa = { version = \"0.1.0\" }\n";
    let e = to_path_form(text, &m).unwrap_err();
    assert_eq!(e.kind, ErrorKind::NotFound);
}
