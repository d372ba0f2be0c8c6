use univer::ErrorKind;
use univer::PackageRecord;
use univer::Workspace;

fn record(name: &str, publish: Option<Vec<&str>>, deps: &[&str]) -> PackageRecord {
    PackageRecord {
        name: name.to_string(),
        version: "1.2.3".to_string(),
        manifest_path: format!("/ws/crates/{}/Cargo.toml", name),
        publish: publish.map(|v| v.into_iter().map(|r| r.to_string()).collect()),
        dependency_names: deps.iter().map(|d| d.to_string()).collect(),
    }
}

fn root() -> String {
    "/ws".to_string()
}

#[test]
fn assemble_builds_members_with_relative_paths() {
    let packages = vec![record("aaa", None, &[]), record("bbb", None, &["aaa", "serde"])];
    let w = Workspace::assemble("1.2.3".to_string(), &root(), &packages).unwrap();
    assert_eq!(w.version, "1.2.3");
    assert_eq!(w.manifest_path, "/ws/Cargo.toml");
    assert_eq!(w.members.len(), 2);
    assert_eq!(w.members[0].name, "aaa");
    assert_eq!(w.members[0].path, "crates/aaa");
    assert_eq!(w.members[0].manifest_dir, "/ws/crates/aaa");
    assert_eq!(w.members[1].name, "bbb");
    assert_eq!(w.members[1].dependencies.len(), 1);
    assert_eq!(w.members[1].dependencies[0].name, "aaa");
}

#[test]
fn unpublishable_packages_are_excluded() {
    let packages = vec![
        record("aaa", Some(vec![]), &[]),
        record("bbb", None, &["aaa"]),
        record("ccc", Some(vec!["my-registry"]), &[]),
    ];
    let w = Workspace::assemble("1.2.3".to_string(), &root(), &packages).unwrap();
    let names: Vec<&str> = w.members.iter().map(|m| m.name.as_str()).collect();
    assert_eq!(names, vec!["bbb", "ccc"]);
    // the dependency filter looks at all package names, published or not
    assert_eq!(w.members[0].dependencies.len(), 1);
}

#[test]
fn backslashes_in_the_relative_path_are_normalized() {
    let mut p = record("aaa", None, &[]);
    p.manifest_path = "/ws/win\\style/Cargo.toml".to_string();
    let w = Workspace::assemble("1.2.3".to_string(), &root(), &vec![p]).unwrap();
    assert_eq!(w.members[0].path, "win/style");
    assert_eq!(w.members[0].manifest_dir, "/ws/win\\style");
}

#[test]
fn manifest_without_directory_is_rejected() {
    let mut p = record("aaa", None, &[]);
    p.manifest_path = "Cargo.toml".to_string();
    let e = Workspace::assemble("1.2.3".to_string(), &root(), &vec![p]).unwrap_err();
    assert_eq!(e.kind, ErrorKind::ExternalTool);
    assert_eq!(e.message, "no parent path");
}

#[test]
fn manifest_outside_the_workspace_root_is_rejected() {
    let mut p = record("aaa", None, &[]);
    p.manifest_path = "/elsewhere/aaa/Cargo.toml".to_string();
    let e = Workspace::assemble("1.2.3".to_string(), &root(), &vec![p]).unwrap_err();
    assert_eq!(e.kind, ErrorKind::ExternalTool);
    assert_eq!(e.message, "prefix not found");
}

#[test]
fn duplicate_package_names_are_rejected() {
    let packages = vec![record("aaa", None, &[]), record("aaa", None, &[])];
    let e = Workspace::assemble("1.2.3".to_string(), &root(), &packages).unwrap_err();
    assert_eq!(e.kind, ErrorKind::Validation);
    assert_eq!(e.message, "duplicate package name 'aaa' in workspace");
}

#[test]
fn member_directly_in_the_root_keeps_a_simple_path() {
    let mut p = record("aaa", None, &[]);
    p.manifest_path = "/ws/aaa/Cargo.toml".to_string();
    let w = Workspace::assemble("1.2.3".to_string(), &root(), &vec![p]).unwrap();
    assert_eq!(w.members[0].path, "aaa");
}
