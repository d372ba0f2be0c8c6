use univer::Dependency;
use univer::ErrorKind;
use univer::Member;
use univer::sort;

fn member(name: &str, deps: &[&str]) -> Member {
    Member {
        name: name.to_string(),
        version: "0.1.0".to_string(),
        manifest_path: format!("/ws/crates/{}/Cargo.toml", name),
        manifest_dir: format!("/ws/crates/{}", name),
        path: format!("crates/{}", name),
        dependencies: deps.iter().map(|d| Dependency { name: d.to_string() }).collect(),
    }
}

fn names(members: &[Member]) -> Vec<String> {
    members.iter().map(|m| m.name.clone()).collect()
}

#[test]
fn dependency_comes_before_dependent() {
    let a = member("aaa", &[]);
    let b = member("bbb", &["aaa"]);
    let sorted = sort(vec![b, a]).unwrap();
    assert_eq!(names(&sorted), vec!["aaa".to_string(), "bbb".to_string()]);
}

#[test]
fn chain_is_sorted_into_publish_order() {
    let a = member("aaa", &["ccc"]);
    let b = member("bbb", &["aaa"]);
    let c = member("ccc", &[]);
    let sorted = sort(vec![a, b, c]).unwrap();
    assert_eq!(
        names(&sorted),
        vec!["ccc".to_string(), "aaa".to_string(), "bbb".to_string()]
    );
}

#[test]
fn diamond_keeps_every_edge_ordered() {
    let top = member("top", &[]);
    let left = member("left", &["top"]);
    let right = member("right", &["top"]);
    let bottom = member("bottom", &["left", "right"]);
    let sorted = sort(vec![bottom, right, left, top]).unwrap();
    let ns = names(&sorted);
    let pos = |n: &str| ns.iter().position(|x| x == n).unwrap();
    assert_eq!(ns.len(), 4);
    assert!(pos("top") < pos("left"));
    assert!(pos("top") < pos("right"));
    assert!(pos("left") < pos("bottom"));
    assert!(pos("right") < pos("bottom"));
}

#[test]
fn sort_is_deterministic_for_the_same_input() {
    let make = || {
        vec![
            member("bbb", &["aaa"]),
            member("ddd", &[]),
            member("aaa", &[]),
            member("ccc", &["ddd", "aaa"]),
        ]
    };
    let first = names(&sort(make()).unwrap());
    let second = names(&sort(make()).unwrap());
    assert_eq!(first, second);
}

#[test]
fn external_dependency_names_are_ignored() {
    let a = member("aaa", &["serde"]);
    let b = member("bbb", &["aaa", "tokio"]);
    let sorted = sort(vec![b, a]).unwrap();
    assert_eq!(names(&sorted), vec!["aaa".to_string(), "bbb".to_string()]);
}

#[test]
fn empty_workspace_sorts_to_empty_order() {
    let sorted = sort(vec![]).unwrap();
    assert!(sorted.is_empty());
}

#[test]
fn two_member_cycle_is_rejected() {
    let a = member("aaa", &["bbb"]);
    let b = member("bbb", &["aaa"]);
    let e = sort(vec![a, b]).unwrap_err();
    assert_eq!(e.kind, ErrorKind::Cycle);
    assert_eq!(e.message, "workspace member dependencies contain a cycle");
}

#[test]
fn self_dependency_is_rejected_as_a_cycle() {
    let a = member("aaa", &["aaa"]);
    let e = sort(vec![a]).unwrap_err();
    assert_eq!(e.kind, ErrorKind::Cycle);
}

#[test]
fn longer_cycle_is_rejected() {
    let a = member("aaa", &["ccc"]);
    let b = member("bbb", &["aaa"]);
    let c = member("ccc", &["bbb"]);
    let d = member("ddd", &[]);
    let e = sort(vec![a, b, c, d]).unwrap_err();
    assert_eq!(e.kind, ErrorKind::Cycle);
}
