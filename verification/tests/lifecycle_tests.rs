use univer::Dependency;
use univer::Member;
use univer::members_to_publish;
use univer::sort;
use univer::to_path_form;
use univer::to_version_form;

fn member(name: &str, deps: &[&str]) -> Member {
    Member {
        name: name.to_string(),
        version: "0.1.0".to_string(),
        manifest_path: format!("/ws/crates/{}/Cargo.toml", name),
        manifest_dir: format!("/ws/crates/{}", name),
        path: format!("crates/{}", name),
        dependencies: deps.iter().map(|d| Dependency { name: d.to_string() }).collect(),
    }
}

#[test]
fn develop_then_publish_walks_the_whole_lifecycle() {
    let a = member("aaa", &[]);
    let b = member("bbb", &["aaa"]);
    let manifest = "[workspace.dependencies]\n\
                    aaa = { version = \"0.1.0\" }\n\
                    bbb = { version = \"0.1.0\" }\n";

    // develop: dependencies are switched to path form, in publish order
    let order = sort(vec![a.clone(), b.clone()]).unwrap();
    let ordered: Vec<&str> = order.iter().map(|m| m.name.as_str()).collect();
    assert_eq!(ordered, vec!["aaa", "bbb"]);
    let mut text = manifest.to_string();
    for m in &order {
        text = to_path_form(&text, m).unwrap();
    }
    assert_eq!(
        text,
        "[workspace.dependencies]\n\
         aaa = { path = \"crates/aaa\" }\n\
         bbb = { path = \"crates/bbb\" }\n"
    );

    // the whole workspace is now a publish candidate, in publish order
    let candidates = members_to_publish(&text, &order).unwrap();
    assert_eq!(candidates.len(), 2);

    // suppose member aaa was already published: its line is back in
    // version form while bbb still references it by path
    let text = to_version_form(&text, &a).unwrap();
    assert_eq!(
        text,
        "[workspace.dependencies]\n\
         aaa = { version = \"0.1.0\" }\n\
         bbb = { path = \"crates/bbb\" }\n"
    );

    // publish: only bbb is still a candidate
    let candidates = members_to_publish(&text, &vec![a.clone(), b.clone()]).unwrap();
    let candidate_names: Vec<&str> = candidates.iter().map(|m| m.name.as_str()).collect();
    assert_eq!(candidate_names, vec!["bbb"]);

    // rewriting bbb leaves aaa untouched and restores the original text
    let mut text = text;
    for m in &candidates {
        text = to_version_form(&text, m).unwrap();
    }
    assert_eq!(text, manifest);
}

#[test]
fn publish_with_no_path_form_members_finds_no_candidates() {
    let a = member("aaa", &[]);
    let b = member("bbb", &["aaa"]);
    let manifest = "[workspace.dependencies]\n\
                    aaa = { version = \"0.1.0\" }\n\
                    bbb = { version = \"0.1.0\" }\n";
    let candidates = members_to_publish(manifest, &vec![a, b]).unwrap();
    assert!(candidates.is_empty());
}

#[test]
fn publish_selection_fails_on_a_malformed_declaration() {
    let a = member("aaa", &[]);
    let manifest = "[workspace.dependencies]\naaa = { version = \"9.9.9\" }\n";
    let e = members_to_publish(manifest, &vec![a]).unwrap_err();
    assert_eq!(e.kind, univer::ErrorKind::NotFound);
}
