//! Workspace and member manifest validation.
//!
//! The manifest transformer performs blind text substitution, so every
//! structural assumption it makes is checked here up front: the
//! workspace manifest declares a shared string version and a
//! dependencies table whose entries carry either a path or a version
//! (never both), and each member manifest inherits the workspace
//! version and workspace dependency declarations without local
//! overrides. Validation fails fast: the first violation wins.

use vstd::prelude::*;
use crate::errors::ErrorKind;
use crate::errors::UniverError;
use crate::manifest::TomlValue;
use crate::manifest::get;
use crate::model::Member;
use crate::model::MemberModel;

verus! {

/// Message: the `path` entry of a workspace dependency is not a string.
pub open spec fn ws_dep_path_not_string_message(name: Seq<char>) -> Seq<char> {
    "'path' is not a string for '"@ + name + "' in [workspace.dependencies] table"@
}

/// Message: the `version` entry of a workspace dependency is not a string.
pub open spec fn ws_dep_version_not_string_message(name: Seq<char>) -> Seq<char> {
    "'version' is not a string for '"@ + name + "' in [workspace.dependencies] table"@
}

/// Message: a workspace dependency declares both `path` and `version`.
pub open spec fn ws_dep_both_forms_message(name: Seq<char>) -> Seq<char> {
    "dependency '"@ + name + "' has 'path' and 'version' set in [workspace.dependencies] table"@
}

/// First violation in one workspace dependency entry: its `path` and
/// `version` fields, where present, must be strings, and must not both
/// be present.
pub open spec fn ws_dep_entry_error(name: Seq<char>, value: TomlValue) -> Option<Seq<char>> {
    let path = get(value, "path"@);
    let version = get(value, "version"@);
    if path is Some && path->Some_0.as_str_spec() is None {
        Some(ws_dep_path_not_string_message(name))
    } else if version is Some && version->Some_0.as_str_spec() is None {
        Some(ws_dep_version_not_string_message(name))
    } else if path is Some && version is Some {
        Some(ws_dep_both_forms_message(name))
    } else {
        None
    }
}

/// First violation over the workspace dependency entries, in document
/// order.
pub open spec fn ws_deps_error(entries: Seq<(String, TomlValue)>) -> Option<Seq<char>>
    decreases entries.len(),
{
    if entries.len() == 0 {
        None
    } else if ws_dep_entry_error(entries[0].0@, entries[0].1) is Some {
        ws_dep_entry_error(entries[0].0@, entries[0].1)
    } else {
        ws_deps_error(entries.drop_first())
    }
}

/// Outcome of validating a workspace manifest document: the declared
/// workspace version on success, the first violation's message
/// otherwise.
pub open spec fn workspace_validation(doc: TomlValue) -> Result<Seq<char>, Seq<char>> {
    match get(doc, "workspace"@) {
        None => Err("missing [workspace] table"@),
        Some(ws) => match get(ws, "package"@) {
            None => Err("missing [workspace.package] table"@),
            Some(pkg) => match get(pkg, "version"@) {
                None => Err("missing 'version' in [workspace.package] table"@),
                Some(ver) => match ver.as_str_spec() {
                    None => Err("'version' is not a string in [workspace.package] table"@),
                    Some(version) => match get(ws, "dependencies"@) {
                        None => Err("missing [workspace.dependencies] table"@),
                        Some(deps) => match deps {
                            TomlValue::Table(entries) => match ws_deps_error(entries@) {
                                Some(msg) => Err(msg),
                                None => Ok(version),
                            },
                            _ => Err("[workspace.dependencies] is not a table"@),
                        },
                    },
                },
            },
        },
    }
}

/// Builds `p1 + s1 + p2`.
fn compose2(p1: &str, s1: &String, p2: &str) -> (r: String)
    ensures
        r@ == p1@ + s1@ + p2@,
{
    let mut r = String::from_str(p1);
    r.append(s1.as_str());
    r.append(p2);
    r
}

/// Builds `p1 + s1 + p2 + s2 + p3`.
fn compose4(p1: &str, s1: &String, p2: &str, s2: &String, p3: &str) -> (r: String)
    ensures
        r@ == p1@ + s1@ + p2@ + s2@ + p3@,
{
    let mut r = String::from_str(p1);
    r.append(s1.as_str());
    r.append(p2);
    r.append(s2.as_str());
    r.append(p3);
    r
}

/// Builds a validation error with the given message.
fn validation_error(message: String) -> (e: UniverError)
    ensures
        e.kind == ErrorKind::Validation,
        e.message@ == message@,
{
    UniverError::new(ErrorKind::Validation, message)
}

/// Checks one workspace dependency entry.
fn check_ws_dep_entry(name: &String, value: &TomlValue) -> (r: Option<UniverError>)
    ensures
        (match r {
            Some(e) => e.kind == ErrorKind::Validation && ws_dep_entry_error(name@, *value)
                == Some(e.message@),
            None => ws_dep_entry_error(name@, *value) is None,
        }),
{
    let key_path = String::from_str("path");
    let key_version = String::from_str("version");
    let path = value.get(&key_path);
    if let Some(p) = path {
        if p.as_str().is_none() {
            return Some(
                validation_error(
                    compose2(
                        "'path' is not a string for '",
                        name,
                        "' in [workspace.dependencies] table",
                    ),
                ),
            );
        }
    }
    let version = value.get(&key_version);
    if let Some(v) = version {
        if v.as_str().is_none() {
            return Some(
                validation_error(
                    compose2(
                        "'version' is not a string for '",
                        name,
                        "' in [workspace.dependencies] table",
                    ),
                ),
            );
        }
    }
    if path.is_some() && version.is_some() {
        return Some(
            validation_error(
                compose2(
                    "dependency '",
                    name,
                    "' has 'path' and 'version' set in [workspace.dependencies] table",
                ),
            ),
        );
    }
    None
}

/// Validates the workspace manifest document and returns the declared
/// workspace version: the manifest must hold a workspace section with
/// a package sub-section declaring a string `version`, and a
/// dependencies table whose entries each declare `path` or `version`
/// (as strings), never both. The first violation wins.
pub fn validate_workspace(doc: &TomlValue) -> (r: Result<String, UniverError>)
    ensures
        (match r {
            Ok(v) => workspace_validation(*doc) == Ok::<Seq<char>, Seq<char>>(v@),
            Err(e) => e.kind == ErrorKind::Validation && workspace_validation(*doc) == Err::<
                Seq<char>,
                Seq<char>,
            >(e.message@),
        }),
{
    let key_workspace = String::from_str("workspace");
    let key_package = String::from_str("package");
    let key_version = String::from_str("version");
    let key_dependencies = String::from_str("dependencies");
    let ws = match doc.get(&key_workspace) {
        Some(v) => v,
        None => {
            return Err(validation_error(String::from_str("missing [workspace] table")));
        },
    };
    let pkg = match ws.get(&key_package) {
        Some(v) => v,
        None => {
            return Err(validation_error(String::from_str("missing [workspace.package] table")));
        },
    };
    let ver = match pkg.get(&key_version) {
        Some(v) => v,
        None => {
            return Err(
                validation_error(
                    String::from_str("missing 'version' in [workspace.package] table"),
                ),
            );
        },
    };
    let version = match ver.as_str() {
        Some(s) => s.clone(),
        None => {
            return Err(
                validation_error(
                    String::from_str("'version' is not a string in [workspace.package] table"),
                ),
            );
        },
    };
    let deps = match ws.get(&key_dependencies) {
        Some(v) => v,
        None => {
            return Err(
                validation_error(String::from_str("missing [workspace.dependencies] table")),
            );
        },
    };
    let entries = match deps {
        TomlValue::Table(entries) => entries,
        _ => {
            return Err(
                validation_error(String::from_str("[workspace.dependencies] is not a table")),
            );
        },
    };
    let ghost all = entries@;
    let mut i: usize = 0;
    proof {
        assert(all.skip(0) =~= all);
        assert(deps is Table && deps->Table_0 == *entries);
        assert(workspace_validation(*doc) == (match ws_deps_error(all) {
            Some(msg) => Err::<Seq<char>, Seq<char>>(msg),
            None => Ok::<Seq<char>, Seq<char>>(version@),
        }));
    }
    while i < entries.len()
        invariant
            all == entries@,
            i <= all.len(),
            ws_deps_error(all) == ws_deps_error(all.skip(i as int)),
            workspace_validation(*doc) == (match ws_deps_error(all) {
                Some(msg) => Err::<Seq<char>, Seq<char>>(msg),
                None => Ok::<Seq<char>, Seq<char>>(version@),
            }),
        decreases all.len() - i,
    {
        let entry = &entries[i];
        if let Some(e) = check_ws_dep_entry(&entry.0, &entry.1) {
            proof {
                assert(all.skip(i as int)[0] == all[i as int]);
            }
            return Err(e);
        }
        proof {
            assert(all.skip(i as int)[0] == all[i as int]);
            assert(all.skip(i as int).drop_first() =~= all.skip(i + 1));
        }
        i += 1;
    }
    proof {
        assert(all.skip(all.len() as int) =~= Seq::<(String, TomlValue)>::empty());
    }
    Ok(version)
}

/// Message: the member manifest has no package section.
pub open spec fn missing_package_section_message(name: Seq<char>) -> Seq<char> {
    "missing [package] section in manifest for dependency '"@ + name + "'"@
}

/// Message: the member manifest package section has no version entry.
pub open spec fn missing_package_version_message(name: Seq<char>) -> Seq<char> {
    "missing [package].version attribute in manifest for dependency '"@ + name + "'"@
}

/// Message: the member version entry has no workspace attribute.
pub open spec fn missing_version_workspace_message(name: Seq<char>) -> Seq<char> {
    "missing [package].version.workspace attribute in manifest for dependency '"@ + name + "'"@
}

/// Message: the member version workspace attribute is not a boolean.
pub open spec fn invalid_version_workspace_message(name: Seq<char>) -> Seq<char> {
    "invalid [package].version.workspace attribute in manifest for dependency '"@ + name + "'"@
}

/// Message: the member version workspace attribute is false.
pub open spec fn version_workspace_not_true_message(name: Seq<char>) -> Seq<char> {
    "[package].version.workspace attribute in crate '"@ + name + "' must have value 'true'"@
}

/// Message: the member dependencies section is not a table.
pub open spec fn deps_not_table_message(name: Seq<char>) -> Seq<char> {
    "[dependencies] section is not a table in crate '"@ + name + "'"@
}

/// Message: the member dev-dependencies section is not a table.
pub open spec fn dev_deps_not_table_message(name: Seq<char>) -> Seq<char> {
    "[dev-dependencies] section is not a table in crate '"@ + name + "'"@
}

/// Message: a workspace-referencing dependency entry lacks the
/// workspace attribute.
pub open spec fn missing_dep_workspace_message(key: Seq<char>, name: Seq<char>) -> Seq<char> {
    "missing dependency "@ + key + ".workspace attribute in crate '"@ + name + "'"@
}

/// Message: the workspace attribute of a dependency entry is not a
/// boolean.
pub open spec fn invalid_dep_workspace_message(key: Seq<char>, name: Seq<char>) -> Seq<char> {
    "invalid dependency "@ + key + ".workspace attribute in crate '"@ + name + "'"@
}

/// Message: the workspace attribute of a dependency entry is false.
pub open spec fn dep_workspace_not_true_message(key: Seq<char>, name: Seq<char>) -> Seq<char> {
    "dependency "@ + key + ".workspace attribute in crate '"@ + name + "' must have value 'true'"@
}

/// Message: a workspace-inherited dependency entry also sets a literal
/// version.
pub open spec fn dep_has_version_message(key: Seq<char>, name: Seq<char>) -> Seq<char> {
    "'"@ + key + "' dependency must not have 'version' attribute set in crate '"@ + name + "'"@
}

/// Message: a workspace-inherited dependency entry also sets a literal
/// path.
pub open spec fn dep_has_path_message(key: Seq<char>, name: Seq<char>) -> Seq<char> {
    "'"@ + key + "' dependency must not have 'path' attribute set in crate '"@ + name + "'"@
}

/// The member declares an intra-workspace dependency with this name.
pub open spec fn has_dependency(m: MemberModel, key: Seq<char>) -> bool {
    exists|k: int| 0 <= k < m.dependencies.len() && m.dependencies[k] == key
}

/// First violation in one dependency entry of a member manifest: an
/// entry referencing another workspace member must be marked
/// workspace-inherited and must not override `version` or `path`
/// locally.
pub open spec fn crate_dep_entry_error(key: Seq<char>, value: TomlValue, m: MemberModel) -> Option<
    Seq<char>,
> {
    if !has_dependency(m, key) {
        None
    } else {
        match get(value, "workspace"@) {
            None => Some(missing_dep_workspace_message(key, m.name)),
            Some(w) => match w.as_bool_spec() {
                None => Some(invalid_dep_workspace_message(key, m.name)),
                Some(b) => if !b {
                    Some(dep_workspace_not_true_message(key, m.name))
                } else if get(value, "version"@) is Some {
                    Some(dep_has_version_message(key, m.name))
                } else if get(value, "path"@) is Some {
                    Some(dep_has_path_message(key, m.name))
                } else {
                    None
                },
            },
        }
    }
}

/// First violation over the dependency entries of a member manifest
/// table, in document order.
pub open spec fn crate_deps_error(entries: Seq<(String, TomlValue)>, m: MemberModel) -> Option<
    Seq<char>,
>
    decreases entries.len(),
{
    if entries.len() == 0 {
        None
    } else if crate_dep_entry_error(entries[0].0@, entries[0].1, m) is Some {
        crate_dep_entry_error(entries[0].0@, entries[0].1, m)
    } else {
        crate_deps_error(entries.drop_first(), m)
    }
}

/// First violation in one dependency section (`dependencies` or
/// `dev-dependencies`) of a member manifest; an absent section is fine.
pub open spec fn dep_section_error(
    doc: TomlValue,
    key: Seq<char>,
    not_table_msg: Seq<char>,
    m: MemberModel,
) -> Option<Seq<char>> {
    match get(doc, key) {
        None => None,
        Some(v) => match v {
            TomlValue::Table(entries) => crate_deps_error(entries@, m),
            _ => Some(not_table_msg),
        },
    }
}

/// Outcome of validating one member's manifest document against the
/// member's declared intra-workspace dependencies: `None` when valid,
/// the first violation's message otherwise.
pub open spec fn member_validation(m: MemberModel, doc: TomlValue) -> Option<Seq<char>> {
    match get(doc, "package"@) {
        None => Some(missing_package_section_message(m.name)),
        Some(pkg) => match get(pkg, "version"@) {
            None => Some(missing_package_version_message(m.name)),
            Some(ver) => match get(ver, "workspace"@) {
                None => Some(missing_version_workspace_message(m.name)),
                Some(w) => match w.as_bool_spec() {
                    None => Some(invalid_version_workspace_message(m.name)),
                    Some(b) => if !b {
                        Some(version_workspace_not_true_message(m.name))
                    } else if dep_section_error(
                        doc,
                        "dependencies"@,
                        deps_not_table_message(m.name),
                        m,
                    ) is Some {
                        dep_section_error(doc, "dependencies"@, deps_not_table_message(m.name), m)
                    } else {
                        dep_section_error(
                            doc,
                            "dev-dependencies"@,
                            dev_deps_not_table_message(m.name),
                            m,
                        )
                    },
                },
            },
        },
    }
}

/// Tests whether the member declares an intra-workspace dependency
/// with the given name.
fn member_has_dependency(member: &Member, key: &String) -> (b: bool)
    ensures
        b == has_dependency(member@, key@),
{
    let mut i: usize = 0;
    while i < member.dependencies.len()
        invariant
            i <= member.dependencies@.len(),
            forall|x: int|
                0 <= x < i ==> member@.dependencies[x] != key@,
            member@.dependencies.len() == member.dependencies@.len(),
            forall|x: int|
                0 <= x < member.dependencies@.len() ==> member@.dependencies[x] == (
                #[trigger] member.dependencies@[x]).name@,
        decreases member.dependencies@.len() - i,
    {
        if member.dependencies[i].name.eq(key) {
            return true;
        }
        i += 1;
    }
    false
}

/// Checks one dependency entry of a member manifest table.
fn check_crate_dep_entry(key: &String, value: &TomlValue, member: &Member) -> (r: Option<
    UniverError,
>)
    ensures
        (match r {
            Some(e) => e.kind == ErrorKind::Validation && crate_dep_entry_error(
                key@,
                *value,
                member@,
            ) == Some(e.message@),
            None => crate_dep_entry_error(key@, *value, member@) is None,
        }),
{
    if !member_has_dependency(member, key) {
        return None;
    }
    let key_workspace = String::from_str("workspace");
    let key_version = String::from_str("version");
    let key_path = String::from_str("path");
    let w = match value.get(&key_workspace) {
        Some(v) => v,
        None => {
            return Some(
                validation_error(
                    compose4(
                        "missing dependency ",
                        key,
                        ".workspace attribute in crate '",
                        &member.name,
                        "'",
                    ),
                ),
            );
        },
    };
    let b = match w.as_bool() {
        Some(b) => b,
        None => {
            return Some(
                validation_error(
                    compose4(
                        "invalid dependency ",
                        key,
                        ".workspace attribute in crate '",
                        &member.name,
                        "'",
                    ),
                ),
            );
        },
    };
    if !b {
        return Some(
            validation_error(
                compose4(
                    "dependency ",
                    key,
                    ".workspace attribute in crate '",
                    &member.name,
                    "' must have value 'true'",
                ),
            ),
        );
    }
    if value.get(&key_version).is_some() {
        return Some(
            validation_error(
                compose4(
                    "'",
                    key,
                    "' dependency must not have 'version' attribute set in crate '",
                    &member.name,
                    "'",
                ),
            ),
        );
    }
    if value.get(&key_path).is_some() {
        return Some(
            validation_error(
                compose4(
                    "'",
                    key,
                    "' dependency must not have 'path' attribute set in crate '",
                    &member.name,
                    "'",
                ),
            ),
        );
    }
    None
}

/// Checks every dependency entry of a member manifest table, in order.
fn check_crate_dep_table(entries: &Vec<(String, TomlValue)>, member: &Member) -> (r: Option<
    UniverError,
>)
    ensures
        (match r {
            Some(e) => e.kind == ErrorKind::Validation && crate_deps_error(entries@, member@)
                == Some(e.message@),
            None => crate_deps_error(entries@, member@) is None,
        }),
{
    let ghost all = entries@;
    let mut i: usize = 0;
    proof {
        assert(all.skip(0) =~= all);
    }
    while i < entries.len()
        invariant
            all == entries@,
            i <= all.len(),
            crate_deps_error(all, member@) == crate_deps_error(all.skip(i as int), member@),
        decreases all.len() - i,
    {
        let entry = &entries[i];
        let checked = check_crate_dep_entry(&entry.0, &entry.1, member);
        proof {
            assert(all.skip(i as int)[0] == all[i as int]);
            assert(all.skip(i as int).drop_first() =~= all.skip(i + 1));
        }
        if checked.is_some() {
            return checked;
        }
        i += 1;
    }
    proof {
        assert(all.skip(all.len() as int) =~= Seq::<(String, TomlValue)>::empty());
    }
    None
}

/// Validates one member's manifest document: its package version must
/// inherit the workspace version, and every entry of its dependency
/// tables that references another workspace member must be
/// workspace-inherited, without a literal `version` or `path`
/// override. The first violation wins.
pub fn validate_member(member: &Member, doc: &TomlValue) -> (r: Result<(), UniverError>)
    ensures
        (match r {
            Ok(_) => member_validation(member@, *doc) is None,
            Err(e) => e.kind == ErrorKind::Validation && member_validation(member@, *doc) == Some(
                e.message@,
            ),
        }),
{
    let key_package = String::from_str("package");
    let key_version = String::from_str("version");
    let key_workspace = String::from_str("workspace");
    let key_dependencies = String::from_str("dependencies");
    let key_dev_dependencies = String::from_str("dev-dependencies");
    let pkg = match doc.get(&key_package) {
        Some(v) => v,
        None => {
            return Err(
                validation_error(
                    compose2("missing [package] section in manifest for dependency '",
                    &member.name, "'"),
                ),
            );
        },
    };
    let ver = match pkg.get(&key_version) {
        Some(v) => v,
        None => {
            return Err(
                validation_error(
                    compose2("missing [package].version attribute in manifest for dependency '",
                    &member.name, "'"),
                ),
            );
        },
    };
    let w = match ver.get(&key_workspace) {
        Some(v) => v,
        None => {
            return Err(
                validation_error(
                    compose2(
                        "missing [package].version.workspace attribute in manifest for dependency '",
                        &member.name,
                        "'",
                    ),
                ),
            );
        },
    };
    let b = match w.as_bool() {
        Some(b) => b,
        None => {
            return Err(
                validation_error(
                    compose2(
                        "invalid [package].version.workspace attribute in manifest for dependency '",
                        &member.name,
                        "'",
                    ),
                ),
            );
        },
    };
    if !b {
        return Err(
            validation_error(
                compose2(
                    "[package].version.workspace attribute in crate '",
                    &member.name,
                    "' must have value 'true'",
                ),
            ),
        );
    }
    match doc.get(&key_dependencies) {
        None => {},
        Some(v) => match v {
            TomlValue::Table(entries) => {
                if let Some(e) = check_crate_dep_table(entries, member) {
                    proof {
                        assert(v is Table && v->Table_0 == *entries);
                    }
                    return Err(e);
                }
                proof {
                    assert(v is Table && v->Table_0 == *entries);
                }
            },
            _ => {
                return Err(
                    validation_error(
                        compose2("[dependencies] section is not a table in crate '",
                        &member.name, "'"),
                    ),
                );
            },
        },
    }
    match doc.get(&key_dev_dependencies) {
        None => {},
        Some(v) => match v {
            TomlValue::Table(entries) => {
                if let Some(e) = check_crate_dep_table(entries, member) {
                    proof {
                        assert(v is Table && v->Table_0 == *entries);
                    }
                    return Err(e);
                }
                proof {
                    assert(v is Table && v->Table_0 == *entries);
                }
            },
            _ => {
                return Err(
                    validation_error(
                        compose2("[dev-dependencies] section is not a table in crate '",
                        &member.name, "'"),
                    ),
                );
            },
        },
    }
    Ok(())
}

/// The first violation over workspace dependency entries is the one at
/// `k` when every earlier entry is clean.
proof fn lemma_ws_deps_error_at(entries: Seq<(String, TomlValue)>, k: int)
    requires
        0 <= k < entries.len(),
        forall|j: int|
            0 <= j < k ==> ws_dep_entry_error((#[trigger] entries[j]).0@, entries[j].1) is None,
        ws_dep_entry_error(entries[k].0@, entries[k].1) is Some,
    ensures
        ws_deps_error(entries) == ws_dep_entry_error(entries[k].0@, entries[k].1),
    decreases k,
{
    if k == 0 {
    } else {
        assert(ws_dep_entry_error(entries[0].0@, entries[0].1) is None);
        let rest = entries.drop_first();
        assert forall|j: int|
            0 <= j < k - 1 implies ws_dep_entry_error(
            (#[trigger] rest[j]).0@,
            rest[j].1,
        ) is None by {
            assert(rest[j] == entries[j + 1]);
        }
        assert(rest[k - 1] == entries[k]);
        lemma_ws_deps_error_at(rest, k - 1);
    }
}

/// The dependency entries of the workspace manifest document, for a
/// document whose workspace section holds a dependencies table.
pub open spec fn ws_deps_entries(doc: TomlValue) -> Seq<(String, TomlValue)> {
    get(get(doc, "workspace"@)->Some_0, "dependencies"@)->Some_0->Table_0@
}

/// Validation law: a manifest without a `version` entry in its
/// workspace package section is rejected with the message naming that
/// field.
pub proof fn lemma_missing_version_rejected(doc: TomlValue)
    requires
        get(doc, "workspace"@) is Some,
        get(get(doc, "workspace"@)->Some_0, "package"@) is Some,
        get(get(get(doc, "workspace"@)->Some_0, "package"@)->Some_0, "version"@) is None,
    ensures
        workspace_validation(doc) == Err::<Seq<char>, Seq<char>>(
            "missing 'version' in [workspace.package] table"@,
        ),
{
}

/// Validation law: a workspace dependency entry declaring both `path`
/// and `version` (as strings) is rejected with the message naming that
/// dependency, provided it is the first offending entry.
pub proof fn lemma_dep_with_both_forms_rejected(doc: TomlValue, k: int)
    requires
        get(doc, "workspace"@) is Some,
        get(get(doc, "workspace"@)->Some_0, "package"@) is Some,
        get(get(get(doc, "workspace"@)->Some_0, "package"@)->Some_0, "version"@) is Some,
        get(
            get(get(doc, "workspace"@)->Some_0, "package"@)->Some_0,
            "version"@,
        )->Some_0.as_str_spec() is Some,
        get(get(doc, "workspace"@)->Some_0, "dependencies"@) is Some,
        get(get(doc, "workspace"@)->Some_0, "dependencies"@)->Some_0 is Table,
        0 <= k < ws_deps_entries(doc).len(),
        forall|j: int|
            0 <= j < k ==> ws_dep_entry_error(
                (#[trigger] ws_deps_entries(doc)[j]).0@,
                ws_deps_entries(doc)[j].1,
            ) is None,
        get(ws_deps_entries(doc)[k].1, "path"@) is Some,
        get(ws_deps_entries(doc)[k].1, "path"@)->Some_0.as_str_spec() is Some,
        get(ws_deps_entries(doc)[k].1, "version"@) is Some,
        get(ws_deps_entries(doc)[k].1, "version"@)->Some_0.as_str_spec() is Some,
    ensures
        workspace_validation(doc) == Err::<Seq<char>, Seq<char>>(
            ws_dep_both_forms_message(ws_deps_entries(doc)[k].0@),
        ),
{
    let entries = ws_deps_entries(doc);
    lemma_ws_deps_error_at(entries, k);
}

/// The first violation over member dependency entries is the one at
/// `k` when every earlier entry is clean.
proof fn lemma_crate_deps_error_at(entries: Seq<(String, TomlValue)>, m: MemberModel, k: int)
    requires
        0 <= k < entries.len(),
        forall|j: int|
            0 <= j < k ==> crate_dep_entry_error(
                (#[trigger] entries[j]).0@,
                entries[j].1,
                m,
            ) is None,
        crate_dep_entry_error(entries[k].0@, entries[k].1, m) is Some,
    ensures
        crate_deps_error(entries, m) == crate_dep_entry_error(entries[k].0@, entries[k].1, m),
    decreases k,
{
    if k == 0 {
    } else {
        assert(crate_dep_entry_error(entries[0].0@, entries[0].1, m) is None);
        let rest = entries.drop_first();
        assert forall|j: int|
            0 <= j < k - 1 implies crate_dep_entry_error(
            (#[trigger] rest[j]).0@,
            rest[j].1,
            m,
        ) is None by {
            assert(rest[j] == entries[j + 1]);
        }
        assert(rest[k - 1] == entries[k]);
        lemma_crate_deps_error_at(rest, m, k - 1);
    }
}

/// The entries of the `dependencies` table of a member manifest
/// document, for a document holding one.
pub open spec fn member_deps_entries(doc: TomlValue) -> Seq<(String, TomlValue)> {
    get(doc, "dependencies"@)->Some_0->Table_0@
}

/// Validation law: a member manifest whose dependency entry for
/// another workspace member sets an explicit `version` override
/// (rather than pure workspace inheritance) is rejected with the
/// message naming that member and dependency, provided the member
/// version checks pass and it is the first offending entry.
pub proof fn lemma_member_version_override_rejected(m: MemberModel, doc: TomlValue, k: int)
    requires
        get(doc, "package"@) is Some,
        get(get(doc, "package"@)->Some_0, "version"@) is Some,
        get(get(get(doc, "package"@)->Some_0, "version"@)->Some_0, "workspace"@) is Some,
        get(
            get(get(doc, "package"@)->Some_0, "version"@)->Some_0,
            "workspace"@,
        )->Some_0.as_bool_spec() == Some(true),
        get(doc, "dependencies"@) is Some,
        get(doc, "dependencies"@)->Some_0 is Table,
        0 <= k < member_deps_entries(doc).len(),
        forall|j: int|
            0 <= j < k ==> crate_dep_entry_error(
                (#[trigger] member_deps_entries(doc)[j]).0@,
                member_deps_entries(doc)[j].1,
                m,
            ) is None,
        has_dependency(m, member_deps_entries(doc)[k].0@),
        get(member_deps_entries(doc)[k].1, "workspace"@) is Some,
        get(member_deps_entries(doc)[k].1, "workspace"@)->Some_0.as_bool_spec() == Some(true),
        get(member_deps_entries(doc)[k].1, "version"@) is Some,
    ensures
        member_validation(m, doc) == Some(
            dep_has_version_message(member_deps_entries(doc)[k].0@, m.name),
        ),
{
    let entries = member_deps_entries(doc);
    lemma_crate_deps_error_at(entries, m, k);
}

} // verus!
