//! Workspace assembly: turns the plain package records returned by the
//! external metadata query into a validated [`Workspace`] value.
//!
//! Packages marked "do not publish" (an empty registry list) are
//! excluded entirely; declared dependency names are filtered to those
//! that are also workspace package names, so only intra-workspace
//! edges remain. Paths are plain slash-separated strings.

use vstd::prelude::*;
use crate::errors::ErrorKind;
use crate::errors::UniverError;
use crate::model::Dependency;
use crate::model::Member;
use crate::model::MemberModel;
use crate::model::Workspace;
use crate::model::distinct_names;
use crate::model::member_names;

verus! {

/// One workspace package as reported by the external metadata query:
/// plain values only.
#[derive(Debug)]
pub struct PackageRecord {
    /// Package name.
    pub name: String,
    /// Package version, with workspace inheritance already resolved.
    pub version: String,
    /// Path to the package's manifest file, slash-separated.
    pub manifest_path: String,
    /// Allowed publish registries: `None` means unrestricted,
    /// an empty list means "never publish".
    pub publish: Option<Vec<String>>,
    /// Names of all declared dependencies, workspace members or not.
    pub dependency_names: Vec<String>,
}

/// The package may be published at all.
pub open spec fn publish_eligible(p: PackageRecord) -> bool {
    match p.publish {
        None => true,
        Some(registries) => registries@.len() > 0,
    }
}

/// The names of all packages of the workspace, in record order.
pub open spec fn record_names(packages: Seq<PackageRecord>) -> Seq<Seq<char>> {
    packages.map_values(|p: PackageRecord| p.name@)
}

/// Length of the parent directory of a slash-separated path: the
/// position of its last slash, or `-1` when it has none.
pub open spec fn parent_len(p: Seq<char>) -> int
    decreases p.len(),
{
    if p.len() == 0 {
        -1
    } else if p[p.len() - 1] == '/' {
        p.len() - 1
    } else {
        parent_len(p.drop_last())
    }
}

/// Parent directory of a slash-separated path, when it has one.
pub open spec fn parent_dir_spec(p: Seq<char>) -> Option<Seq<char>> {
    if parent_len(p) >= 0 {
        Some(p.subrange(0, parent_len(p)))
    } else {
        None
    }
}

/// The path `p` made relative to `root`: empty when they are equal,
/// the remainder after `root` and one separator when `root` is a
/// directory prefix, absent otherwise.
pub open spec fn strip_prefix_spec(p: Seq<char>, root: Seq<char>) -> Option<Seq<char>> {
    if p == root {
        Some(Seq::empty())
    } else if p.len() > root.len() && p.subrange(0, root.len() as int) == root && p[root.len() as int]
        == '/' {
        Some(p.skip(root.len() + 1int))
    } else {
        None
    }
}

/// Every backslash replaced by a forward slash.
pub open spec fn forward_slashed(s: Seq<char>) -> Seq<char> {
    s.map_values(
        |c: char|
            if c == '\\' {
                '/'
            } else {
                c
            },
    )
}

/// The member built from one eligible package record.
pub open spec fn member_model_of(
    p: PackageRecord,
    dir: Seq<char>,
    rel: Seq<char>,
    names: Seq<Seq<char>>,
) -> MemberModel {
    MemberModel {
        name: p.name@,
        version: p.version@,
        manifest_path: p.manifest_path@,
        manifest_dir: dir,
        path: forward_slashed(rel),
        dependencies: p.dependency_names.deep_view().filter(|d: Seq<char>| names.contains(d)),
    }
}

/// The member list built from the package records, in record order:
/// ineligible packages are dropped, and each remaining package must
/// have a parent directory inside the workspace root.
pub open spec fn built_members(
    packages: Seq<PackageRecord>,
    root: Seq<char>,
    names: Seq<Seq<char>>,
) -> Result<Seq<MemberModel>, Seq<char>>
    decreases packages.len(),
{
    if packages.len() == 0 {
        Ok(Seq::empty())
    } else if !publish_eligible(packages[0]) {
        built_members(packages.drop_first(), root, names)
    } else {
        match parent_dir_spec(packages[0].manifest_path@) {
            None => Err("no parent path"@),
            Some(dir) => match strip_prefix_spec(dir, root) {
                None => Err("prefix not found"@),
                Some(rel) => match built_members(packages.drop_first(), root, names) {
                    Err(msg) => Err(msg),
                    Ok(rest) => Ok(
                        seq![member_model_of(packages[0], dir, rel, names)] + rest,
                    ),
                },
            },
        }
    }
}

/// Message naming a package that appears twice in the workspace.
pub open spec fn duplicate_name_message(name: Seq<char>) -> Seq<char> {
    "duplicate package name '"@ + name + "' in workspace"@
}

/// Returns the parent directory of a slash-separated path.
fn parent_dir(p: &String) -> (r: Option<String>)
    ensures
        (match r {
            Some(d) => parent_dir_spec(p@) == Some(d@),
            None => parent_dir_spec(p@) is None,
        }),
{
    let s = p.as_str();
    let n = s.unicode_len();
    let mut i: usize = n;
    proof {
        assert(p@.subrange(0, n as int) =~= p@);
    }
    while i > 0
        invariant
            n == p@.len(),
            i <= n,
            s@ == p@,
            parent_len(p@) == parent_len(p@.subrange(0, i as int)),
        decreases i,
    {
        if s.get_char(i - 1) == '/' {
            proof {
                assert(p@.subrange(0, i as int)[i - 1] == p@[i - 1]);
            }
            let d = s.substring_char(0, i - 1).to_owned();
            proof {
                assert(parent_len(p@.subrange(0, i as int)) == i - 1);
                assert(d@ =~= p@.subrange(0, i - 1));
            }
            return Some(d);
        }
        proof {
            assert(p@.subrange(0, i as int)[i - 1] == p@[i - 1]);
            assert(p@.subrange(0, i as int).drop_last() =~= p@.subrange(0, i - 1));
        }
        i -= 1;
    }
    proof {
        assert(p@.subrange(0, 0) =~= Seq::<char>::empty());
    }
    None
}

/// Returns `p` made relative to the directory `root`.
fn strip_prefix(p: &String, root: &String) -> (r: Option<String>)
    ensures
        (match r {
            Some(rel) => strip_prefix_spec(p@, root@) == Some(rel@),
            None => strip_prefix_spec(p@, root@) is None,
        }),
{
    if p.eq(root) {
        let empty = String::new();
        return Some(empty);
    }
    let s = p.as_str();
    let r = root.as_str();
    let n = s.unicode_len();
    let m = r.unicode_len();
    if n <= m {
        return None;
    }
    let mut i: usize = 0;
    while i < m
        invariant
            n == p@.len(),
            m == root@.len(),
            m < n,
            s@ == p@,
            r@ == root@,
            i <= m,
            forall|x: int| 0 <= x < i ==> p@[x] == root@[x],
        decreases m - i,
    {
        if s.get_char(i) != r.get_char(i) {
            proof {
                assert(!(p@.subrange(0, m as int) == root@)) by {
                    if p@.subrange(0, m as int) == root@ {
                        assert(p@.subrange(0, m as int)[i as int] == p@[i as int]);
                    }
                }
            }
            return None;
        }
        i += 1;
    }
    if s.get_char(m) != '/' {
        proof {
            assert(p@ != root@);
        }
        return None;
    }
    let rel = s.substring_char(m + 1, n).to_owned();
    proof {
        assert(p@.subrange(0, m as int) =~= root@);
        assert(rel@ =~= p@.skip(m + 1));
    }
    Some(rel)
}

/// Replaces every backslash in `s` with a forward slash.
fn forward_slashes(s: &String) -> (r: String)
    ensures
        r@ == forward_slashed(s@),
{
    let t = s.as_str();
    let n = t.unicode_len();
    let mut out = String::new();
    let mut i: usize = 0;
    while i < n
        invariant
            n == s@.len(),
            t@ == s@,
            i <= n,
            out@ =~= forward_slashed(s@.subrange(0, i as int)),
        decreases n - i,
    {
        if t.get_char(i) == '\\' {
            out.append("/");
            proof {
                reveal_strlit("/");
            }
        } else {
            out.append(t.substring_char(i, i + 1));
            proof {
                assert(t@.subrange(i as int, i + 1) =~= seq![s@[i as int]]);
            }
        }
        proof {
            assert(out@ =~= forward_slashed(s@.subrange(0, i + 1)));
        }
        i += 1;
    }
    proof {
        assert(s@.subrange(0, n as int) =~= s@);
    }
    out
}

/// Tests whether `name` is the name of one of the packages.
fn name_in_records(packages: &Vec<PackageRecord>, name: &String) -> (b: bool)
    ensures
        b == record_names(packages@).contains(name@),
{
    let mut i: usize = 0;
    while i < packages.len()
        invariant
            i <= packages@.len(),
            forall|x: int| 0 <= x < i ==> (#[trigger] packages@[x]).name@ != name@,
        decreases packages@.len() - i,
    {
        if packages[i].name.eq(name) {
            proof {
                assert(record_names(packages@)[i as int] == name@);
            }
            return true;
        }
        i += 1;
    }
    proof {
        assert(!record_names(packages@).contains(name@)) by {
            if record_names(packages@).contains(name@) {
                let x = choose|x: int|
                    0 <= x < record_names(packages@).len() && record_names(packages@)[x] == name@;
                assert(packages@[x].name@ == name@);
            }
        }
    }
    false
}

/// Builds the dependency list of one package: its declared dependency
/// names filtered to workspace package names.
fn build_dependencies(packages: &Vec<PackageRecord>, record: &PackageRecord) -> (deps: Vec<
    Dependency,
>)
    ensures
        deps.deep_view() == record.dependency_names.deep_view().filter(
            |d: Seq<char>| record_names(packages@).contains(d),
        ),
{
    let ghost names = record_names(packages@);
    let ghost all = record.dependency_names.deep_view();
    let ghost pred = |d: Seq<char>| record_names(packages@).contains(d);
    let mut deps: Vec<Dependency> = Vec::new();
    let mut i: usize = 0;
    proof {
        reveal(Seq::filter);
        assert(all.subrange(0, 0).filter(pred) =~= Seq::<Seq<char>>::empty());
    }
    while i < record.dependency_names.len()
        invariant
            all == record.dependency_names.deep_view(),
            all.len() == record.dependency_names@.len(),
            pred == (|d: Seq<char>| record_names(packages@).contains(d)),
            i <= record.dependency_names@.len(),
            deps.deep_view() == all.subrange(0, i as int).filter(pred),
        decreases record.dependency_names@.len() - i,
    {
        let name = &record.dependency_names[i];
        proof {
            assert(all[i as int] == name@);
        }
        let ghost dv0 = deps.deep_view();
        if name_in_records(packages, name) {
            deps.push(Dependency { name: name.clone() });
            proof {
                reveal(Seq::filter);
                assert(deps.deep_view() =~= dv0.push(all[i as int]));
                assert(all.subrange(0, i + 1).drop_last() =~= all.subrange(0, i as int));
                assert(all.subrange(0, i + 1).last() == all[i as int]);
                assert(deps.deep_view() =~= all.subrange(0, i + 1).filter(pred));
            }
        } else {
            proof {
                reveal(Seq::filter);
                assert(all.subrange(0, i + 1).drop_last() =~= all.subrange(0, i as int));
                assert(all.subrange(0, i + 1).last() == all[i as int]);
                assert(deps.deep_view() =~= all.subrange(0, i + 1).filter(pred));
            }
        }
        i += 1;
    }
    proof {
        assert(all.subrange(0, all.len() as int) =~= all);
    }
    deps
}

/// Builds the member list from the package records: ineligible
/// packages are dropped, paths are made workspace-relative and
/// forward-slashed, and dependency names are filtered to workspace
/// package names.
pub fn build_members(packages: &Vec<PackageRecord>, workspace_root: &String) -> (r: Result<
    Vec<Member>,
    UniverError,
>)
    ensures
        (match r {
            Ok(v) => built_members(packages@, workspace_root@, record_names(packages@)) == Ok::<
                Seq<MemberModel>,
                Seq<char>,
            >(v.deep_view()),
            Err(e) => e.kind == ErrorKind::ExternalTool && built_members(
                packages@,
                workspace_root@,
                record_names(packages@),
            ) == Err::<Seq<MemberModel>, Seq<char>>(e.message@),
        }),
{
    let ghost all = packages@;
    let ghost names = record_names(packages@);
    let ghost root = workspace_root@;
    let mut members: Vec<Member> = Vec::new();
    let mut i: usize = 0;
    proof {
        assert(all.skip(0) =~= all);
        assert(members.deep_view() =~= Seq::<MemberModel>::empty());
    }
    while i < packages.len()
        invariant
            all == packages@,
            names == record_names(packages@),
            root == workspace_root@,
            i <= all.len(),
            built_members(all, root, names) == (match built_members(
                all.skip(i as int),
                root,
                names,
            ) {
                Ok(rest) => Ok::<Seq<MemberModel>, Seq<char>>(members.deep_view() + rest),
                Err(msg) => Err::<Seq<MemberModel>, Seq<char>>(msg),
            }),
        decreases all.len() - i,
    {
        let record = &packages[i];
        proof {
            assert(all.skip(i as int)[0] == all[i as int]);
            assert(all.skip(i as int).drop_first() =~= all.skip(i + 1));
        }
        let eligible = match &record.publish {
            None => true,
            Some(registries) => registries.len() > 0,
        };
        if eligible {
            let dir = match parent_dir(&record.manifest_path) {
                Some(d) => d,
                None => {
                    return Err(
                        UniverError::new(
                            ErrorKind::ExternalTool,
                            String::from_str("no parent path"),
                        ),
                    );
                },
            };
            let rel = match strip_prefix(&dir, workspace_root) {
                Some(rel) => rel,
                None => {
                    return Err(
                        UniverError::new(
                            ErrorKind::ExternalTool,
                            String::from_str("prefix not found"),
                        ),
                    );
                },
            };
            let deps = build_dependencies(packages, record);
            let ghost dv0 = members.deep_view();
            let member = Member {
                name: record.name.clone(),
                version: record.version.clone(),
                manifest_path: record.manifest_path.clone(),
                manifest_dir: dir,
                path: forward_slashes(&rel),
                dependencies: deps,
            };
            proof {
                assert(member@ =~= member_model_of(all[i as int], dir@, rel@, names));
            }
            members.push(member);
            proof {
                assert(members.deep_view() =~= dv0.push(
                    member_model_of(all[i as int], dir@, rel@, names),
                ));
                assert(dv0 + (seq![member_model_of(all[i as int], dir@, rel@, names)]
                    + built_members(all.skip(i + 1), root, names)->Ok_0) =~= members.deep_view()
                    + built_members(all.skip(i + 1), root, names)->Ok_0);
            }
        }
        i += 1;
    }
    proof {
        assert(all.skip(all.len() as int) =~= Seq::<PackageRecord>::empty());
        assert(members.deep_view() + Seq::<MemberModel>::empty() =~= members.deep_view());
    }
    Ok(members)
}

/// Looks for a member name that appears twice; returns the position of
/// the first repeated occurrence.
fn find_duplicate_name(members: &Vec<Member>) -> (r: Option<usize>)
    ensures
        (match r {
            Some(i) => {
                &&& i < members@.len()
                &&& exists|j: int|
                    0 <= j < i && members.deep_view()[j].name == members.deep_view()[i as int].name
                &&& !distinct_names(members.deep_view())
            },
            None => distinct_names(members.deep_view()),
        }),
{
    let ghost ms = members.deep_view();
    let mut i: usize = 0;
    while i < members.len()
        invariant
            ms == members.deep_view(),
            i <= members@.len(),
            forall|a: int, b: int|
                0 <= a < b < i ==> (#[trigger] ms[a]).name != (#[trigger] ms[b]).name,
        decreases members@.len() - i,
    {
        let mut j: usize = 0;
        while j < i
            invariant
                ms == members.deep_view(),
                j <= i < members@.len(),
                forall|b: int| 0 <= b < j ==> (#[trigger] ms[b]).name != ms[i as int].name,
            decreases i - j,
        {
            if members[j].name.eq(&members[i].name) {
                proof {
                    assert(member_names(ms)[j as int] == member_names(ms)[i as int]);
                    assert(ms[j as int].name == ms[i as int].name);
                }
                return Some(i);
            }
            j += 1;
        }
        i += 1;
    }
    proof {
        assert forall|a: int, b: int|
            0 <= a < member_names(ms).len() && 0 <= b < member_names(ms).len() && a != b implies
            member_names(ms)[a] != member_names(ms)[b] by {
            if a < b {
                assert(ms[a].name != ms[b].name);
            } else {
                assert(ms[b].name != ms[a].name);
            }
        }
    }
    None
}

impl Workspace {
    /// Assembles a validated workspace from the already validated
    /// workspace version, the workspace root directory, and the
    /// package records of the metadata query. Fails when a package
    /// manifest lies outside the workspace root or when two packages
    /// share a name.
    pub fn assemble(
        version: String,
        workspace_root: &String,
        packages: &Vec<PackageRecord>,
    ) -> (r: Result<Workspace, UniverError>)
        ensures
            (match r {
                Ok(w) => {
                    &&& built_members(packages@, workspace_root@, record_names(packages@))
                        == Ok::<Seq<MemberModel>, Seq<char>>(w.members.deep_view())
                    &&& w.wf()
                    &&& w.version@ == version@
                    &&& w.manifest_path@ == workspace_root@ + "/Cargo.toml"@
                },
                Err(e) => {
                    ||| (e.kind == ErrorKind::ExternalTool && built_members(
                        packages@,
                        workspace_root@,
                        record_names(packages@),
                    ) == Err::<Seq<MemberModel>, Seq<char>>(e.message@))
                    ||| (e.kind == ErrorKind::Validation && built_members(
                        packages@,
                        workspace_root@,
                        record_names(packages@),
                    ) is Ok && !distinct_names(
                        built_members(
                            packages@,
                            workspace_root@,
                            record_names(packages@),
                        )->Ok_0,
                    ) && exists|i: int|
                        0 <= i < built_members(
                            packages@,
                            workspace_root@,
                            record_names(packages@),
                        )->Ok_0.len() && e.message@ == duplicate_name_message(
                            (#[trigger] built_members(
                                packages@,
                                workspace_root@,
                                record_names(packages@),
                            )->Ok_0[i]).name,
                        ))
                },
            }),
    {
        let members = match build_members(packages, workspace_root) {
            Ok(v) => v,
            Err(e) => {
                return Err(e);
            },
        };
        if let Some(i) = find_duplicate_name(&members) {
            let mut msg = String::from_str("duplicate package name '");
            msg.append(members[i].name.as_str());
            msg.append("' in workspace");
            proof {
                assert(msg@ == duplicate_name_message(members.deep_view()[i as int].name));
            }
            return Err(UniverError::new(ErrorKind::Validation, msg));
        }
        let mut manifest_path = workspace_root.clone();
        manifest_path.append("/Cargo.toml");
        Ok(Workspace { version, manifest_path, members })
    }
}

} // verus!
