//! Workspace data model: members, their dependencies, and the canonical
//! dependency declaration prefixes used by the manifest transformer.

use vstd::prelude::*;

verus! {

/// Reference by name to another workspace member. A weak reference:
/// resolution happens by name lookup, never by handle.
#[derive(Debug)]
pub struct Dependency {
    /// Package name of the referenced member.
    pub name: String,
}

impl View for Dependency {
    type V = Seq<char>;

    open spec fn view(&self) -> Seq<char> {
        self.name@
    }
}

impl DeepView for Dependency {
    type V = Seq<char>;

    open spec fn deep_view(&self) -> Seq<char> {
        self.name@
    }
}

impl Clone for Dependency {
    fn clone(&self) -> (r: Self)
        ensures
            r@ == self@,
    {
        Dependency { name: self.name.clone() }
    }
}

/// Mathematical image of a [`Member`]: every field as a sequence of
/// characters, dependencies as the sequence of referenced names.
#[verifier::ext_equal]
pub struct MemberModel {
    pub name: Seq<char>,
    pub version: Seq<char>,
    pub manifest_path: Seq<char>,
    pub manifest_dir: Seq<char>,
    pub path: Seq<char>,
    pub dependencies: Seq<Seq<char>>,
}

/// One publishable package of the workspace.
#[derive(Debug)]
pub struct Member {
    /// Package name.
    pub name: String,
    /// Package version.
    pub version: String,
    /// Path to the manifest file of this member.
    pub manifest_path: String,
    /// Directory containing the manifest file of this member.
    pub manifest_dir: String,
    /// Package path, relative to the workspace root, forward-slash separated.
    pub path: String,
    /// Dependencies on other members of the same workspace.
    pub dependencies: Vec<Dependency>,
}

impl View for Member {
    type V = MemberModel;

    open spec fn view(&self) -> MemberModel {
        MemberModel {
            name: self.name@,
            version: self.version@,
            manifest_path: self.manifest_path@,
            manifest_dir: self.manifest_dir@,
            path: self.path@,
            dependencies: self.dependencies.deep_view(),
        }
    }
}

impl DeepView for Member {
    type V = MemberModel;

    open spec fn deep_view(&self) -> MemberModel {
        self.view()
    }
}

impl Clone for Member {
    fn clone(&self) -> (r: Self)
        ensures
            r@ == self@,
    {
        let r = Member {
            name: self.name.clone(),
            version: self.version.clone(),
            manifest_path: self.manifest_path.clone(),
            manifest_dir: self.manifest_dir.clone(),
            path: self.path.clone(),
            dependencies: self.dependencies.clone(),
        };
        proof {
            assert(r.dependencies.deep_view() =~= self.dependencies.deep_view());
            assert(r@ =~= self@);
        }
        r
    }
}

/// The version-form prefix of a member's dependency declaration.
pub open spec fn version_pattern(m: MemberModel) -> Seq<char> {
    m.name + " = { version = \""@ + m.version + "\""@
}

/// The path-form prefix of a member's dependency declaration.
pub open spec fn path_pattern(m: MemberModel) -> Seq<char> {
    m.name + " = { path = \""@ + m.path + "\""@
}

impl Member {
    /// Returns the dependency declaration prefix with the release version.
    pub fn dependency_with_version(&self) -> (r: String)
        ensures
            r@ == version_pattern(self@),
    {
        let mut r = self.name.clone();
        r.append(" = { version = \"");
        r.append(self.version.as_str());
        r.append("\"");
        r
    }

    /// Returns the dependency declaration prefix with the local path.
    pub fn dependency_with_path(&self) -> (r: String)
        ensures
            r@ == path_pattern(self@),
    {
        let mut r = self.name.clone();
        r.append(" = { path = \"");
        r.append(self.path.as_str());
        r.append("\"");
        r
    }
}

/// The names of a sequence of member models, in order.
pub open spec fn member_names(ms: Seq<MemberModel>) -> Seq<Seq<char>> {
    ms.map_values(|m: MemberModel| m.name)
}

/// Member names are pairwise distinct: the workspace invariant that
/// makes by-name dependency resolution unambiguous.
pub open spec fn distinct_names(ms: Seq<MemberModel>) -> bool {
    member_names(ms).no_duplicates()
}

/// The aggregate root: one workspace with a shared release version and
/// its publishable members.
#[derive(Debug)]
pub struct Workspace {
    /// Version declared in the workspace-level package section.
    pub version: String,
    /// Path to the workspace manifest file.
    pub manifest_path: String,
    /// Workspace members (publishable packages only).
    pub members: Vec<Member>,
}

impl Workspace {
    /// Well-formed workspace: member names are pairwise distinct.
    pub open spec fn wf(&self) -> bool {
        distinct_names(self.members.deep_view())
    }

    /// Returns the path to the workspace manifest file.
    pub fn manifest_path(&self) -> (r: &String)
        ensures
            r@ == self.manifest_path@,
    {
        &self.manifest_path
    }

    /// Returns the version shared by all members of the workspace.
    pub fn version(&self) -> (r: &String)
        ensures
            r@ == self.version@,
    {
        &self.version
    }
}

} // verus!
