//! The canonical manifest model: desired-state declarations for taps,
//! formulae and casks, plus the protection metadata of the shard that
//! declared them.

use vstd::prelude::*;

use crate::util::seq_contains_str;
use crate::validate::{valid_package_name, valid_tap_name};

verus! {

/// The desired state of one package declaration.
#[derive(Debug, Clone, Copy, PartialEq, Eq, Structural)]
pub enum PackageState {
    /// The package must be installed; an installed copy is left alone.
    Present,
    /// The package must not be installed.
    Absent,
    /// The package must be installed and upgraded on every pass.
    Latest,
}

/// One desired-state declaration for a package.  Formula and cask names
/// live in distinct namespaces; the same declaration shape serves both.
#[derive(Debug)]
pub struct PackageDeclaration {
    /// Package name.
    pub name: String,
    /// Requested version, `"latest"` when unpinned.
    pub version: String,
    /// Extra install options; a non-empty list forces an individual,
    /// non-batchable actuator operation.
    pub options: Vec<String>,
    /// Desired state.
    pub state: PackageState,
}

/// Mathematical image of a `PackageDeclaration`.
#[verifier::ext_equal]
pub ghost struct DeclView {
    pub name: Seq<char>,
    pub version: Seq<char>,
    pub options: Seq<Seq<char>>,
    pub state: PackageState,
}

impl View for PackageDeclaration {
    type V = DeclView;

    open spec fn view(&self) -> DeclView {
        DeclView {
            name: self.name@,
            version: self.version@,
            options: self.options.deep_view(),
            state: self.state,
        }
    }
}

impl DeepView for PackageDeclaration {
    type V = DeclView;

    open spec fn deep_view(&self) -> DeclView {
        self.view()
    }
}

impl PackageDeclaration {
    /// Build a declaration from its parts.
    pub fn new(name: String, version: String, options: Vec<String>, state: PackageState) -> (r:
        PackageDeclaration)
        ensures
            r@ == (DeclView {
                name: name@,
                version: version@,
                options: options.deep_view(),
                state: state,
            }),
    {
        PackageDeclaration { name, version, options, state }
    }
}

impl Clone for PackageDeclaration {
    /// Copy the declaration; the copy has the same view.
    fn clone(&self) -> (r: Self)
        ensures
            r@ == self@,
    {
        PackageDeclaration {
            name: self.name.clone(),
            version: self.version.clone(),
            options: crate::util::clone_string_vec(&self.options),
            state: self.state,
        }
    }
}

/// Shard metadata: identity, ownership and protection.
#[derive(Debug)]
pub struct Metadata {
    /// Name of the shard.
    pub name: String,
    /// Brief description of the shard.
    pub description: String,
    /// Owner of the shard.
    pub owner: String,
    /// Whether the shard is protected from modification.
    pub protected: bool,
    /// Shard schema version.
    pub version: String,
    /// Users allowed to modify the shard even when it is protected.
    pub allowed_users: Vec<String>,
    /// Superseded numeric protection level, kept for old documents.
    pub protection_level: u8,
}

/// Mathematical image of `Metadata`.
#[verifier::ext_equal]
pub ghost struct MetadataView {
    pub name: Seq<char>,
    pub description: Seq<char>,
    pub owner: Seq<char>,
    pub protected: bool,
    pub version: Seq<char>,
    pub allowed_users: Seq<Seq<char>>,
    pub protection_level: u8,
}

impl View for Metadata {
    type V = MetadataView;

    open spec fn view(&self) -> MetadataView {
        MetadataView {
            name: self.name@,
            description: self.description@,
            owner: self.owner@,
            protected: self.protected,
            version: self.version@,
            allowed_users: self.allowed_users.deep_view(),
            protection_level: self.protection_level,
        }
    }
}

impl DeepView for Metadata {
    type V = MetadataView;

    open spec fn deep_view(&self) -> MetadataView {
        self.view()
    }
}

impl Clone for Metadata {
    /// Copy the metadata; the copy has the same view.
    fn clone(&self) -> (r: Self)
        ensures
            r@ == self@,
    {
        Metadata {
            name: self.name.clone(),
            description: self.description.clone(),
            owner: self.owner.clone(),
            protected: self.protected,
            version: self.version.clone(),
            allowed_users: crate::util::clone_string_vec(&self.allowed_users),
            protection_level: self.protection_level,
        }
    }
}

/// `user` appears in the metadata's allowed-user list.
pub open spec fn user_allowed(meta: MetadataView, user: Seq<char>) -> bool {
    exists|i: int| 0 <= i < meta.allowed_users.len() && #[trigger] meta.allowed_users[i] == user
}

/// A user may modify a manifest when it is unprotected, or when the user is
/// explicitly allowed.
pub open spec fn can_modify_spec(meta: MetadataView, user: Seq<char>) -> bool {
    !meta.protected || user_allowed(meta, user)
}

/// A normalized manifest: the union of everything one shard declares.
#[derive(Debug)]
pub struct Manifest {
    /// Tap names (`owner/repo`) that must be registered.
    pub taps: Vec<String>,
    /// Formula declarations, at most one per name.
    pub formulas: Vec<PackageDeclaration>,
    /// Cask declarations, at most one per name.
    pub casks: Vec<PackageDeclaration>,
    /// Shard metadata.
    pub metadata: Metadata,
}

/// Mathematical image of a `Manifest`.
#[verifier::ext_equal]
pub ghost struct ManifestView {
    pub taps: Seq<Seq<char>>,
    pub formulas: Seq<DeclView>,
    pub casks: Seq<DeclView>,
    pub metadata: MetadataView,
}

impl View for Manifest {
    type V = ManifestView;

    open spec fn view(&self) -> ManifestView {
        ManifestView {
            taps: self.taps.deep_view(),
            formulas: self.formulas.deep_view(),
            casks: self.casks.deep_view(),
            metadata: self.metadata@,
        }
    }
}

impl DeepView for Manifest {
    type V = ManifestView;

    open spec fn deep_view(&self) -> ManifestView {
        self.view()
    }
}

impl Clone for Manifest {
    /// Copy the manifest; the copy has the same view.
    fn clone(&self) -> (r: Self)
        ensures
            r@ == self@,
    {
        let r = Manifest {
            taps: crate::util::clone_string_vec(&self.taps),
            formulas: clone_decls(&self.formulas),
            casks: clone_decls(&self.casks),
            metadata: self.metadata.clone(),
        };
        proof {
            assert(r@.taps =~= self@.taps);
            assert(r@.formulas =~= self@.formulas);
            assert(r@.casks =~= self@.casks);
        }
        r
    }
}

/// Copy a declaration list; the copy has the same deep view.
pub fn clone_decls(v: &Vec<PackageDeclaration>) -> (r: Vec<PackageDeclaration>)
    ensures
        r.deep_view() == v.deep_view(),
        r@.len() == v@.len(),
{
    let n = v.len();
    let mut r: Vec<PackageDeclaration> = Vec::new();
    let mut i: usize = 0;
    while i < n
        invariant
            0 <= i <= n,
            n == v@.len(),
            r@.len() == i,
            forall|j: int| 0 <= j < i ==> #[trigger] r@[j]@ == v@[j]@,
        decreases n - i,
    {
        r.push(v[i].clone());
        i = i + 1;
    }
    proof {
        assert(r.deep_view() =~= v.deep_view());
    }
    r
}

/// The list of declarations holds one named `name`.
pub open spec fn decls_contain_name(s: Seq<DeclView>, name: Seq<char>) -> bool {
    exists|i: int| 0 <= i < s.len() && #[trigger] s[i].name == name
}

/// Every name appears at most once.
pub open spec fn decl_names_unique(s: Seq<DeclView>) -> bool {
    forall|i: int, j: int| 0 <= i < j < s.len() ==> #[trigger] s[i].name != #[trigger] s[j].name
}

/// Index of the declaration named `name` (meaningful when present and
/// unique).
pub open spec fn decl_index(s: Seq<DeclView>, name: Seq<char>) -> int {
    choose|i: int| 0 <= i < s.len() && #[trigger] s[i].name == name
}

/// The declaration named `name` (meaningful when present and unique).
pub open spec fn decl_named(s: Seq<DeclView>, name: Seq<char>) -> DeclView {
    s[decl_index(s, name)]
}

/// Every tap name appears at most once.
pub open spec fn tap_names_unique(s: Seq<Seq<char>>) -> bool {
    forall|i: int, j: int| 0 <= i < j < s.len() ==> s[i] != s[j]
}

/// Well-formedness of a manifest: names are valid for the actuator and
/// unique within their kind.
pub open spec fn manifest_wf(m: ManifestView) -> bool {
    &&& forall|i: int| 0 <= i < m.taps.len() ==> valid_tap_name(#[trigger] m.taps[i])
    &&& tap_names_unique(m.taps)
    &&& forall|i: int|
        0 <= i < m.formulas.len() ==> valid_package_name(#[trigger] m.formulas[i].name)
    &&& decl_names_unique(m.formulas)
    &&& forall|i: int| 0 <= i < m.casks.len() ==> valid_package_name(#[trigger] m.casks[i].name)
    &&& decl_names_unique(m.casks)
}

/// The metadata a fresh manifest starts with.
pub open spec fn default_metadata_view() -> MetadataView {
    MetadataView {
        name: Seq::empty(),
        description: "Package manifest"@,
        owner: Seq::empty(),
        protected: false,
        version: "0.1.0"@,
        allowed_users: Seq::empty(),
        protection_level: 0,
    }
}

/// The view of an empty manifest.
pub open spec fn empty_manifest_view() -> ManifestView {
    ManifestView {
        taps: Seq::empty(),
        formulas: Seq::empty(),
        casks: Seq::empty(),
        metadata: default_metadata_view(),
    }
}

impl Manifest {
    /// An empty manifest with the default metadata.
    pub fn new() -> (r: Manifest)
        ensures
            r@ == empty_manifest_view(),
            manifest_wf(r@),
    {
        let r = Manifest {
            taps: Vec::new(),
            formulas: Vec::new(),
            casks: Vec::new(),
            metadata: Metadata {
                name: String::new(),
                description: "Package manifest".to_owned(),
                owner: String::new(),
                protected: false,
                version: "0.1.0".to_owned(),
                allowed_users: Vec::new(),
                protection_level: 0,
            },
        };
        proof {
            assert(r@.taps =~= Seq::<Seq<char>>::empty());
            assert(r@.formulas =~= Seq::<DeclView>::empty());
            assert(r@.casks =~= Seq::<DeclView>::empty());
            assert(r@.metadata.allowed_users =~= Seq::<Seq<char>>::empty());
            assert(r@ == empty_manifest_view());
        }
        r
    }

    /// Whether the manifest is protected from modification.
    pub fn is_protected(&self) -> (r: bool)
        ensures
            r == self@.metadata.protected,
    {
        self.metadata.protected
    }

    /// Whether `username` stands in this manifest's allowed-user list.
    pub fn is_user_allowed(&self, username: &str) -> (r: bool)
        ensures
            r == user_allowed(self@.metadata, username@),
    {
        let r = crate::util::vec_contains_str(&self.metadata.allowed_users, username);
        proof {
            if seq_contains_str(self.metadata.allowed_users@, username@) {
                let i = choose|i: int|
                    0 <= i < self.metadata.allowed_users@.len()
                        && #[trigger] self.metadata.allowed_users@[i]@ == username@;
                assert(self@.metadata.allowed_users[i] == username@);
            } else {
                if user_allowed(self@.metadata, username@) {
                    let i = choose|i: int|
                        0 <= i < self@.metadata.allowed_users.len()
                            && #[trigger] self@.metadata.allowed_users[i] == username@;
                    assert(self.metadata.allowed_users@[i]@ == username@);
                }
            }
        }
        r
    }

    /// Whether `username` may modify this manifest: always for an
    /// unprotected shard, and for a protected one only when the user is in
    /// the allowed list.
    pub fn can_modify(&self, username: &str) -> (r: bool)
        ensures
            r == can_modify_spec(self@.metadata, username@),
    {
        if !self.metadata.protected {
            true
        } else {
            self.is_user_allowed(username)
        }
    }

    /// Refresh the modification bookkeeping.  The record itself carries no
    /// such fields yet, so the manifest is left unchanged.
    pub fn update_modification_info(&mut self)
        ensures
            *final(self) == *old(self),
    {
    }
}

} // verus!
