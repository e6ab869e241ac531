//! The diff engine: classify desired-state declarations against the set of
//! installed packages into install / upgrade / with-options / uninstall
//! buckets.

use vstd::prelude::*;

use crate::brew::{BrewClient, BrewCommand};
use crate::error::{ShardError, ShardResult};
use crate::manifest::{decl_names_unique, decls_contain_name, DeclView, PackageDeclaration,
    PackageState};
use crate::util::{clone_string_vec, vec_contains_str};
use crate::validate::{valid_option, valid_package_name};

verus! {

/// The kind of package being managed.  Formula and cask names are distinct
/// namespaces.
#[derive(Debug, Clone, Copy, PartialEq, Eq, Structural)]
pub enum PackageType {
    Formula,
    Cask,
}

impl PackageType {
    /// The lower-case noun for this kind.
    pub fn as_str(&self) -> (r: &'static str)
        ensures
            r@ == match self {
                PackageType::Formula => "formula"@,
                PackageType::Cask => "cask"@,
            },
    {
        match self {
            PackageType::Formula => "formula",
            PackageType::Cask => "cask",
        }
    }
}

/// An action the reconciliation pass can take on one package.
#[derive(Debug, Clone, Copy, PartialEq, Eq, Structural)]
pub enum PackageOperation {
    Install,
    Upgrade,
    Uninstall,
}

impl PackageOperation {
    /// The progressive verb for this operation.
    pub fn as_str(&self) -> (r: &'static str)
        ensures
            r@ == match self {
                PackageOperation::Install => "Installing"@,
                PackageOperation::Upgrade => "Upgrading"@,
                PackageOperation::Uninstall => "Uninstalling"@,
            },
    {
        match self {
            PackageOperation::Install => "Installing",
            PackageOperation::Upgrade => "Upgrading",
            PackageOperation::Uninstall => "Uninstalling",
        }
    }
}

/// The four result buckets of one classification pass over one kind.
#[derive(Debug)]
pub struct PackageProcessResult {
    /// Packages to install in one batch.
    pub to_install: Vec<String>,
    /// Packages to upgrade in one batch.
    pub to_upgrade: Vec<String>,
    /// Packages that need an individual operation with their options.
    pub with_options: Vec<(String, Vec<String>)>,
    /// Packages to uninstall one at a time.
    pub to_uninstall: Vec<String>,
}

/// Mathematical image of a `PackageProcessResult`.
#[verifier::ext_equal]
pub ghost struct OpsView {
    pub to_install: Seq<Seq<char>>,
    pub to_upgrade: Seq<Seq<char>>,
    pub with_options: Seq<(Seq<char>, Seq<Seq<char>>)>,
    pub to_uninstall: Seq<Seq<char>>,
}

impl OpsView {
    /// All four buckets empty.
    pub open spec fn empty() -> OpsView {
        OpsView {
            to_install: Seq::empty(),
            to_upgrade: Seq::empty(),
            with_options: Seq::empty(),
            to_uninstall: Seq::empty(),
        }
    }

    /// Nothing at all would be done.
    pub open spec fn is_empty(self) -> bool {
        &&& self.to_install.len() == 0
        &&& self.to_upgrade.len() == 0
        &&& self.with_options.len() == 0
        &&& self.to_uninstall.len() == 0
    }

    /// Some bucket holds an entry for `name`.
    pub open spec fn mentions(self, name: Seq<char>) -> bool {
        ||| self.to_install.contains(name)
        ||| self.to_upgrade.contains(name)
        ||| exists|j: int|
            0 <= j < self.with_options.len() && #[trigger] self.with_options[j].0 == name
        ||| self.to_uninstall.contains(name)
    }
}

impl View for PackageProcessResult {
    type V = OpsView;

    open spec fn view(&self) -> OpsView {
        OpsView {
            to_install: self.to_install.deep_view(),
            to_upgrade: self.to_upgrade.deep_view(),
            with_options: self.with_options.deep_view(),
            to_uninstall: self.to_uninstall.deep_view(),
        }
    }
}

/// Where one declaration lands.
pub ghost enum Placement {
    /// No bucket entry at all.
    Nothing,
    Install,
    Upgrade,
    WithOptions,
    Uninstall,
}

/// Classify a single declaration against its installed-ness.
///
/// An `Absent` declaration uninstalls an installed copy and is otherwise a
/// no-op.  A non-empty option list forces an individual operation, decided
/// install-vs-upgrade only at execution time.  Otherwise a missing package
/// is installed, an installed `Latest` one is upgraded, and an installed
/// `Present` one is left alone.
pub open spec fn classify_decl(d: DeclView, installed: bool) -> Placement {
    if d.state is Absent {
        if installed {
            Placement::Uninstall
        } else {
            Placement::Nothing
        }
    } else if d.options.len() > 0 {
        Placement::WithOptions
    } else if !installed {
        Placement::Install
    } else if d.state is Latest {
        Placement::Upgrade
    } else {
        Placement::Nothing
    }
}

/// The buckets produced by classifying each declaration in order against
/// the installed set `inv`.
pub open spec fn classify_seq(ds: Seq<DeclView>, inv: Seq<Seq<char>>) -> OpsView
    decreases ds.len(),
{
    if ds.len() == 0 {
        OpsView::empty()
    } else {
        let prev = classify_seq(ds.drop_last(), inv);
        let d = ds.last();
        match classify_decl(d, inv.contains(d.name)) {
            Placement::Nothing => prev,
            Placement::Install => OpsView { to_install: prev.to_install.push(d.name), ..prev },
            Placement::Upgrade => OpsView { to_upgrade: prev.to_upgrade.push(d.name), ..prev },
            Placement::WithOptions => OpsView {
                with_options: prev.with_options.push((d.name, d.options)),
                ..prev
            },
            Placement::Uninstall => OpsView {
                to_uninstall: prev.to_uninstall.push(d.name),
                ..prev
            },
        }
    }
}

/// Anything the classifier mentions names some input declaration.
pub proof fn lemma_classify_mentions_source(ds: Seq<DeclView>, inv: Seq<Seq<char>>, name: Seq<
    char,
>)
    requires
        classify_seq(ds, inv).mentions(name),
    ensures
        decls_contain_name(ds, name),
    decreases ds.len(),
{
    if ds.len() == 0 {
    } else {
        let prev = classify_seq(ds.drop_last(), inv);
        let d = ds.last();
        if d.name == name {
            assert(ds[ds.len() - 1].name == name);
        } else {
            assert(prev.mentions(name)) by {
                let ops = classify_seq(ds, inv);
                if ops.to_install.contains(name) {
                    let j = choose|j: int|
                        0 <= j < ops.to_install.len() && ops.to_install[j] == name;
                    assert(prev.to_install.contains(name)) by {
                        assert(ops.to_install[j] == name);
                        if j < prev.to_install.len() {
                            assert(prev.to_install[j] == name);
                        }
                    }
                } else if ops.to_upgrade.contains(name) {
                    let j = choose|j: int|
                        0 <= j < ops.to_upgrade.len() && ops.to_upgrade[j] == name;
                    if j < prev.to_upgrade.len() {
                        assert(prev.to_upgrade[j] == name);
                    }
                } else if exists|j: int|
                    0 <= j < ops.with_options.len() && #[trigger] ops.with_options[j].0 == name {
                    let j = choose|j: int|
                        0 <= j < ops.with_options.len() && #[trigger] ops.with_options[j].0
                            == name;
                    if j < prev.with_options.len() {
                        assert(prev.with_options[j].0 == name);
                    }
                } else {
                    let j = choose|j: int|
                        0 <= j < ops.to_uninstall.len() && ops.to_uninstall[j] == name;
                    if j < prev.to_uninstall.len() {
                        assert(prev.to_uninstall[j] == name);
                    }
                }
            }
            lemma_classify_mentions_source(ds.drop_last(), inv, name);
            let i = choose|i: int| 0 <= i < ds.drop_last().len() && #[trigger] ds.drop_last()[i].name
                == name;
            assert(ds[i].name == name);
        }
    }
}

/// With unique input names, a name stands in at most one bucket, and the
/// buckets carry exactly what `classify_decl` assigns to each declaration.
pub open spec fn buckets_disjoint(ops: OpsView) -> bool {
    &&& forall|n: Seq<char>|
        #[trigger] ops.to_install.contains(n) ==> !ops.to_upgrade.contains(n)
            && !ops.to_uninstall.contains(n) && !(exists|j: int|
            0 <= j < ops.with_options.len() && #[trigger] ops.with_options[j].0 == n)
    &&& forall|n: Seq<char>|
        #[trigger] ops.to_upgrade.contains(n) ==> !ops.to_uninstall.contains(n) && !(exists|j: int|
            0 <= j < ops.with_options.len() && #[trigger] ops.with_options[j].0 == n)
    &&& forall|n: Seq<char>|
        #[trigger] ops.to_uninstall.contains(n) ==> !(exists|j: int|
            0 <= j < ops.with_options.len() && #[trigger] ops.with_options[j].0 == n)
}

/// Classification of a pre-deduplicated declaration set never places one
/// name in two buckets.
pub proof fn lemma_classify_buckets_disjoint(ds: Seq<DeclView>, inv: Seq<Seq<char>>)
    requires
        decl_names_unique(ds),
    ensures
        buckets_disjoint(classify_seq(ds, inv)),
    decreases ds.len(),
{
    if ds.len() == 0 {
    } else {
        let prefix = ds.drop_last();
        assert(decl_names_unique(prefix)) by {
            assert(forall|i: int, j: int|
                0 <= i < j < prefix.len() ==> #[trigger] prefix[i].name != #[trigger] prefix[j].name)
                by {
                assert(forall|i: int, j: int|
                    0 <= i < j < prefix.len() ==> prefix[i] == ds[i] && prefix[j] == ds[j]);
            }
        }
        lemma_classify_buckets_disjoint(prefix, inv);
        let prev = classify_seq(prefix, inv);
        let d = ds.last();
        // The final declaration's name is new to every bucket.
        assert(!prev.mentions(d.name)) by {
            if prev.mentions(d.name) {
                lemma_classify_mentions_source(prefix, inv, d.name);
                let i = choose|i: int|
                    0 <= i < prefix.len() && #[trigger] prefix[i].name == d.name;
                assert(ds[i].name == ds[ds.len() - 1].name);
            }
        }
        let ops = classify_seq(ds, inv);
        match classify_decl(d, inv.contains(d.name)) {
            Placement::Nothing => {},
            Placement::Install => {
                assert forall|n: Seq<char>| #[trigger]
                    ops.to_install.contains(n) implies !ops.to_upgrade.contains(n)
                    && !ops.to_uninstall.contains(n) && !(exists|j: int|
                    0 <= j < ops.with_options.len() && #[trigger] ops.with_options[j].0 == n) by {
                    if n == d.name {
                        assert(!prev.mentions(d.name));
                    } else {
                        let j = choose|j: int|
                            0 <= j < ops.to_install.len() && ops.to_install[j] == n;
                        assert(prev.to_install[j] == n);
                        assert(prev.to_install.contains(n));
                    }
                }
            },
            Placement::Upgrade => {
                assert forall|n: Seq<char>| #[trigger]
                    ops.to_upgrade.contains(n) implies !ops.to_uninstall.contains(n) && !(exists|
                    j: int,
                |
                    0 <= j < ops.with_options.len() && #[trigger] ops.with_options[j].0 == n) by {
                    if n == d.name {
                        assert(!prev.mentions(d.name));
                    } else {
                        let j = choose|j: int|
                            0 <= j < ops.to_upgrade.len() && ops.to_upgrade[j] == n;
                        assert(prev.to_upgrade[j] == n);
                        assert(prev.to_upgrade.contains(n));
                    }
                }
                assert forall|n: Seq<char>| #[trigger]
                    ops.to_install.contains(n) implies !ops.to_upgrade.contains(n)
                    && !ops.to_uninstall.contains(n) && !(exists|j: int|
                    0 <= j < ops.with_options.len() && #[trigger] ops.with_options[j].0 == n) by {
                    assert(prev.to_install.contains(n));
                    if ops.to_upgrade.contains(n) {
                        let j = choose|j: int|
                            0 <= j < ops.to_upgrade.len() && ops.to_upgrade[j] == n;
                        if j < prev.to_upgrade.len() {
                            assert(prev.to_upgrade.contains(n));
                        } else {
                            assert(n == d.name);
                            assert(prev.mentions(d.name));
                        }
                    }
                }
            },
            Placement::WithOptions => {
                assert forall|n: Seq<char>| #[trigger]
                    ops.to_install.contains(n) implies !ops.to_upgrade.contains(n)
                    && !ops.to_uninstall.contains(n) && !(exists|j: int|
                    0 <= j < ops.with_options.len() && #[trigger] ops.with_options[j].0 == n) by {
                    assert(prev.to_install.contains(n));
                    if exists|j: int|
                        0 <= j < ops.with_options.len() && #[trigger] ops.with_options[j].0 == n {
                        let j = choose|j: int|
                            0 <= j < ops.with_options.len() && #[trigger] ops.with_options[j].0
                                == n;
                        if j < prev.with_options.len() {
                            assert(prev.with_options[j].0 == n);
                        } else {
                            assert(n == d.name);
                            assert(prev.mentions(d.name));
                        }
                    }
                }
                assert forall|n: Seq<char>| #[trigger]
                    ops.to_upgrade.contains(n) implies !ops.to_uninstall.contains(n) && !(exists|
                    j: int,
                |
                    0 <= j < ops.with_options.len() && #[trigger] ops.with_options[j].0 == n) by {
                    assert(prev.to_upgrade.contains(n));
                    if exists|j: int|
                        0 <= j < ops.with_options.len() && #[trigger] ops.with_options[j].0 == n {
                        let j = choose|j: int|
                            0 <= j < ops.with_options.len() && #[trigger] ops.with_options[j].0
                                == n;
                        if j < prev.with_options.len() {
                            assert(prev.with_options[j].0 == n);
                        } else {
                            assert(n == d.name);
                            assert(prev.mentions(d.name));
                        }
                    }
                }
                assert forall|n: Seq<char>| #[trigger]
                    ops.to_uninstall.contains(n) implies !(exists|j: int|
                    0 <= j < ops.with_options.len() && #[trigger] ops.with_options[j].0 == n) by {
                    assert(prev.to_uninstall.contains(n));
                    if exists|j: int|
                        0 <= j < ops.with_options.len() && #[trigger] ops.with_options[j].0 == n {
                        let j = choose|j: int|
                            0 <= j < ops.with_options.len() && #[trigger] ops.with_options[j].0
                                == n;
                        if j < prev.with_options.len() {
                            assert(prev.with_options[j].0 == n);
                        } else {
                            assert(n == d.name);
                            assert(prev.mentions(d.name));
                        }
                    }
                }
            },
            Placement::Uninstall => {
                assert forall|n: Seq<char>| #[trigger]
                    ops.to_uninstall.contains(n) implies !(exists|j: int|
                    0 <= j < ops.with_options.len() && #[trigger] ops.with_options[j].0 == n) by {
                    if n == d.name {
                        assert(!prev.mentions(d.name));
                    } else {
                        let j = choose|j: int|
                            0 <= j < ops.to_uninstall.len() && ops.to_uninstall[j] == n;
                        assert(prev.to_uninstall[j] == n);
                        assert(prev.to_uninstall.contains(n));
                    }
                }
                assert forall|n: Seq<char>| #[trigger]
                    ops.to_install.contains(n) implies !ops.to_upgrade.contains(n)
                    && !ops.to_uninstall.contains(n) && !(exists|j: int|
                    0 <= j < ops.with_options.len() && #[trigger] ops.with_options[j].0 == n) by {
                    assert(prev.to_install.contains(n));
                    if ops.to_uninstall.contains(n) {
                        let j = choose|j: int|
                            0 <= j < ops.to_uninstall.len() && ops.to_uninstall[j] == n;
                        if j < prev.to_uninstall.len() {
                            assert(prev.to_uninstall.contains(n));
                        } else {
                            assert(n == d.name);
                            assert(prev.mentions(d.name));
                        }
                    }
                }
                assert forall|n: Seq<char>| #[trigger]
                    ops.to_upgrade.contains(n) implies !ops.to_uninstall.contains(n) && !(exists|
                    j: int,
                |
                    0 <= j < ops.with_options.len() && #[trigger] ops.with_options[j].0 == n) by {
                    assert(prev.to_upgrade.contains(n));
                    if ops.to_uninstall.contains(n) {
                        let j = choose|j: int|
                            0 <= j < ops.to_uninstall.len() && ops.to_uninstall[j] == n;
                        if j < prev.to_uninstall.len() {
                            assert(prev.to_uninstall.contains(n));
                        } else {
                            assert(n == d.name);
                            assert(prev.mentions(d.name));
                        }
                    }
                }
            },
        }
    }
}

/// An `Absent` declaration for a package that is not installed produces no
/// bucket entry at all.
pub proof fn lemma_absent_not_installed_no_entry(
    ds: Seq<DeclView>,
    inv: Seq<Seq<char>>,
    i: int,
)
    requires
        decl_names_unique(ds),
        0 <= i < ds.len(),
        ds[i].state is Absent,
        !inv.contains(ds[i].name),
    ensures
        !classify_seq(ds, inv).mentions(ds[i].name),
    decreases ds.len(),
{
    let prefix = ds.drop_last();
    assert(decl_names_unique(prefix)) by {
        assert(forall|a: int, b: int|
            0 <= a < b < prefix.len() ==> prefix[a] == ds[a] && prefix[b] == ds[b]);
    }
    let prev = classify_seq(prefix, inv);
    let d = ds.last();
    let ops = classify_seq(ds, inv);
    if i == ds.len() - 1 {
        // The declaration itself is classified to nothing; the remaining
        // buckets cannot mention its name either.
        assert(classify_decl(d, inv.contains(d.name)) is Nothing);
        if prev.mentions(d.name) {
            lemma_classify_mentions_source(prefix, inv, d.name);
            let j = choose|j: int| 0 <= j < prefix.len() && #[trigger] prefix[j].name == d.name;
            assert(ds[j].name == ds[ds.len() - 1].name);
        }
    } else {
        lemma_absent_not_installed_no_entry(prefix, inv, i);
        assert(d.name != ds[i].name);
        // Whatever the final declaration adds carries `d.name`, not
        // `ds[i].name`.
        if ops.mentions(ds[i].name) {
            let n = ds[i].name;
            if ops.to_install.contains(n) {
                let j = choose|j: int| 0 <= j < ops.to_install.len() && ops.to_install[j] == n;
                if j < prev.to_install.len() {
                    assert(prev.to_install.contains(n));
                }
            } else if ops.to_upgrade.contains(n) {
                let j = choose|j: int| 0 <= j < ops.to_upgrade.len() && ops.to_upgrade[j] == n;
                if j < prev.to_upgrade.len() {
                    assert(prev.to_upgrade.contains(n));
                }
            } else if exists|j: int|
                0 <= j < ops.with_options.len() && #[trigger] ops.with_options[j].0 == n {
                let j = choose|j: int|
                    0 <= j < ops.with_options.len() && #[trigger] ops.with_options[j].0 == n;
                if j < prev.with_options.len() {
                    assert(prev.with_options[j].0 == n);
                }
            } else {
                let j = choose|j: int| 0 <= j < ops.to_uninstall.len() && ops.to_uninstall[j] == n;
                if j < prev.to_uninstall.len() {
                    assert(prev.to_uninstall.contains(n));
                }
            }
        }
    }
}

/// A declaration with options (and a state other than `Absent`) always
/// lands in `with_options`, carrying its option list, and never in
/// `to_install` or `to_upgrade`.
pub proof fn lemma_options_always_individual(ds: Seq<DeclView>, inv: Seq<Seq<char>>, i: int)
    requires
        decl_names_unique(ds),
        0 <= i < ds.len(),
        !(ds[i].state is Absent),
        ds[i].options.len() > 0,
    ensures
        exists|j: int|
            0 <= j < classify_seq(ds, inv).with_options.len() && #[trigger] classify_seq(
                ds,
                inv,
            ).with_options[j] == (ds[i].name, ds[i].options),
        !classify_seq(ds, inv).to_install.contains(ds[i].name),
        !classify_seq(ds, inv).to_upgrade.contains(ds[i].name),
        !classify_seq(ds, inv).to_uninstall.contains(ds[i].name),
    decreases ds.len(),
{
    let prefix = ds.drop_last();
    assert(decl_names_unique(prefix)) by {
        assert(forall|a: int, b: int|
            0 <= a < b < prefix.len() ==> prefix[a] == ds[a] && prefix[b] == ds[b]);
    }
    let prev = classify_seq(prefix, inv);
    let d = ds.last();
    let ops = classify_seq(ds, inv);
    lemma_classify_buckets_disjoint(ds, inv);
    if i == ds.len() - 1 {
        assert(classify_decl(d, inv.contains(d.name)) is WithOptions);
        let j = prev.with_options.len() as int;
        assert(ops.with_options[j] == (ds[i].name, ds[i].options));
        // Disjointness gives the negative clauses.
        assert(ops.with_options[j].0 == ds[i].name);
        if ops.to_install.contains(ds[i].name) {
            assert(false);
        }
        if ops.to_upgrade.contains(ds[i].name) {
            assert(false);
        }
        if ops.to_uninstall.contains(ds[i].name) {
            assert(false);
        }
    } else {
        lemma_options_always_individual(prefix, inv, i);
        let j = choose|j: int|
            0 <= j < prev.with_options.len() && #[trigger] prev.with_options[j] == (
                ds[i].name,
                ds[i].options,
            );
        assert(ops.with_options[j] == (ds[i].name, ds[i].options)) by {
            match classify_decl(d, inv.contains(d.name)) {
                Placement::WithOptions => {
                    assert(ops.with_options[j] == prev.with_options[j]);
                },
                _ => {},
            }
        }
        assert(ops.with_options[j].0 == ds[i].name);
        if ops.to_install.contains(ds[i].name) {
            assert(false);
        }
        if ops.to_upgrade.contains(ds[i].name) {
            assert(false);
        }
        if ops.to_uninstall.contains(ds[i].name) {
            assert(false);
        }
    }
}

/// Anything a declaration list can be classified through: the engine asks
/// only for a name, a desired state and options.
pub trait PackageInfo {
    /// The declaration this item stands for.
    spec fn decl_view(&self) -> DeclView;

    /// The desired state.
    fn state(&self) -> (r: PackageState)
        ensures
            r == self.decl_view().state,
    ;

    /// A copy of the install options.
    fn options(&self) -> (r: Vec<String>)
        ensures
            r.deep_view() == self.decl_view().options,
    ;

    /// The package name.
    fn name(&self) -> (r: &str)
        ensures
            r@ == self.decl_view().name,
    ;
}

impl PackageInfo for PackageDeclaration {
    open spec fn decl_view(&self) -> DeclView {
        self@
    }

    fn state(&self) -> (r: PackageState)
        ensures
            r == self.decl_view().state,
    {
        self.state
    }

    fn options(&self) -> (r: Vec<String>)
        ensures
            r.deep_view() == self.decl_view().options,
    {
        clone_string_vec(&self.options)
    }

    fn name(&self) -> (r: &str)
        ensures
            r@ == self.decl_view().name,
    {
        self.name.as_str()
    }
}

impl PackageInfo for String {
    /// A bare name defaults to `Latest` with no options.
    open spec fn decl_view(&self) -> DeclView {
        DeclView {
            name: self@,
            version: "latest"@,
            options: Seq::empty(),
            state: PackageState::Latest,
        }
    }

    fn state(&self) -> (r: PackageState)
        ensures
            r == self.decl_view().state,
    {
        PackageState::Latest
    }

    fn options(&self) -> (r: Vec<String>)
        ensures
            r.deep_view() == self.decl_view().options,
    {
        let r: Vec<String> = Vec::new();
        proof {
            assert(r.deep_view() =~= Seq::<Seq<char>>::empty());
        }
        r
    }

    fn name(&self) -> (r: &str)
        ensures
            r@ == self.decl_view().name,
    {
        self.as_str()
    }
}

/// The declarations a typed list stands for.
pub open spec fn decls_of<T: PackageInfo>(s: Seq<T>) -> Seq<DeclView> {
    Seq::new(s.len(), |i: int| s[i].decl_view())
}

/// The generic per-kind diff engine: one instance classifies formulae, the
/// other casks, against the snapshot of installed packages it was built
/// with.
#[derive(Debug)]
pub struct PackageProcessor {
    /// The kind this processor manages.
    pub package_type: PackageType,
    /// Installed packages of that kind, snapshot for one pass.
    pub installed_packages: Vec<String>,
    /// Whether progress messages should be suppressed by the caller.
    pub suppress_messages: bool,
}

impl PackageProcessor {
    /// Build a processor from a snapshot of installed package names.
    pub fn new(package_type: PackageType, installed_packages: Vec<String>, suppress_messages:
        bool) -> (r: PackageProcessor)
        ensures
            r.package_type == package_type,
            r.installed_packages == installed_packages,
            r.suppress_messages == suppress_messages,
    {
        PackageProcessor { package_type, installed_packages, suppress_messages }
    }

    /// Build a formula processor from the installed-formula snapshot.
    pub fn for_formulae(installed_formulae: Vec<String>, suppress_messages: bool) -> (r:
        PackageProcessor)
        ensures
            r.package_type == PackageType::Formula,
            r.installed_packages == installed_formulae,
            r.suppress_messages == suppress_messages,
    {
        PackageProcessor::new(PackageType::Formula, installed_formulae, suppress_messages)
    }

    /// Build a cask processor from the installed-cask snapshot.
    pub fn for_casks(installed_casks: Vec<String>, suppress_messages: bool) -> (r:
        PackageProcessor)
        ensures
            r.package_type == PackageType::Cask,
            r.installed_packages == installed_casks,
            r.suppress_messages == suppress_messages,
    {
        PackageProcessor::new(PackageType::Cask, installed_casks, suppress_messages)
    }

    /// Whether a package of this kind is installed.
    pub fn is_installed(&self, name: &str) -> (r: bool)
        ensures
            r == self.installed_packages.deep_view().contains(name@),
    {
        let r = vec_contains_str(&self.installed_packages, name);
        proof {
            let v = self.installed_packages;
            if crate::util::seq_contains_str(v@, name@) {
                let i = choose|i: int| 0 <= i < v@.len() && #[trigger] v@[i]@ == name@;
                assert(v.deep_view()[i] == name@);
            } else if v.deep_view().contains(name@) {
                let i = choose|i: int|
                    0 <= i < v.deep_view().len() && v.deep_view()[i] == name@;
                assert(v@[i]@ == name@);
            }
        }
        r
    }

    /// Classify each declaration into its bucket.  The declaration list is
    /// expected to be pre-deduplicated (the merger guarantees that); the
    /// buckets then partition the mentioned names.
    pub fn process_packages<T: PackageInfo>(&self, packages: &Vec<T>) -> (r: crate::ShardResult<
        PackageProcessResult,
    >)
        ensures
            r is Ok,
            r matches Ok(ops) ==> ops@ == classify_seq(
                decls_of(packages@),
                self.installed_packages.deep_view(),
            ),
    {
        let ghost inv = self.installed_packages.deep_view();
        let mut result = PackageProcessResult {
            to_install: Vec::new(),
            to_upgrade: Vec::new(),
            with_options: Vec::new(),
            to_uninstall: Vec::new(),
        };
        proof {
            assert(result@.to_install =~= Seq::<Seq<char>>::empty());
            assert(result@.to_upgrade =~= Seq::<Seq<char>>::empty());
            assert(result@.with_options =~= Seq::<(Seq<char>, Seq<Seq<char>>)>::empty());
            assert(result@.to_uninstall =~= Seq::<Seq<char>>::empty());
            assert(decls_of(packages@.subrange(0, 0)) =~= Seq::<DeclView>::empty());
        }
        let n = packages.len();
        let mut i: usize = 0;
        while i < n
            invariant
                0 <= i <= n,
                n == packages@.len(),
                inv == self.installed_packages.deep_view(),
                result@ == classify_seq(decls_of(packages@.subrange(0, i as int)), inv),
            decreases n - i,
        {
            let ghost pre = decls_of(packages@.subrange(0, i as int));
            let ghost post = decls_of(packages@.subrange(0, i + 1 as int));
            proof {
                assert(post.drop_last() =~= pre);
                assert(post.last() == packages@[i as int].decl_view());
            }
            let p = &packages[i];
            let name = p.name();
            let state = p.state();
            let options = p.options();
            let installed = self.is_installed(name);
            let ghost d = p.decl_view();
            match state {
                PackageState::Absent => {
                    if installed {
                        result.to_uninstall.push(name.to_owned());
                        proof {
                            assert(result@.to_uninstall =~= classify_seq(post, inv).to_uninstall);
                        }
                    }
                },
                _ => {
                    if options.len() > 0 {
                        result.with_options.push((name.to_owned(), options));
                        proof {
                            assert(result@.with_options =~= classify_seq(post, inv).with_options);
                        }
                    } else if !installed {
                        result.to_install.push(name.to_owned());
                        proof {
                            assert(result@.to_install =~= classify_seq(post, inv).to_install);
                        }
                    } else {
                        match state {
                            PackageState::Latest => {
                                result.to_upgrade.push(name.to_owned());
                                proof {
                                    assert(result@.to_upgrade =~= classify_seq(
                                        post,
                                        inv,
                                    ).to_upgrade);
                                }
                            },
                            _ => {},
                        }
                    }
                },
            }
            proof {
                assert(result@ == classify_seq(post, inv));
            }
            i = i + 1;
        }
        proof {
            assert(packages@.subrange(0, n as int) =~= packages@);
        }
        Ok(result)
    }

    /// The ordered command sequence that realizes a classification result:
    /// one batch install, one batch upgrade, an individual invocation per
    /// with-options entry (upgrading where the package is installed,
    /// installing where it is not), then one forced uninstall per name.
    /// A dry run plans nothing.
    #[verifier::rlimit(80)]
    #[verifier::spinoff_prover]
    pub fn execute_operations(&self, client: &BrewClient, result: &PackageProcessResult, dry_run:
        bool) -> (r: ShardResult<Vec<BrewCommand>>)
        ensures
            dry_run ==> (r matches Ok(cmds) && cmds@.len() == 0),
            !dry_run ==> (r is Ok <==> ops_valid(result@)),
            !dry_run ==> (r matches Ok(cmds) ==> cmds.deep_view() == execute_ops_cmds(
                self.package_type,
                result@,
                self.installed_packages.deep_view(),
            )),
            r matches Err(e) ==> e matches ShardError::ValidationError(_),
    {
        let ghost kind = self.package_type;
        let ghost ops = result@;
        let ghost inv = self.installed_packages.deep_view();
        if dry_run {
            let cmds: Vec<BrewCommand> = Vec::new();
            return Ok(cmds);
        }
        let mut cmds: Vec<BrewCommand> = Vec::new();

        // Batch install.
        proof {
            assert(forall|j: int|
                0 <= j < result.to_install@.len() ==> #[trigger] result.to_install@[j]@
                    == ops.to_install[j]);
            assert(forall|j: int|
                0 <= j < result.to_upgrade@.len() ==> #[trigger] result.to_upgrade@[j]@
                    == ops.to_upgrade[j]);
        }
        let batch_install_res = match self.package_type {
            PackageType::Formula => client.batch_install_formulae(&result.to_install),
            PackageType::Cask => client.batch_install_casks(&result.to_install),
        };
        let batch_install = match batch_install_res {
            Ok(v) => v,
            Err(e) => {
                proof {
                    let j = choose|j: int|
                        0 <= j < result.to_install@.len() && !valid_package_name(
                            #[trigger] result.to_install@[j]@,
                        );
                    assert(!valid_package_name(ops.to_install[j]));
                }
                return Err(e);
            },
        };
        match batch_install {
            Some(c) => {
                cmds.push(c);
            },
            None => {},
        }
        proof {
            assert(cmds.deep_view() =~= batch_cmds(install_prefix(kind), ops.to_install));
        }
        let ghost sec1 = batch_cmds(install_prefix(kind), ops.to_install);

        // Batch upgrade.
        let batch_upgrade_res = match self.package_type {
            PackageType::Formula => client.batch_upgrade_formulae(&result.to_upgrade),
            PackageType::Cask => client.batch_upgrade_casks(&result.to_upgrade),
        };
        let batch_upgrade = match batch_upgrade_res {
            Ok(v) => v,
            Err(e) => {
                proof {
                    let j = choose|j: int|
                        0 <= j < result.to_upgrade@.len() && !valid_package_name(
                            #[trigger] result.to_upgrade@[j]@,
                        );
                    assert(!valid_package_name(ops.to_upgrade[j]));
                }
                return Err(e);
            },
        };
        match batch_upgrade {
            Some(c) => {
                cmds.push(c);
            },
            None => {},
        }
        proof {
            assert(cmds.deep_view() =~= sec1 + batch_cmds(upgrade_prefix(kind), ops.to_upgrade));
        }
        let ghost sec2 = sec1 + batch_cmds(upgrade_prefix(kind), ops.to_upgrade);

        // Individual operations for packages with options.
        let n = result.with_options.len();
        let mut i: usize = 0;
        proof {
            assert(with_options_cmds(kind, ops.with_options.subrange(0, 0), inv) =~= Seq::<Seq<
                Seq<char>,
            >>::empty());
            assert(cmds.deep_view() =~= sec2 + with_options_cmds(
                kind,
                ops.with_options.subrange(0, 0),
                inv,
            ));
        }
        while i < n
            invariant
                !dry_run,
                0 <= i <= n,
                n == result.with_options@.len(),
                kind == self.package_type,
                ops == result@,
                inv == self.installed_packages.deep_view(),
                cmds.deep_view() == sec2 + with_options_cmds(
                    kind,
                    ops.with_options.subrange(0, i as int),
                    inv,
                ),
                forall|j: int|
                    0 <= j < i ==> valid_package_name(#[trigger] ops.with_options[j].0) && (forall|
                        t: int,
                    |
                        0 <= t < ops.with_options[j].1.len() ==> valid_option(
                            #[trigger] ops.with_options[j].1[t],
                        )),
            decreases n - i,
        {
            let name_owned = result.with_options[i].0.clone();
            let name = name_owned.as_str();
            let options = &result.with_options[i].1;
            proof {
                assert(name@ == ops.with_options[i as int].0);
                assert(options.deep_view() == ops.with_options[i as int].1);
            }
            proof {
                assert(forall|tt: int|
                    0 <= tt < options@.len() ==> #[trigger] options@[tt]@ == ops.with_options[
                        i as int].1[tt]);
            }
            let installed = self.is_installed(name);
            let cmd_res = if installed {
                match self.package_type {
                    PackageType::Formula => client.upgrade_formula_with_options(name, options),
                    PackageType::Cask => client.upgrade_cask_with_options(name, options),
                }
            } else {
                match self.package_type {
                    PackageType::Formula => client.install_formula(name, options),
                    PackageType::Cask => client.install_cask(name, options),
                }
            };
            let cmd = match cmd_res {
                Ok(v) => v,
                Err(e) => {
                    proof {
                        if valid_package_name(name@) {
                            let tt = choose|tt: int|
                                0 <= tt < options@.len() && !valid_option(
                                    #[trigger] options@[tt]@,
                                );
                            assert(!valid_option(ops.with_options[i as int].1[tt]));
                        }
                        assert(!ops_valid(ops));
                    }
                    return Err(e);
                },
            };
            proof {
                assert(valid_package_name(ops.with_options[i as int].0));
                assert forall|tt: int|
                    0 <= tt < ops.with_options[i as int].1.len() implies valid_option(
                    #[trigger] ops.with_options[i as int].1[tt],
                ) by {
                    assert(options@[tt]@ == ops.with_options[i as int].1[tt]);
                    assert(valid_option(options@[tt]@));
                }
                assert forall|j: int|
                    0 <= j < i + 1 implies valid_package_name(#[trigger] ops.with_options[j].0)
                    && (forall|t: int|
                    0 <= t < ops.with_options[j].1.len() ==> valid_option(
                        #[trigger] ops.with_options[j].1[t],
                    )) by {
                    if j == i as int {
                        assert(valid_package_name(ops.with_options[i as int].0));
                    }
                }
            }
            let ghost cv = cmd@;
            let ghost before = cmds.deep_view();
            let ghost before_raw = cmds@;
            let ghost cmdv = cmd;
            cmds.push(cmd);
            proof {
                let pre = ops.with_options.subrange(0, i as int);
                let post = ops.with_options.subrange(0, i + 1 as int);
                assert(cmds@ == before_raw.push(cmdv));
                assert(cmds@.len() == before.len() + 1);
                let target = sec2 + with_options_cmds(kind, post, inv);
                assert(cv == (if inv.contains(post[i as int].0) {
                    upgrade_prefix(kind)
                } else {
                    install_prefix(kind)
                }).push(post[i as int].0) + post[i as int].1) by {
                    assert(post[i as int] == ops.with_options[i as int]);
                    if installed {
                        match kind {
                            PackageType::Formula => {
                                assert(cv =~= upgrade_prefix(kind).push(name@)
                                    + options.deep_view());
                            },
                            PackageType::Cask => {
                                assert(cv =~= upgrade_prefix(kind).push(name@)
                                    + options.deep_view());
                            },
                        }
                    } else {
                        match kind {
                            PackageType::Formula => {
                                assert(cv =~= install_prefix(kind).push(name@)
                                    + options.deep_view());
                            },
                            PackageType::Cask => {
                                assert(cv =~= install_prefix(kind).push(name@)
                                    + options.deep_view());
                            },
                        }
                    }
                }
                assert forall|t: int| 0 <= t < cmds@.len() implies cmds.deep_view()[t]
                    == target[t] by {
                    assert(cmds.deep_view()[t] == cmds@[t].deep_view());
                    if t < before.len() {
                        assert(cmds.deep_view()[t] == before[t]);
                        if t >= sec2.len() {
                            assert(before[t] == with_options_cmds(kind, pre, inv)[t - sec2.len()]);
                            assert(pre[t - sec2.len()] == ops.with_options[t - sec2.len()]);
                            assert(post[t - sec2.len()] == ops.with_options[t - sec2.len()]);
                        }
                    } else {
                        assert(cmds.deep_view()[t] == cv);
                        assert(target[t] == with_options_cmds(kind, post, inv)[i as int]);
                    }
                }
                assert(cmds.deep_view() =~= target);
            }
            i = i + 1;
        }
        proof {
            assert(ops.with_options.subrange(0, n as int) =~= ops.with_options);
        }
        let ghost sec3 = sec2 + with_options_cmds(kind, ops.with_options, inv);

        // Individual forced uninstalls.
        let m = result.to_uninstall.len();
        let mut k: usize = 0;
        proof {
            assert(uninstall_cmds(kind, ops.to_uninstall.subrange(0, 0)) =~= Seq::<Seq<Seq<
                char,
            >>>::empty());
            assert(cmds.deep_view() =~= sec3 + uninstall_cmds(kind, ops.to_uninstall.subrange(
                0,
                0,
            )));
        }
        while k < m
            invariant
                !dry_run,
                0 <= k <= m,
                m == result.to_uninstall@.len(),
                kind == self.package_type,
                ops == result@,
                inv == self.installed_packages.deep_view(),
                sec3 == sec2 + with_options_cmds(kind, ops.with_options, inv),
                cmds.deep_view() == sec3 + uninstall_cmds(kind, ops.to_uninstall.subrange(
                    0,
                    k as int,
                )),
                forall|j: int| 0 <= j < k ==> valid_package_name(#[trigger] ops.to_uninstall[j]),
            decreases m - k,
        {
            let name_owned = result.to_uninstall[k].clone();
            let name = name_owned.as_str();
            proof {
                assert(name@ == ops.to_uninstall[k as int]);
            }
            let cmd_res = match self.package_type {
                PackageType::Formula => client.uninstall_formula(name, true),
                PackageType::Cask => client.uninstall_cask(name, true),
            };
            let cmd = match cmd_res {
                Ok(v) => v,
                Err(e) => {
                    proof {
                        assert(!valid_package_name(ops.to_uninstall[k as int]));
                    }
                    return Err(e);
                },
            };
            let ghost cv = cmd@;
            let ghost before = cmds.deep_view();
            let ghost before_raw = cmds@;
            let ghost cmdv = cmd;
            cmds.push(cmd);
            proof {
                let pre = ops.to_uninstall.subrange(0, k as int);
                let post = ops.to_uninstall.subrange(0, k + 1 as int);
                assert(cmds@ == before_raw.push(cmdv));
                assert(cmds@.len() == before.len() + 1);
                let target = sec3 + uninstall_cmds(kind, post);
                assert(cv == uninstall_cmds(kind, post)[k as int]) by {
                    assert(post[k as int] == ops.to_uninstall[k as int]);
                    match kind {
                        PackageType::Formula => {
                            assert(cv =~= seq!["uninstall"@, "--formula"@, name@, "--force"@]);
                        },
                        PackageType::Cask => {
                            assert(cv =~= seq!["uninstall"@, "--cask"@, name@, "--force"@]);
                        },
                    }
                }
                assert forall|t: int| 0 <= t < cmds@.len() implies cmds.deep_view()[t]
                    == target[t] by {
                    assert(cmds.deep_view()[t] == cmds@[t].deep_view());
                    if t < before.len() {
                        assert(cmds.deep_view()[t] == before[t]);
                        if t >= sec3.len() {
                            assert(before[t] == uninstall_cmds(kind, pre)[t - sec3.len()]);
                            assert(pre[t - sec3.len()] == ops.to_uninstall[t - sec3.len()]);
                            assert(post[t - sec3.len()] == ops.to_uninstall[t - sec3.len()]);
                        }
                    } else {
                        assert(cmds.deep_view()[t] == cv);
                        assert(target[t] == uninstall_cmds(kind, post)[k as int]);
                    }
                }
                assert(cmds.deep_view() =~= target);
            }
            k = k + 1;
        }
        proof {
            assert(ops.to_uninstall.subrange(0, m as int) =~= ops.to_uninstall);
            assert(cmds.deep_view() =~= execute_ops_cmds(kind, ops, inv));
        }
        Ok(cmds)
    }

    /// The forced or unforced uninstall invocation for one package of this
    /// kind.
    pub fn uninstall(&self, client: &BrewClient, name: &str, force: bool) -> (r: ShardResult<
        BrewCommand,
    >)
        ensures
            r is Ok <==> valid_package_name(name@),
            r matches Ok(c) ==> c@ == uninstall_cmd_spec(self.package_type, name@, force),
            r matches Err(e) ==> e matches ShardError::ValidationError(_),
    {
        match self.package_type {
            PackageType::Formula => client.uninstall_formula(name, force),
            PackageType::Cask => client.uninstall_cask(name, force),
        }
    }
}

/// The argument prefix that installs one package of the kind.
pub open spec fn install_prefix(kind: PackageType) -> Seq<Seq<char>> {
    match kind {
        PackageType::Formula => seq!["install"@],
        PackageType::Cask => seq!["install"@, "--cask"@],
    }
}

/// The argument prefix that upgrades one package of the kind.
pub open spec fn upgrade_prefix(kind: PackageType) -> Seq<Seq<char>> {
    match kind {
        PackageType::Formula => seq!["upgrade"@],
        PackageType::Cask => seq!["upgrade"@, "--cask"@],
    }
}

/// The uninstall invocation for one package of the kind.
pub open spec fn uninstall_cmd_spec(kind: PackageType, name: Seq<char>, force: bool) -> Seq<Seq<
    char,
>> {
    let base = match kind {
        PackageType::Formula => seq!["uninstall"@, "--formula"@, name],
        PackageType::Cask => seq!["uninstall"@, "--cask"@, name],
    };
    if force {
        base.push("--force"@)
    } else {
        base
    }
}

/// Zero or one batch invocation: nothing for an empty name list.
pub open spec fn batch_cmds(prefix: Seq<Seq<char>>, names: Seq<Seq<char>>) -> Seq<Seq<Seq<char>>> {
    if names.len() == 0 {
        Seq::empty()
    } else {
        seq![prefix + names]
    }
}

/// One individual invocation per with-options entry: an upgrade where the
/// package is installed, an install where it is not.
pub open spec fn with_options_cmds(
    kind: PackageType,
    entries: Seq<(Seq<char>, Seq<Seq<char>>)>,
    installed: Seq<Seq<char>>,
) -> Seq<Seq<Seq<char>>> {
    Seq::new(
        entries.len(),
        |i: int|
            (if installed.contains(entries[i].0) {
                upgrade_prefix(kind)
            } else {
                install_prefix(kind)
            }).push(entries[i].0) + entries[i].1,
    )
}

/// One forced uninstall invocation per name.
pub open spec fn uninstall_cmds(kind: PackageType, names: Seq<Seq<char>>) -> Seq<Seq<Seq<char>>> {
    Seq::new(names.len(), |i: int| uninstall_cmd_spec(kind, names[i], true))
}

/// Every name and option of a classification result passes validation, so
/// each may reach the actuator's command line.
pub open spec fn ops_valid(ops: OpsView) -> bool {
    &&& forall|i: int|
        0 <= i < ops.to_install.len() ==> valid_package_name(#[trigger] ops.to_install[i])
    &&& forall|i: int|
        0 <= i < ops.to_upgrade.len() ==> valid_package_name(#[trigger] ops.to_upgrade[i])
    &&& forall|i: int|
        0 <= i < ops.to_uninstall.len() ==> valid_package_name(#[trigger] ops.to_uninstall[i])
    &&& forall|i: int|
        0 <= i < ops.with_options.len() ==> valid_package_name(#[trigger] ops.with_options[i].0)
            && (forall|t: int|
            0 <= t < ops.with_options[i].1.len() ==> valid_option(
                #[trigger] ops.with_options[i].1[t],
            ))
}

/// The full command sequence for one kind's classification result.
pub open spec fn execute_ops_cmds(kind: PackageType, ops: OpsView, installed: Seq<Seq<char>>) -> Seq<
    Seq<Seq<char>>,
> {
    batch_cmds(install_prefix(kind), ops.to_install) + batch_cmds(upgrade_prefix(kind), ops.to_upgrade)
        + with_options_cmds(kind, ops.with_options, installed) + uninstall_cmds(
        kind,
        ops.to_uninstall,
    )
}

} // verus!
