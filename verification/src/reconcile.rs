//! The reconciliation driver: one pass takes the desired state (one shard,
//! or every enabled shard merged), an inventory snapshot, and produces the
//! plan — which taps to add and which packages to install, upgrade,
//! handle individually, or uninstall — and the exact actuator command
//! sequence that realizes it.  Diff mode produces the identical plan; only
//! the application decides whether to execute it or print it.

use vstd::prelude::*;

use crate::brew::{BrewClient, BrewCommand};
use crate::error::{ShardError, ShardResult};
use crate::manifest::{decl_index, decl_named, decl_names_unique, decls_contain_name, DeclView,
    Manifest, ManifestView};
use crate::merge::{merge_all, merge_manifests};
use crate::processor::{classify_decl, classify_seq, execute_ops_cmds, ops_valid, OpsView,
    PackageProcessor, PackageProcessResult, PackageType, Placement};
use crate::util::{clone_string_vec, str_eq, vec_contains_str};
use crate::validate::valid_tap_name;

verus! {

/// A read-only snapshot of what is installed, taken at the start of every
/// pass and never cached across passes.
#[derive(Debug)]
pub struct Inventory {
    /// Installed formulae.
    pub installed_formulae: Vec<String>,
    /// Installed casks.
    pub installed_casks: Vec<String>,
    /// Registered taps.
    pub installed_taps: Vec<String>,
    /// Formulae present only as dependencies of others.
    pub dependency_formulae: Vec<String>,
}

/// Mathematical image of an `Inventory`.
#[verifier::ext_equal]
pub ghost struct InventoryView {
    pub installed_formulae: Seq<Seq<char>>,
    pub installed_casks: Seq<Seq<char>>,
    pub installed_taps: Seq<Seq<char>>,
    pub dependency_formulae: Seq<Seq<char>>,
}

impl View for Inventory {
    type V = InventoryView;

    open spec fn view(&self) -> InventoryView {
        InventoryView {
            installed_formulae: self.installed_formulae.deep_view(),
            installed_casks: self.installed_casks.deep_view(),
            installed_taps: self.installed_taps.deep_view(),
            dependency_formulae: self.dependency_formulae.deep_view(),
        }
    }
}

/// Options for one reconciliation pass.
#[derive(Debug, Clone, Copy, PartialEq, Eq, Structural)]
pub struct ApplyOptions {
    /// Only install and upgrade; never uninstall anything implied.  A
    /// single-shard apply is always additive.
    pub additive_only: bool,
    /// Skip the final cleanup invocation.
    pub skip_cleanup: bool,
}

impl Default for ApplyOptions {
    /// By default nothing is skipped: the pass may uninstall and ends
    /// with cleanup.
    fn default() -> (r: Self)
        ensures
            r.additive_only == false,
            r.skip_cleanup == false,
    {
        ApplyOptions { additive_only: false, skip_cleanup: false }
    }
}

/// Everything one pass would do, before anything is executed.
#[derive(Debug)]
pub struct ReconciliationPlan {
    /// Taps to register, in order.
    pub taps_to_add: Vec<String>,
    /// Formula buckets, implied uninstalls folded into `to_uninstall`.
    pub formula_ops: PackageProcessResult,
    /// Cask buckets.
    pub cask_ops: PackageProcessResult,
}

/// Mathematical image of a `ReconciliationPlan`.
#[verifier::ext_equal]
pub ghost struct PlanView {
    pub taps_to_add: Seq<Seq<char>>,
    pub formula_ops: OpsView,
    pub cask_ops: OpsView,
}

impl PlanView {
    /// A pass that would do nothing at all.
    pub open spec fn is_empty(self) -> bool {
        &&& self.taps_to_add.len() == 0
        &&& self.formula_ops.is_empty()
        &&& self.cask_ops.is_empty()
    }
}

impl View for ReconciliationPlan {
    type V = PlanView;

    open spec fn view(&self) -> PlanView {
        PlanView {
            taps_to_add: self.taps_to_add.deep_view(),
            formula_ops: self.formula_ops@,
            cask_ops: self.cask_ops@,
        }
    }
}

/// The hard-coded safety net: packages never removed by implied uninstall,
/// whatever the manifests say.
pub open spec fn is_critical(n: Seq<char>) -> bool {
    ||| n == "git"@
    ||| n == "brew"@
    ||| n == "curl"@
    ||| n == "openssl"@
    ||| n == "python"@
    ||| n == "fish"@
    ||| n == "bash"@
    ||| n == "zsh"@
}

/// Decide whether a name is on the critical allow-list.
pub fn is_critical_package(name: &str) -> (r: bool)
    ensures
        r == is_critical(name@),
{
    str_eq(name, "git") || str_eq(name, "brew") || str_eq(name, "curl") || str_eq(name, "openssl")
        || str_eq(name, "python") || str_eq(name, "fish") || str_eq(name, "bash") || str_eq(
        name,
        "zsh",
    )
}

/// The desired taps that are not yet registered, in declaration order.
pub open spec fn missing_taps(desired: Seq<Seq<char>>, installed: Seq<Seq<char>>) -> Seq<Seq<
    char,
>>
    decreases desired.len(),
{
    if desired.len() == 0 {
        Seq::empty()
    } else {
        let prev = missing_taps(desired.drop_last(), installed);
        if installed.contains(desired.last()) {
            prev
        } else {
            prev.push(desired.last())
        }
    }
}

/// The installed packages that implied uninstall removes: not a dependency,
/// not on the critical allow-list, and not declared by any manifest.
pub open spec fn implied_removals(
    installed: Seq<Seq<char>>,
    deps: Seq<Seq<char>>,
    desired: Seq<DeclView>,
) -> Seq<Seq<char>>
    decreases installed.len(),
{
    if installed.len() == 0 {
        Seq::empty()
    } else {
        let prev = implied_removals(installed.drop_last(), deps, desired);
        let n = installed.last();
        if deps.contains(n) || is_critical(n) || decls_contain_name(desired, n) {
            prev
        } else {
            prev.push(n)
        }
    }
}

/// The plan one pass produces: classification per kind, and — only in a
/// non-additive (merged) pass — the implied uninstalls appended to each
/// kind's uninstall bucket.
pub open spec fn plan_spec(m: ManifestView, inv: InventoryView, additive_only: bool) -> PlanView {
    let f = classify_seq(m.formulas, inv.installed_formulae);
    let c = classify_seq(m.casks, inv.installed_casks);
    PlanView {
        taps_to_add: missing_taps(m.taps, inv.installed_taps),
        formula_ops: if additive_only {
            f
        } else {
            OpsView {
                to_uninstall: f.to_uninstall + implied_removals(
                    inv.installed_formulae,
                    inv.dependency_formulae,
                    m.formulas,
                ),
                ..f
            }
        },
        cask_ops: if additive_only {
            c
        } else {
            OpsView {
                to_uninstall: c.to_uninstall + implied_removals(
                    inv.installed_casks,
                    inv.dependency_formulae,
                    m.casks,
                ),
                ..c
            }
        },
    }
}

/// Whether the declaration list declares `name`.
fn decls_have_name(v: &Vec<crate::manifest::PackageDeclaration>, name: &str) -> (r: bool)
    ensures
        r == decls_contain_name(v.deep_view(), name@),
{
    let n = v.len();
    let mut i: usize = 0;
    while i < n
        invariant
            0 <= i <= n,
            n == v@.len(),
            forall|j: int| 0 <= j < i ==> #[trigger] v.deep_view()[j].name != name@,
        decreases n - i,
    {
        if str_eq(v[i].name.as_str(), name) {
            proof {
                assert(v.deep_view()[i as int].name == name@);
            }
            return true;
        }
        i = i + 1;
    }
    proof {
        if decls_contain_name(v.deep_view(), name@) {
            let j = choose|j: int|
                0 <= j < v.deep_view().len() && #[trigger] v.deep_view()[j].name == name@;
        }
    }
    false
}

/// Append the implied uninstalls for one kind to an uninstall bucket.
fn append_implied(
    bucket: &mut Vec<String>,
    installed: &Vec<String>,
    deps: &Vec<String>,
    desired: &Vec<crate::manifest::PackageDeclaration>,
)
    ensures
        final(bucket).deep_view() == old(bucket).deep_view() + implied_removals(
            installed.deep_view(),
            deps.deep_view(),
            desired.deep_view(),
        ),
{
    let n = installed.len();
    let mut i: usize = 0;
    proof {
        assert(implied_removals(
            installed.deep_view().subrange(0, 0),
            deps.deep_view(),
            desired.deep_view(),
        ) =~= Seq::<Seq<char>>::empty());
        assert(bucket.deep_view() =~= old(bucket).deep_view() + implied_removals(
            installed.deep_view().subrange(0, 0),
            deps.deep_view(),
            desired.deep_view(),
        ));
    }
    while i < n
        invariant
            0 <= i <= n,
            n == installed@.len(),
            bucket.deep_view() == old(bucket).deep_view() + implied_removals(
                installed.deep_view().subrange(0, i as int),
                deps.deep_view(),
                desired.deep_view(),
            ),
        decreases n - i,
    {
        let ghost pre = installed.deep_view().subrange(0, i as int);
        let ghost post = installed.deep_view().subrange(0, i + 1 as int);
        proof {
            assert(post.drop_last() =~= pre);
            assert(post.last() == installed.deep_view()[i as int]);
        }
        let name = installed[i].as_str();
        proof {
            assert(name@ == installed.deep_view()[i as int]);
        }
        let is_dep = vec_contains_str(deps, name);
        proof {
            if crate::util::seq_contains_str(deps@, name@) {
                let j = choose|j: int| 0 <= j < deps@.len() && #[trigger] deps@[j]@ == name@;
                assert(deps.deep_view()[j] == name@);
            } else if deps.deep_view().contains(name@) {
                let j = choose|j: int|
                    0 <= j < deps.deep_view().len() && deps.deep_view()[j] == name@;
                assert(deps@[j]@ == name@);
            }
        }
        let skip = is_dep || is_critical_package(name) || decls_have_name(desired, name);
        if !skip {
            let ghost before = bucket.deep_view();
            bucket.push(installed[i].clone());
            proof {
                assert(bucket.deep_view() =~= before.push(name@));
            }
        }
        proof {
            assert(bucket.deep_view() =~= old(bucket).deep_view() + implied_removals(
                post,
                deps.deep_view(),
                desired.deep_view(),
            ));
        }
        i = i + 1;
    }
    proof {
        assert(installed.deep_view().subrange(0, n as int) =~= installed.deep_view());
    }
}

/// Compute the taps that must be added, in declaration order.
fn compute_missing_taps(desired: &Vec<String>, installed: &Vec<String>) -> (r: Vec<String>)
    ensures
        r.deep_view() == missing_taps(desired.deep_view(), installed.deep_view()),
{
    let n = desired.len();
    let mut r: Vec<String> = Vec::new();
    let mut i: usize = 0;
    proof {
        assert(r.deep_view() =~= missing_taps(
            desired.deep_view().subrange(0, 0),
            installed.deep_view(),
        ));
    }
    while i < n
        invariant
            0 <= i <= n,
            n == desired@.len(),
            r.deep_view() == missing_taps(desired.deep_view().subrange(0, i as int),
                installed.deep_view()),
        decreases n - i,
    {
        let ghost pre = desired.deep_view().subrange(0, i as int);
        let ghost post = desired.deep_view().subrange(0, i + 1 as int);
        proof {
            assert(post.drop_last() =~= pre);
            assert(post.last() == desired.deep_view()[i as int]);
        }
        let name = desired[i].as_str();
        proof {
            assert(name@ == desired.deep_view()[i as int]);
        }
        let present = vec_contains_str(installed, name);
        proof {
            if crate::util::seq_contains_str(installed@, name@) {
                let j = choose|j: int|
                    0 <= j < installed@.len() && #[trigger] installed@[j]@ == name@;
                assert(installed.deep_view()[j] == name@);
            } else if installed.deep_view().contains(name@) {
                let j = choose|j: int|
                    0 <= j < installed.deep_view().len() && installed.deep_view()[j] == name@;
                assert(installed@[j]@ == name@);
            }
        }
        if !present {
            let ghost before = r.deep_view();
            r.push(desired[i].clone());
            proof {
                assert(r.deep_view() =~= before.push(name@));
            }
        }
        proof {
            assert(r.deep_view() =~= missing_taps(post, installed.deep_view()));
        }
        i = i + 1;
    }
    proof {
        assert(desired.deep_view().subrange(0, n as int) =~= desired.deep_view());
    }
    r
}

/// Plan one pass for a single desired-state manifest against the
/// inventory.  A non-additive pass additionally appends the implied
/// uninstalls of each kind.
pub fn plan_manifest(manifest: &Manifest, inventory: &Inventory, options: &ApplyOptions) -> (r:
    ShardResult<ReconciliationPlan>)
    ensures
        r is Ok,
        r matches Ok(p) ==> p@ == plan_spec(manifest@, inventory@, options.additive_only),
{
    let taps_to_add = compute_missing_taps(&manifest.taps, &inventory.installed_taps);

    let formula_processor = PackageProcessor::for_formulae(
        clone_string_vec(&inventory.installed_formulae),
        true,
    );
    let mut formula_ops = match formula_processor.process_packages(&manifest.formulas) {
        Ok(ops) => ops,
        Err(e) => {
            return Err(e);
        },
    };
    proof {
        assert(crate::processor::decls_of(manifest.formulas@) =~= manifest@.formulas);
        assert(formula_processor.installed_packages.deep_view()
            =~= inventory@.installed_formulae);
    }

    let cask_processor = PackageProcessor::for_casks(
        clone_string_vec(&inventory.installed_casks),
        true,
    );
    let mut cask_ops = match cask_processor.process_packages(&manifest.casks) {
        Ok(ops) => ops,
        Err(e) => {
            return Err(e);
        },
    };
    proof {
        assert(crate::processor::decls_of(manifest.casks@) =~= manifest@.casks);
        assert(cask_processor.installed_packages.deep_view() =~= inventory@.installed_casks);
    }

    if !options.additive_only {
        append_implied(
            &mut formula_ops.to_uninstall,
            &inventory.installed_formulae,
            &inventory.dependency_formulae,
            &manifest.formulas,
        );
        append_implied(
            &mut cask_ops.to_uninstall,
            &inventory.installed_casks,
            &inventory.dependency_formulae,
            &manifest.casks,
        );
    }
    let plan = ReconciliationPlan { taps_to_add, formula_ops, cask_ops };
    proof {
        assert(plan@ =~= plan_spec(manifest@, inventory@, options.additive_only));
    }
    Ok(plan)
}

/// Plan one merged pass over every enabled manifest.  This is the "apply
/// all" mode: the manifests are merged additively and the pass may
/// uninstall what no manifest declares.
pub fn plan_all_manifests(manifests: &Vec<Manifest>, inventory: &Inventory, options:
    &ApplyOptions) -> (r: ShardResult<(Manifest, ReconciliationPlan)>)
    ensures
        r is Ok,
        r matches Ok(p) ==> p.0@ == merge_all(manifests.deep_view()) && p.1@ == plan_spec(
            merge_all(manifests.deep_view()),
            inventory@,
            options.additive_only,
        ),
{
    let merged = merge_manifests(manifests);
    let plan = match plan_manifest(&merged, inventory, options) {
        Ok(p) => p,
        Err(e) => {
            return Err(e);
        },
    };
    Ok((merged, plan))
}

/// Diff mode: report what an apply would do, without doing it.  The plan
/// is exactly the one `plan_manifest` would execute.
pub fn diff_manifest(manifest: &Manifest, inventory: &Inventory, options: &ApplyOptions) -> (r:
    ShardResult<ReconciliationPlan>)
    ensures
        r is Ok,
        r matches Ok(p) ==> p@ == plan_spec(manifest@, inventory@, options.additive_only),
{
    plan_manifest(manifest, inventory, options)
}

/// The installed main packages: formulae that are not dependencies, and
/// every installed cask.
pub open spec fn main_formulae_spec(installed: Seq<Seq<char>>, deps: Seq<Seq<char>>) -> Seq<Seq<
    char,
>>
    decreases installed.len(),
{
    if installed.len() == 0 {
        Seq::empty()
    } else {
        let prev = main_formulae_spec(installed.drop_last(), deps);
        if deps.contains(installed.last()) {
            prev
        } else {
            prev.push(installed.last())
        }
    }
}

/// The explicitly installed packages of both kinds: formulae minus
/// dependencies, and every cask.
pub fn get_all_main_packages(
    installed_formulae: &Vec<String>,
    installed_casks: &Vec<String>,
    dependency_formulae: &Vec<String>,
) -> (r: (Vec<String>, Vec<String>))
    ensures
        r.0.deep_view() == main_formulae_spec(
            installed_formulae.deep_view(),
            dependency_formulae.deep_view(),
        ),
        r.1.deep_view() == installed_casks.deep_view(),
{
    let n = installed_formulae.len();
    let mut mains: Vec<String> = Vec::new();
    let mut i: usize = 0;
    proof {
        assert(mains.deep_view() =~= main_formulae_spec(
            installed_formulae.deep_view().subrange(0, 0),
            dependency_formulae.deep_view(),
        ));
    }
    while i < n
        invariant
            0 <= i <= n,
            n == installed_formulae@.len(),
            mains.deep_view() == main_formulae_spec(
                installed_formulae.deep_view().subrange(0, i as int),
                dependency_formulae.deep_view(),
            ),
        decreases n - i,
    {
        let ghost pre = installed_formulae.deep_view().subrange(0, i as int);
        let ghost post = installed_formulae.deep_view().subrange(0, i + 1 as int);
        proof {
            assert(post.drop_last() =~= pre);
            assert(post.last() == installed_formulae.deep_view()[i as int]);
        }
        let name = installed_formulae[i].as_str();
        proof {
            assert(name@ == installed_formulae.deep_view()[i as int]);
        }
        let is_dep = vec_contains_str(dependency_formulae, name);
        proof {
            if crate::util::seq_contains_str(dependency_formulae@, name@) {
                let j = choose|j: int|
                    0 <= j < dependency_formulae@.len() && #[trigger] dependency_formulae@[j]@
                        == name@;
                assert(dependency_formulae.deep_view()[j] == name@);
            } else if dependency_formulae.deep_view().contains(name@) {
                let j = choose|j: int|
                    0 <= j < dependency_formulae.deep_view().len()
                        && dependency_formulae.deep_view()[j] == name@;
                assert(dependency_formulae@[j]@ == name@);
            }
        }
        if !is_dep {
            let ghost before = mains.deep_view();
            mains.push(installed_formulae[i].clone());
            proof {
                assert(mains.deep_view() =~= before.push(name@));
            }
        }
        proof {
            assert(mains.deep_view() =~= main_formulae_spec(
                post,
                dependency_formulae.deep_view(),
            ));
        }
        i = i + 1;
    }
    proof {
        assert(installed_formulae.deep_view().subrange(0, n as int)
            =~= installed_formulae.deep_view());
    }
    (mains, clone_string_vec(installed_casks))
}

/// The tap-registration commands of a pass, in order.
pub open spec fn tap_cmds(taps: Seq<Seq<char>>) -> Seq<Seq<Seq<char>>> {
    Seq::new(taps.len(), |i: int| seq!["tap"@, taps[i]])
}

/// The full ordered command sequence of one pass: tap sync, formula
/// operations, cask operations, then cleanup unless skipped.
pub open spec fn command_sequence(p: PlanView, inv: InventoryView, skip_cleanup: bool) -> Seq<Seq<
    Seq<char>,
>> {
    tap_cmds(p.taps_to_add) + execute_ops_cmds(
        PackageType::Formula,
        p.formula_ops,
        inv.installed_formulae,
    ) + execute_ops_cmds(PackageType::Cask, p.cask_ops, inv.installed_casks) + (if skip_cleanup {
        Seq::empty()
    } else {
        seq![seq!["cleanup"@, "--prune=all"@]]
    })
}

/// Append a command list to another.
fn append_cmds(dst: &mut Vec<BrewCommand>, src: Vec<BrewCommand>)
    ensures
        final(dst).deep_view() == old(dst).deep_view() + src.deep_view(),
{
    let ghost src_view = src.deep_view();
    let mut rest = src;
    proof {
        assert(rest.deep_view() =~= src_view.subrange(0, src_view.len() as int));
        assert(dst.deep_view() + src_view.subrange(0, 0) =~= dst.deep_view());
    }
    while rest.len() > 0
        invariant
            rest@.len() <= src_view.len(),
            rest.deep_view() == src_view.subrange(
                src_view.len() - rest@.len(),
                src_view.len() as int,
            ),
            dst.deep_view() == old(dst).deep_view() + src_view.subrange(
                0,
                src_view.len() - rest@.len(),
            ),
        decreases rest@.len(),
    {
        let ghost consumed = src_view.len() - rest@.len();
        let ghost rest_deep_before = rest.deep_view();
        let ghost rest_raw_before = rest@;
        let c = rest.remove(0);
        let ghost cval = c;
        let ghost cv = c.deep_view();
        proof {
            assert(cval == rest_raw_before[0]);
            assert(cv == rest_raw_before[0].deep_view());
            assert(cv == rest_deep_before[0]);
            assert(cv == src_view[consumed]);
            assert(rest@ == rest_raw_before.remove(0));
            assert forall|t: int| 0 <= t < rest@.len() implies rest.deep_view()[t]
                == src_view.subrange(consumed + 1, src_view.len() as int)[t] by {
                assert(rest.deep_view()[t] == rest@[t].deep_view());
                assert(rest@[t] == rest_raw_before[t + 1]);
                assert(rest_raw_before[t + 1].deep_view() == rest_deep_before[t + 1]);
                assert(rest_deep_before[t + 1] == src_view[consumed + 1 + t]);
            }
            assert(rest.deep_view() =~= src_view.subrange(consumed + 1, src_view.len() as int));
        }
        let ghost before = dst.deep_view();
        let ghost before_raw = dst@;
        dst.push(c);
        proof {
            assert(dst@ == before_raw.push(cval));
            assert(dst@.len() == before.len() + 1);
            let target = old(dst).deep_view() + src_view.subrange(0, consumed + 1);
            assert forall|t: int| 0 <= t < dst@.len() implies dst.deep_view()[t] == target[t] by {
                assert(dst.deep_view()[t] == dst@[t].deep_view());
                if t < before.len() {
                    assert(dst.deep_view()[t] == before[t]);
                    if t >= old(dst).deep_view().len() {
                        assert(before[t] == src_view.subrange(0, consumed)[t - old(
                            dst,
                        ).deep_view().len()]);
                    }
                } else {
                    assert(dst.deep_view()[t] == cv);
                }
            }
            assert(dst.deep_view() =~= target);
        }
    }
    proof {
        assert(src_view.subrange(0, src_view.len() as int) =~= src_view);
    }
}

/// Every tap name of the plan passes validation.
pub open spec fn taps_valid(taps: Seq<Seq<char>>) -> bool {
    forall|i: int| 0 <= i < taps.len() ==> valid_tap_name(#[trigger] taps[i])
}

/// Build the full ordered command sequence for a plan: taps first, then
/// the formula operations, then the cask operations, then cleanup unless
/// skipped.  Fails exactly when some name or option of the plan would not
/// survive validation.
pub fn plan_commands(
    client: &BrewClient,
    plan: &ReconciliationPlan,
    inventory: &Inventory,
    options: &ApplyOptions,
) -> (r: ShardResult<Vec<BrewCommand>>)
    ensures
        r is Ok <==> taps_valid(plan@.taps_to_add) && ops_valid(plan@.formula_ops) && ops_valid(
            plan@.cask_ops,
        ),
        r matches Ok(cmds) ==> cmds.deep_view() == command_sequence(
            plan@,
            inventory@,
            options.skip_cleanup,
        ),
        r matches Err(e) ==> e matches ShardError::ValidationError(_),
{
    let mut cmds: Vec<BrewCommand> = Vec::new();

    // Tap sync, one registration per missing tap.
    let n = plan.taps_to_add.len();
    let mut i: usize = 0;
    proof {
        assert(cmds.deep_view() =~= tap_cmds(plan@.taps_to_add.subrange(0, 0)));
    }
    while i < n
        invariant
            0 <= i <= n,
            n == plan.taps_to_add@.len(),
            cmds.deep_view() == tap_cmds(plan@.taps_to_add.subrange(0, i as int)),
            forall|j: int| 0 <= j < i ==> valid_tap_name(#[trigger] plan@.taps_to_add[j]),
        decreases n - i,
    {
        let name = plan.taps_to_add[i].as_str();
        proof {
            assert(name@ == plan@.taps_to_add[i as int]);
        }
        let cmd = match client.add_tap(name) {
            Ok(c) => c,
            Err(e) => {
                proof {
                    assert(!valid_tap_name(plan@.taps_to_add[i as int]));
                }
                return Err(e);
            },
        };
        let ghost cv = cmd@;
        let ghost before = cmds.deep_view();
        let ghost before_raw = cmds@;
        let ghost cmdv = cmd;
        cmds.push(cmd);
        proof {
            let pre = plan@.taps_to_add.subrange(0, i as int);
            let post = plan@.taps_to_add.subrange(0, i + 1 as int);
            assert(cmds@ == before_raw.push(cmdv));
            assert(cmds@.len() == before.len() + 1);
            let target = tap_cmds(post);
            assert forall|t: int| 0 <= t < cmds@.len() implies cmds.deep_view()[t] == target[t] by {
                assert(cmds.deep_view()[t] == cmds@[t].deep_view());
                if t < before.len() {
                    assert(cmds.deep_view()[t] == before[t]);
                    assert(before[t] == seq!["tap"@, pre[t]]);
                    assert(pre[t] == plan@.taps_to_add[t]);
                    assert(post[t] == plan@.taps_to_add[t]);
                } else {
                    assert(cmds.deep_view()[t] == cv);
                    assert(post[t] == plan@.taps_to_add[i as int]);
                }
            }
            assert(cmds.deep_view() =~= target);
        }
        i = i + 1;
    }
    proof {
        assert(plan@.taps_to_add.subrange(0, n as int) =~= plan@.taps_to_add);
    }

    // Formula operations.
    let formula_processor = PackageProcessor::for_formulae(
        clone_string_vec(&inventory.installed_formulae),
        true,
    );
    let formula_cmds = match formula_processor.execute_operations(
        client,
        &plan.formula_ops,
        false,
    ) {
        Ok(cs) => cs,
        Err(e) => {
            return Err(e);
        },
    };
    proof {
        assert(formula_processor.installed_packages.deep_view()
            =~= inventory@.installed_formulae);
    }
    append_cmds(&mut cmds, formula_cmds);

    // Cask operations.
    let cask_processor = PackageProcessor::for_casks(
        clone_string_vec(&inventory.installed_casks),
        true,
    );
    let cask_cmds = match cask_processor.execute_operations(client, &plan.cask_ops, false) {
        Ok(cs) => cs,
        Err(e) => {
            return Err(e);
        },
    };
    proof {
        assert(cask_processor.installed_packages.deep_view() =~= inventory@.installed_casks);
    }
    append_cmds(&mut cmds, cask_cmds);

    // Cleanup.
    if !options.skip_cleanup {
        let cleanup = client.cleanup(true);
        let ghost cv = cleanup@;
        let ghost before = cmds.deep_view();
        let ghost before_raw = cmds@;
        let ghost cmdv = cleanup;
        cmds.push(cleanup);
        proof {
            assert(cmds@ == before_raw.push(cmdv));
            assert(cmds@.len() == before.len() + 1);
            assert forall|t: int| 0 <= t < cmds@.len() implies cmds.deep_view()[t] == (before.push(
                cv,
            ))[t] by {
                assert(cmds.deep_view()[t] == cmds@[t].deep_view());
                if t < before.len() {
                    assert(cmds.deep_view()[t] == before[t]);
                } else {
                    assert(cmds.deep_view()[t] == cv);
                }
            }
            assert(cmds.deep_view() =~= before.push(cv));
            assert(cmds.deep_view() =~= command_sequence(plan@, inventory@, false));
        }
    } else {
        proof {
            assert(cmds.deep_view() =~= command_sequence(plan@, inventory@, true));
        }
    }
    Ok(cmds)
}

/// What holds of a kind's installed set after a successful non-additive
/// pass: a declared package is installed exactly when its declaration is
/// not `Absent`; an undeclared one survives only as a dependency or a
/// critical package.
pub open spec fn installed_after(
    before: Seq<Seq<char>>,
    deps: Seq<Seq<char>>,
    ds: Seq<DeclView>,
    n: Seq<char>,
) -> bool {
    if decls_contain_name(ds, n) {
        !(decl_named(ds, n).state is Absent)
    } else {
        before.contains(n) && (deps.contains(n) || is_critical(n))
    }
}

/// Nothing implied for removal is declared by any manifest.
proof fn lemma_implied_not_declared(
    installed: Seq<Seq<char>>,
    deps: Seq<Seq<char>>,
    ds: Seq<DeclView>,
)
    ensures
        forall|n: Seq<char>|
            implied_removals(installed, deps, ds).contains(n) ==> !decls_contain_name(ds, n),
    decreases installed.len(),
{
    if installed.len() == 0 {
        assert forall|n: Seq<char>|
            implied_removals(installed, deps, ds).contains(n) implies !decls_contain_name(
            ds,
            n,
        ) by {
            let j = choose|j: int|
                0 <= j < implied_removals(installed, deps, ds).len() && implied_removals(
                    installed,
                    deps,
                    ds,
                )[j] == n;
        }
    } else {
        lemma_implied_not_declared(installed.drop_last(), deps, ds);
        let prev = implied_removals(installed.drop_last(), deps, ds);
        let out = implied_removals(installed, deps, ds);
        assert forall|n: Seq<char>| out.contains(n) implies !decls_contain_name(ds, n) by {
            let j = choose|j: int| 0 <= j < out.len() && out[j] == n;
            if j < prev.len() {
                assert(prev[j] == n);
                assert(prev.contains(n));
            } else {
                assert(n == installed.last());
            }
        }
    }
}

/// A package name stands in at most one bucket of a plan, per kind: the
/// classification buckets never overlap, and the implied uninstalls touch
/// only names no manifest declares.
pub proof fn lemma_plan_buckets_disjoint(m: ManifestView, inv: InventoryView, additive_only:
    bool)
    requires
        decl_names_unique(m.formulas),
        decl_names_unique(m.casks),
    ensures
        crate::processor::buckets_disjoint(plan_spec(m, inv, additive_only).formula_ops),
        crate::processor::buckets_disjoint(plan_spec(m, inv, additive_only).cask_ops),
{
    crate::processor::lemma_classify_buckets_disjoint(m.formulas, inv.installed_formulae);
    crate::processor::lemma_classify_buckets_disjoint(m.casks, inv.installed_casks);
    if !additive_only {
        lemma_ops_with_implied_disjoint(
            m.formulas,
            inv.installed_formulae,
            inv.dependency_formulae,
        );
        lemma_ops_with_implied_disjoint(m.casks, inv.installed_casks, inv.dependency_formulae);
    }
}

/// Appending the implied removals to the uninstall bucket keeps the
/// buckets disjoint.
proof fn lemma_ops_with_implied_disjoint(ds: Seq<DeclView>, installed: Seq<Seq<char>>, deps: Seq<
    Seq<char>,
>)
    requires
        decl_names_unique(ds),
    ensures
        crate::processor::buckets_disjoint(
            OpsView {
                to_uninstall: classify_seq(ds, installed).to_uninstall + implied_removals(
                    installed,
                    deps,
                    ds,
                ),
                ..classify_seq(ds, installed)
            },
        ),
{
    let f = classify_seq(ds, installed);
    let implied = implied_removals(installed, deps, ds);
    let ops = OpsView { to_uninstall: f.to_uninstall + implied, ..f };
    crate::processor::lemma_classify_buckets_disjoint(ds, installed);
    lemma_implied_not_declared(installed, deps, ds);
    // Membership in the extended uninstall bucket splits into the
    // classification part and the implied part.
    assert forall|n: Seq<char>| #[trigger]
        ops.to_uninstall.contains(n) implies f.to_uninstall.contains(n) || (implied.contains(n)
        && !decls_contain_name(ds, n)) by {
        let j = choose|j: int| 0 <= j < ops.to_uninstall.len() && ops.to_uninstall[j] == n;
        if j < f.to_uninstall.len() {
            assert(f.to_uninstall[j] == n);
        } else {
            assert(implied[j - f.to_uninstall.len()] == n);
            assert(implied.contains(n));
        }
    }
    assert forall|n: Seq<char>| #[trigger]
        f.to_uninstall.contains(n) implies ops.to_uninstall.contains(n) by {
        let j = choose|j: int| 0 <= j < f.to_uninstall.len() && f.to_uninstall[j] == n;
        assert(ops.to_uninstall[j] == n);
    }
    assert forall|n: Seq<char>| #[trigger]
        ops.to_install.contains(n) implies !ops.to_upgrade.contains(n) && !ops.to_uninstall.contains(
        n,
    ) && !(exists|j: int|
        0 <= j < ops.with_options.len() && #[trigger] ops.with_options[j].0 == n) by {
        if ops.to_uninstall.contains(n) {
            if f.to_uninstall.contains(n) {
            } else {
                assert(f.mentions(n));
                crate::processor::lemma_classify_mentions_source(ds, installed, n);
            }
        }
    }
    assert forall|n: Seq<char>| #[trigger]
        ops.to_upgrade.contains(n) implies !ops.to_uninstall.contains(n) && !(exists|j: int|
        0 <= j < ops.with_options.len() && #[trigger] ops.with_options[j].0 == n) by {
        if ops.to_uninstall.contains(n) {
            if f.to_uninstall.contains(n) {
            } else {
                assert(f.mentions(n));
                crate::processor::lemma_classify_mentions_source(ds, installed, n);
            }
        }
    }
    assert forall|n: Seq<char>| #[trigger]
        ops.to_uninstall.contains(n) implies !(exists|j: int|
        0 <= j < ops.with_options.len() && #[trigger] ops.with_options[j].0 == n) by {
        if exists|j: int| 0 <= j < ops.with_options.len() && #[trigger] ops.with_options[j].0
            == n {
            if f.to_uninstall.contains(n) {
            } else {
                assert(f.mentions(n));
                crate::processor::lemma_classify_mentions_source(ds, installed, n);
            }
        }
    }
}

/// No tap is missing when every desired tap is installed.
proof fn lemma_missing_taps_none(desired: Seq<Seq<char>>, installed: Seq<Seq<char>>)
    requires
        forall|i: int| 0 <= i < desired.len() ==> installed.contains(#[trigger] desired[i]),
    ensures
        missing_taps(desired, installed) == Seq::<Seq<char>>::empty(),
    decreases desired.len(),
{
    if desired.len() == 0 {
        assert(missing_taps(desired, installed) =~= Seq::<Seq<char>>::empty());
    } else {
        let prefix = desired.drop_last();
        assert(forall|i: int| 0 <= i < prefix.len() ==> prefix[i] == desired[i]);
        lemma_missing_taps_none(prefix, installed);
        assert(installed.contains(desired[desired.len() - 1]));
    }
}

/// Classification adds nothing when every declaration classifies to
/// nothing.
proof fn lemma_classify_all_nothing(ds: Seq<DeclView>, inv: Seq<Seq<char>>)
    requires
        forall|i: int|
            0 <= i < ds.len() ==> classify_decl(#[trigger] ds[i], inv.contains(ds[i].name))
                is Nothing,
    ensures
        classify_seq(ds, inv) == OpsView::empty(),
    decreases ds.len(),
{
    if ds.len() == 0 {
    } else {
        let prefix = ds.drop_last();
        assert(forall|i: int| 0 <= i < prefix.len() ==> prefix[i] == ds[i]);
        lemma_classify_all_nothing(prefix, inv);
        assert(classify_decl(ds[ds.len() - 1], inv.contains(ds[ds.len() - 1].name)) is Nothing);
    }
}

/// Implied uninstall removes nothing when every installed package is a
/// dependency, critical, or declared.
proof fn lemma_implied_none(installed: Seq<Seq<char>>, deps: Seq<Seq<char>>, ds: Seq<DeclView>)
    requires
        forall|i: int|
            0 <= i < installed.len() ==> deps.contains(#[trigger] installed[i]) || is_critical(
                installed[i],
            ) || decls_contain_name(ds, installed[i]),
    ensures
        implied_removals(installed, deps, ds) == Seq::<Seq<char>>::empty(),
    decreases installed.len(),
{
    if installed.len() == 0 {
        assert(implied_removals(installed, deps, ds) =~= Seq::<Seq<char>>::empty());
    } else {
        let prefix = installed.drop_last();
        assert(forall|i: int| 0 <= i < prefix.len() ==> prefix[i] == installed[i]);
        lemma_implied_none(prefix, deps, ds);
        assert(deps.contains(installed[installed.len() - 1]) || is_critical(
            installed[installed.len() - 1],
        ) || decls_contain_name(ds, installed[installed.len() - 1]));
    }
}

/// Idempotence of a successful pass: after a non-additive apply whose
/// every operation succeeded, re-planning the same manifest against the
/// new inventory yields an empty plan.
///
/// The law holds of declarations without `Latest` state and without
/// options: an installed `Latest` declaration is upgraded on every pass by
/// design, and a declaration with options is re-issued individually on
/// every pass, so neither can yield an empty second plan.
#[verifier::rlimit(60)]
pub proof fn lemma_apply_idempotent(m: ManifestView, inv: InventoryView, inv2: InventoryView)
    requires
        decl_names_unique(m.formulas),
        decl_names_unique(m.casks),
        forall|i: int|
            0 <= i < m.formulas.len() ==> !(#[trigger] m.formulas[i].state is Latest)
                && m.formulas[i].options.len() == 0,
        forall|i: int|
            0 <= i < m.casks.len() ==> !(#[trigger] m.casks[i].state is Latest)
                && m.casks[i].options.len() == 0,
        forall|n: Seq<char>|
            #![trigger inv2.installed_taps.contains(n)]
            #![trigger m.taps.contains(n)]
            inv2.installed_taps.contains(n) <==> (inv.installed_taps.contains(n)
                || m.taps.contains(n)),
        forall|n: Seq<char>|
            #![trigger inv2.installed_formulae.contains(n)]
            inv2.installed_formulae.contains(n) <==> installed_after(
                inv.installed_formulae,
                inv.dependency_formulae,
                m.formulas,
                n,
            ),
        forall|n: Seq<char>|
            #![trigger inv2.installed_casks.contains(n)]
            inv2.installed_casks.contains(n) <==> installed_after(
                inv.installed_casks,
                inv.dependency_formulae,
                m.casks,
                n,
            ),
        inv2.dependency_formulae == inv.dependency_formulae,
    ensures
        plan_spec(m, inv2, false).is_empty(),
{
    let p = plan_spec(m, inv2, false);
    // Taps: every desired tap is now installed.
    assert forall|i: int|
        0 <= i < m.taps.len() implies inv2.installed_taps.contains(#[trigger] m.taps[i]) by {
        assert(m.taps.contains(m.taps[i]));
    }
    lemma_missing_taps_none(m.taps, inv2.installed_taps);

    // Formulae: every declaration now classifies to nothing.
    assert forall|i: int|
        0 <= i < m.formulas.len() implies classify_decl(
        #[trigger] m.formulas[i],
        inv2.installed_formulae.contains(m.formulas[i].name),
    ) is Nothing by {
        let d = m.formulas[i];
        assert(m.formulas[i].name == d.name);
        assert(decls_contain_name(m.formulas, d.name));
        let k = decl_index(m.formulas, d.name);
        assert(0 <= k < m.formulas.len() && m.formulas[k].name == d.name);
        if k != i {
            if k < i {
                assert(m.formulas[k].name != m.formulas[i].name);
            } else {
                assert(m.formulas[i].name != m.formulas[k].name);
            }
        }
        assert(decl_named(m.formulas, d.name) == d);
        if d.state is Absent {
            assert(!inv2.installed_formulae.contains(d.name));
        } else {
            assert(inv2.installed_formulae.contains(d.name));
        }
    }
    lemma_classify_all_nothing(m.formulas, inv2.installed_formulae);

    // Casks: the same argument.
    assert forall|i: int|
        0 <= i < m.casks.len() implies classify_decl(
        #[trigger] m.casks[i],
        inv2.installed_casks.contains(m.casks[i].name),
    ) is Nothing by {
        let d = m.casks[i];
        assert(m.casks[i].name == d.name);
        assert(decls_contain_name(m.casks, d.name));
        let k = decl_index(m.casks, d.name);
        assert(0 <= k < m.casks.len() && m.casks[k].name == d.name);
        if k != i {
            if k < i {
                assert(m.casks[k].name != m.casks[i].name);
            } else {
                assert(m.casks[i].name != m.casks[k].name);
            }
        }
        assert(decl_named(m.casks, d.name) == d);
        if d.state is Absent {
            assert(!inv2.installed_casks.contains(d.name));
        } else {
            assert(inv2.installed_casks.contains(d.name));
        }
    }
    lemma_classify_all_nothing(m.casks, inv2.installed_casks);

    // Implied uninstall: everything still installed is a dependency,
    // critical, or declared.
    assert forall|i: int|
        0 <= i < inv2.installed_formulae.len() implies inv2.dependency_formulae.contains(
        #[trigger] inv2.installed_formulae[i],
    ) || is_critical(inv2.installed_formulae[i]) || decls_contain_name(
        m.formulas,
        inv2.installed_formulae[i],
    ) by {
        let n = inv2.installed_formulae[i];
        assert(inv2.installed_formulae.contains(n));
        if !decls_contain_name(m.formulas, n) {
            assert(inv.installed_formulae.contains(n) && (inv.dependency_formulae.contains(n)
                || is_critical(n)));
        }
    }
    lemma_implied_none(inv2.installed_formulae, inv2.dependency_formulae, m.formulas);
    assert forall|i: int|
        0 <= i < inv2.installed_casks.len() implies inv2.dependency_formulae.contains(
        #[trigger] inv2.installed_casks[i],
    ) || is_critical(inv2.installed_casks[i]) || decls_contain_name(
        m.casks,
        inv2.installed_casks[i],
    ) by {
        let n = inv2.installed_casks[i];
        assert(inv2.installed_casks.contains(n));
        if !decls_contain_name(m.casks, n) {
            assert(inv.installed_casks.contains(n) && (inv.dependency_formulae.contains(n)
                || is_critical(n)));
        }
    }
    lemma_implied_none(inv2.installed_casks, inv2.dependency_formulae, m.casks);

    assert(p.formula_ops.to_uninstall =~= Seq::<Seq<char>>::empty());
    assert(p.cask_ops.to_uninstall =~= Seq::<Seq<char>>::empty());
}

} // verus!
