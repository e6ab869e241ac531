//! The diff engine, the merger, and the reconciliation planner on
//! concrete values.

use shard::{ApplyOptions, Inventory, Manifest, PackageDeclaration, PackageProcessor,
    PackageState, PackageType, merge_manifests, plan_manifest};

fn decl(name: &str, state: PackageState) -> PackageDeclaration {
    PackageDeclaration {
        name: name.to_string(),
        version: "latest".to_string(),
        options: Vec::new(),
        state,
    }
}

fn decl_with_options(name: &str, state: PackageState, options: &[&str]) -> PackageDeclaration {
    PackageDeclaration {
        name: name.to_string(),
        version: "latest".to_string(),
        options: options.iter().map(|s| s.to_string()).collect(),
        state,
    }
}

fn manifest_with_formulas(formulas: Vec<PackageDeclaration>) -> Manifest {
    let mut m = Manifest::new();
    m.formulas = formulas;
    m
}

fn strings(items: &[&str]) -> Vec<String> {
    items.iter().map(|s| s.to_string()).collect()
}

fn inventory(formulae: &[&str], casks: &[&str], taps: &[&str], deps: &[&str]) -> Inventory {
    Inventory {
        installed_formulae: strings(formulae),
        installed_casks: strings(casks),
        installed_taps: strings(taps),
        dependency_formulae: strings(deps),
    }
}

#[test]
fn absent_not_installed_is_no_op() {
    let processor = PackageProcessor::for_formulae(strings(&["git"]), true);
    let packages = vec![decl("wget", PackageState::Absent)];
    let ops = processor.process_packages(&packages).unwrap();
    assert_eq!(ops.to_install.len(), 0);
    assert_eq!(ops.to_upgrade.len(), 0);
    assert_eq!(ops.with_options.len(), 0);
    assert_eq!(ops.to_uninstall.len(), 0);
}

#[test]
fn absent_installed_is_uninstalled() {
    let processor = PackageProcessor::for_formulae(strings(&["wget"]), true);
    let packages = vec![decl("wget", PackageState::Absent)];
    let ops = processor.process_packages(&packages).unwrap();
    assert_eq!(ops.to_uninstall, strings(&["wget"]));
    assert_eq!(ops.to_install.len(), 0);
}

#[test]
fn options_always_go_individual() {
    let processor = PackageProcessor::for_formulae(strings(&["vim"]), true);
    let packages = vec![
        decl_with_options("vim", PackageState::Latest, &["--with-lua"]),
        decl_with_options("tmux", PackageState::Present, &["--head"]),
    ];
    let ops = processor.process_packages(&packages).unwrap();
    assert_eq!(ops.to_install.len(), 0);
    assert_eq!(ops.to_upgrade.len(), 0);
    assert_eq!(ops.with_options.len(), 2);
    assert_eq!(ops.with_options[0].0, "vim");
    assert_eq!(ops.with_options[0].1, strings(&["--with-lua"]));
    assert_eq!(ops.with_options[1].0, "tmux");
}

#[test]
fn classification_covers_all_rules() {
    let processor = PackageProcessor::for_formulae(strings(&["a", "b", "c"]), true);
    let packages = vec![
        decl("a", PackageState::Latest),   // installed + latest -> upgrade
        decl("b", PackageState::Present),  // installed + present -> nothing
        decl("c", PackageState::Absent),   // installed + absent -> uninstall
        decl("d", PackageState::Latest),   // missing -> install
        decl("e", PackageState::Present),  // missing -> install
        decl("f", PackageState::Absent),   // missing + absent -> nothing
    ];
    let ops = processor.process_packages(&packages).unwrap();
    assert_eq!(ops.to_upgrade, strings(&["a"]));
    assert_eq!(ops.to_uninstall, strings(&["c"]));
    assert_eq!(ops.to_install, strings(&["d", "e"]));
    assert_eq!(ops.with_options.len(), 0);
}

#[test]
fn simplified_names_default_to_latest() {
    let processor = PackageProcessor::for_casks(strings(&["firefox"]), true);
    let names = strings(&["firefox", "obsidian"]);
    let ops = processor.process_packages(&names).unwrap();
    assert_eq!(ops.to_upgrade, strings(&["firefox"]));
    assert_eq!(ops.to_install, strings(&["obsidian"]));
}

#[test]
fn merge_is_additive_and_latest_wins() {
    // One manifest wants git at latest, another just present: merged state
    // is latest.
    let a = manifest_with_formulas(vec![decl("git", PackageState::Latest)]);
    let b = manifest_with_formulas(vec![decl("git", PackageState::Present)]);
    let merged = merge_manifests(&vec![a, b]);
    assert_eq!(merged.formulas.len(), 1);
    assert_eq!(merged.formulas[0].name, "git");
    assert_eq!(merged.formulas[0].state, PackageState::Latest);

    // The other order merges to the same state.
    let a2 = manifest_with_formulas(vec![decl("git", PackageState::Present)]);
    let b2 = manifest_with_formulas(vec![decl("git", PackageState::Latest)]);
    let merged2 = merge_manifests(&vec![a2, b2]);
    assert_eq!(merged2.formulas[0].state, PackageState::Latest);
}

#[test]
fn merge_drops_absent_and_keeps_first_options() {
    let a = manifest_with_formulas(vec![
        decl("doomed", PackageState::Absent),
        decl_with_options("vim", PackageState::Present, &[]),
    ]);
    let b = manifest_with_formulas(vec![
        decl_with_options("vim", PackageState::Present, &["--with-lua"]),
        decl_with_options("vim2", PackageState::Present, &["--first"]),
    ]);
    let c = manifest_with_formulas(vec![
        decl_with_options("vim2", PackageState::Present, &["--second"]),
    ]);
    let merged = merge_manifests(&vec![a, b, c]);
    let names: Vec<&str> = merged.formulas.iter().map(|d| d.name.as_str()).collect();
    assert!(!names.contains(&"doomed"));
    let vim = merged.formulas.iter().find(|d| d.name == "vim").unwrap();
    // vim entered with empty options; the first non-empty list wins later.
    assert_eq!(vim.options, strings(&["--with-lua"]));
    let vim2 = merged.formulas.iter().find(|d| d.name == "vim2").unwrap();
    assert_eq!(vim2.options, strings(&["--first"]));
}

#[test]
fn merge_unions_taps_without_duplicates() {
    let mut a = Manifest::new();
    a.taps = strings(&["homebrew/core", "user/tools"]);
    let mut b = Manifest::new();
    b.taps = strings(&["homebrew/core", "other/tap"]);
    let merged = merge_manifests(&vec![a, b]);
    assert_eq!(merged.taps, strings(&["homebrew/core", "user/tools", "other/tap"]));
}

#[test]
fn merge_is_associative_on_values() {
    let a = manifest_with_formulas(vec![decl("git", PackageState::Latest)]);
    let b = manifest_with_formulas(vec![
        decl("git", PackageState::Present),
        decl_with_options("vim", PackageState::Present, &["--x"]),
    ]);
    let c = manifest_with_formulas(vec![decl("wget", PackageState::Present)]);

    let ab = merge_manifests(&vec![a, b]);
    let a2 = manifest_with_formulas(vec![decl("git", PackageState::Latest)]);
    let b2 = manifest_with_formulas(vec![
        decl("git", PackageState::Present),
        decl_with_options("vim", PackageState::Present, &["--x"]),
    ]);
    let c2 = manifest_with_formulas(vec![decl("wget", PackageState::Present)]);

    let left = merge_manifests(&vec![ab, c]);
    let right = merge_manifests(&vec![a2, b2, c2]);
    assert_eq!(left.formulas.len(), right.formulas.len());
    for (l, r) in left.formulas.iter().zip(right.formulas.iter()) {
        assert_eq!(l.name, r.name);
        assert_eq!(l.state, r.state);
        assert_eq!(l.options, r.options);
        assert_eq!(l.version, r.version);
    }
    assert_eq!(left.taps, right.taps);
}

#[test]
fn merged_latest_upgrades_installed_package() {
    // Manifest A declares git at latest, manifest B declares git present;
    // git is installed: the merged pass upgrades it.
    let a = manifest_with_formulas(vec![decl("git", PackageState::Latest)]);
    let b = manifest_with_formulas(vec![decl("git", PackageState::Present)]);
    let merged = merge_manifests(&vec![a, b]);
    assert_eq!(merged.formulas[0].state, PackageState::Latest);

    let inv = inventory(&["git"], &[], &[], &[]);
    let options = ApplyOptions { additive_only: true, skip_cleanup: true };
    let plan = plan_manifest(&merged, &inv, &options).unwrap();
    assert_eq!(plan.formula_ops.to_upgrade, strings(&["git"]));
    assert_eq!(plan.formula_ops.to_install.len(), 0);
    assert_eq!(plan.formula_ops.to_uninstall.len(), 0);
}

#[test]
fn implied_uninstall_spares_dependencies_and_critical() {
    // Installed: git, wget, jq; jq is a dependency; only git is desired.
    // git is desired (and critical), jq is a dependency: only wget goes.
    let desired = manifest_with_formulas(vec![decl("git", PackageState::Present)]);
    let inv = inventory(&["git", "wget", "jq"], &[], &[], &["jq"]);
    let options = ApplyOptions { additive_only: false, skip_cleanup: true };
    let plan = plan_manifest(&desired, &inv, &options).unwrap();
    assert_eq!(plan.formula_ops.to_uninstall, strings(&["wget"]));
}

#[test]
fn critical_packages_survive_implied_uninstall() {
    let desired = manifest_with_formulas(vec![]);
    let inv = inventory(&["bash", "zsh", "curl", "openssl", "randomtool"], &[], &[], &[]);
    let options = ApplyOptions { additive_only: false, skip_cleanup: true };
    let plan = plan_manifest(&desired, &inv, &options).unwrap();
    assert_eq!(plan.formula_ops.to_uninstall, strings(&["randomtool"]));
}

#[test]
fn additive_pass_never_uninstalls_implied() {
    let desired = manifest_with_formulas(vec![decl("git", PackageState::Present)]);
    let inv = inventory(&["git", "wget"], &[], &[], &[]);
    let options = ApplyOptions { additive_only: true, skip_cleanup: true };
    let plan = plan_manifest(&desired, &inv, &options).unwrap();
    assert_eq!(plan.formula_ops.to_uninstall.len(), 0);
}

#[test]
fn second_run_on_reconciled_inventory_is_empty() {
    // First pass: vim is installed, doomed is removed, a tap is added.
    let mut m = Manifest::new();
    m.taps = strings(&["user/tools"]);
    m.formulas = vec![
        decl("vim", PackageState::Present),
        decl("doomed", PackageState::Absent),
    ];
    let inv = inventory(&["doomed", "helper"], &[], &[], &["helper"]);
    let options = ApplyOptions { additive_only: false, skip_cleanup: true };
    let first = plan_manifest(&m, &inv, &options).unwrap();
    assert_eq!(first.taps_to_add, strings(&["user/tools"]));
    assert_eq!(first.formula_ops.to_install, strings(&["vim"]));
    assert_eq!(first.formula_ops.to_uninstall, strings(&["doomed"]));

    // Reconciled inventory: vim present, doomed gone, dependency kept, tap
    // registered.  The second pass plans nothing.
    let inv2 = inventory(&["vim", "helper"], &[], &["user/tools"], &["helper"]);
    let second = plan_manifest(&m, &inv2, &options).unwrap();
    assert_eq!(second.taps_to_add.len(), 0);
    assert_eq!(second.formula_ops.to_install.len(), 0);
    assert_eq!(second.formula_ops.to_upgrade.len(), 0);
    assert_eq!(second.formula_ops.with_options.len(), 0);
    assert_eq!(second.formula_ops.to_uninstall.len(), 0);
    assert_eq!(second.cask_ops.to_install.len(), 0);
    assert_eq!(second.cask_ops.to_uninstall.len(), 0);
}

#[test]
fn diff_produces_the_same_plan_as_apply() {
    let m = manifest_with_formulas(vec![
        decl("git", PackageState::Latest),
        decl("new", PackageState::Present),
    ]);
    let inv = inventory(&["git", "stale"], &[], &[], &[]);
    let options = ApplyOptions { additive_only: false, skip_cleanup: false };
    let applied = plan_manifest(&m, &inv, &options).unwrap();
    let diffed = shard::diff_manifest(&m, &inv, &options).unwrap();
    assert_eq!(applied.taps_to_add, diffed.taps_to_add);
    assert_eq!(applied.formula_ops.to_install, diffed.formula_ops.to_install);
    assert_eq!(applied.formula_ops.to_upgrade, diffed.formula_ops.to_upgrade);
    assert_eq!(applied.formula_ops.to_uninstall, diffed.formula_ops.to_uninstall);
    assert_eq!(applied.cask_ops.to_install, diffed.cask_ops.to_install);
}

#[test]
fn main_packages_exclude_dependencies() {
    let (mains, casks) = shard::get_all_main_packages(
        &strings(&["git", "wget", "jq"]),
        &strings(&["firefox"]),
        &strings(&["jq"]),
    );
    assert_eq!(mains, strings(&["git", "wget"]));
    assert_eq!(casks, strings(&["firefox"]));
}

#[test]
fn package_type_names() {
    assert_eq!(PackageType::Formula.as_str(), "formula");
    assert_eq!(PackageType::Cask.as_str(), "cask");
    assert_eq!(shard::PackageOperation::Install.as_str(), "Installing");
    assert_eq!(shard::PackageOperation::Upgrade.as_str(), "Upgrading");
    assert_eq!(shard::PackageOperation::Uninstall.as_str(), "Uninstalling");
}

#[test]
fn log_level_from_verbosity() {
    assert_eq!(shard::LogLevel::from_verbosity(0), shard::LogLevel::Error);
    assert_eq!(shard::LogLevel::from_verbosity(1), shard::LogLevel::Warn);
    assert_eq!(shard::LogLevel::from_verbosity(2), shard::LogLevel::Info);
    assert_eq!(shard::LogLevel::from_verbosity(3), shard::LogLevel::Debug);
    assert_eq!(shard::LogLevel::from_verbosity(9), shard::LogLevel::Trace);
}
