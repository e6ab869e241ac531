//! The shard lifecycle manager and the package add/remove operations.

use shard::{FsAction, Manifest, PackageAvailability, PackageState, PackageType,
    PackageTypeWrapper, ShardError, ShardManager, ShardStatus, add_package_to_manifest,
    determine_package_type, remove_package_from_manifest};

fn strings(items: &[&str]) -> Vec<String> {
    items.iter().map(|s| s.to_string()).collect()
}

fn manager() -> ShardManager {
    ShardManager::with_all_paths(
        "/tmp/shards".to_string(),
        "/tmp/disabled".to_string(),
        "/tmp/backups".to_string(),
    )
}

fn protected_manifest(allowed: &[&str]) -> Manifest {
    let mut m = Manifest::new();
    m.metadata.protected = true;
    m.metadata.allowed_users = strings(allowed);
    m
}

#[test]
fn grow_creates_an_active_shard() {
    let mut mgr = manager().with_user("alice");
    let actions = mgr.grow_shard("devtools", Some("Developer tools")).unwrap();
    assert_eq!(actions.len(), 1);
    match &actions[0] {
        FsAction::WriteManifest { path, manifest } => {
            assert_eq!(path, "/tmp/shards/devtools.toml");
            assert_eq!(manifest.metadata.name, "devtools");
            assert_eq!(manifest.metadata.description, "Developer tools");
            assert_eq!(manifest.metadata.owner, "alice");
            assert!(!manifest.metadata.protected);
            assert!(manifest.metadata.allowed_users.is_empty());
            assert!(manifest.taps.is_empty());
            assert!(manifest.formulas.is_empty());
            assert!(manifest.casks.is_empty());
        },
        _ => panic!("expected a write action"),
    }
    assert!(mgr.shard_is_active("devtools"));
    assert_eq!(mgr.get_shard_status("devtools"), ShardStatus::Active);
    assert_eq!(mgr.list_shards(), strings(&["devtools"]));
}

#[test]
fn grow_without_description_uses_the_default() {
    let mut mgr = manager();
    let actions = mgr.grow_shard("plain", None).unwrap();
    match &actions[0] {
        FsAction::WriteManifest { manifest, .. } => {
            assert_eq!(manifest.metadata.description, "Custom shard");
            assert!(manifest.formulas.is_empty());
            assert!(manifest.casks.is_empty());
        },
        _ => panic!("expected a write action"),
    }
}

#[test]
fn grow_rejects_bad_and_duplicate_names() {
    let mut mgr = manager();
    assert!(matches!(
        mgr.grow_shard("bad name!", None),
        Err(ShardError::InvalidName(_))
    ));
    mgr.grow_shard("tools", None).unwrap();
    assert!(matches!(
        mgr.grow_shard("tools", None),
        Err(ShardError::AlreadyExists(_))
    ));
}

#[test]
fn disable_moves_shard_and_backs_up_first() {
    let mut mgr = manager();
    mgr.load_shard("tools".to_string(), Manifest::new());
    let actions = mgr.disable_shard("tools").unwrap();
    assert_eq!(actions.len(), 2);
    match &actions[0] {
        FsAction::Backup { source, name } => {
            assert_eq!(source, "/tmp/shards/tools.toml");
            assert_eq!(name, "tools");
        },
        _ => panic!("the backup must come first"),
    }
    match &actions[1] {
        FsAction::Rename { from, to } => {
            assert_eq!(from, "/tmp/shards/tools.toml");
            assert_eq!(to, "/tmp/disabled/tools.toml");
        },
        _ => panic!("the move must follow the backup"),
    }
    assert!(mgr.shard_is_disabled("tools"));
    assert!(!mgr.shard_is_active("tools"));
}

#[test]
fn disable_protected_needs_an_allowed_user() {
    // A non-allowed user fails with Protected.
    let mut mgr = manager().with_user("bob");
    mgr.load_shard("secure".to_string(), protected_manifest(&["alice"]));
    assert!(matches!(
        mgr.disable_shard("secure"),
        Err(ShardError::Protected(_))
    ));
    assert!(mgr.shard_is_active("secure"));

    // The allowed user succeeds.
    let mut mgr2 = manager().with_user("alice");
    mgr2.load_shard("secure".to_string(), protected_manifest(&["alice"]));
    let actions = mgr2.disable_shard("secure").unwrap();
    assert_eq!(actions.len(), 2);
    assert!(mgr2.shard_is_disabled("secure"));
}

#[test]
fn disable_unknown_shard_fails_not_found() {
    let mut mgr = manager();
    assert!(matches!(
        mgr.disable_shard("ghost"),
        Err(ShardError::NotFound(_))
    ));
}

#[test]
fn disable_disabled_shard_is_a_no_op() {
    let mut mgr = manager();
    mgr.load_disabled_shard("parked".to_string(), Manifest::new());
    let actions = mgr.disable_shard("parked").unwrap();
    assert!(actions.is_empty());
    assert!(mgr.shard_is_disabled("parked"));
}

#[test]
fn enable_moves_shard_back() {
    let mut mgr = manager();
    mgr.load_disabled_shard("parked".to_string(), Manifest::new());
    let actions = mgr.enable_shard("parked").unwrap();
    assert_eq!(actions.len(), 2);
    match &actions[0] {
        FsAction::WriteManifest { path, .. } => assert_eq!(path, "/tmp/shards/parked.toml"),
        _ => panic!("expected the manifest write first"),
    }
    match &actions[1] {
        FsAction::Remove { path } => assert_eq!(path, "/tmp/disabled/parked.toml"),
        _ => panic!("expected the removal of the disabled file"),
    }
    assert!(mgr.shard_is_active("parked"));
}

#[test]
fn shatter_hard_listed_needs_force_and_permission() {
    // The default hard-protected name with no allowed users: nobody may
    // delete it, force or not.
    let mut mgr = manager().with_user("root");
    mgr.load_shard("system".to_string(), Manifest::new());
    assert!(matches!(
        mgr.shatter_shard("system", true),
        Err(ShardError::Protected(_))
    ));
    assert!(mgr.shard_is_active("system"));

    // An allowed user with force may delete even a hard-listed shard.
    let mut mgr2 = manager().with_user("alice");
    let mut m = Manifest::new();
    m.metadata.allowed_users = strings(&["alice"]);
    mgr2.load_shard("system".to_string(), m);
    assert!(matches!(
        mgr2.shatter_shard("system", false),
        Err(ShardError::Protected(_))
    ));
    let actions = mgr2.shatter_shard("system", true).unwrap();
    assert_eq!(actions.len(), 2);
    assert!(matches!(&actions[0], FsAction::Backup { .. }));
    assert!(matches!(&actions[1], FsAction::Remove { .. }));
    assert!(!mgr2.shard_exists("system"));
}

#[test]
fn hard_listed_shard_is_protected_for_everyone_else() {
    // A shard protected only by the hard-coded name list — its own
    // metadata says unprotected — still refuses a user who is not on its
    // allowed list.
    let mut mgr = manager().with_user("bob");
    mgr.load_shard("system".to_string(), Manifest::new());
    assert!(mgr.shard_is_protected("system"));
    assert!(!mgr.shard_can_be_modified_by("system", "bob"));
    assert!(matches!(
        mgr.disable_shard("system"),
        Err(ShardError::Protected(_))
    ));
    assert!(mgr.shard_is_active("system"));

    // A user on the allowed list may disable it.
    let mut mgr2 = manager().with_user("alice");
    let mut m = Manifest::new();
    m.metadata.allowed_users = strings(&["alice"]);
    mgr2.load_shard("system".to_string(), m);
    assert!(mgr2.shard_can_be_modified_by("system", "alice"));
    let actions = mgr2.disable_shard("system").unwrap();
    assert_eq!(actions.len(), 2);
    assert!(mgr2.shard_is_disabled("system"));

    // A hard-listed name with no registered manifest has no allowed
    // users at all.
    let mgr3 = manager();
    assert!(!mgr3.shard_can_be_modified_by("system", "anyone"));
}

#[test]
fn shatter_soft_protected_needs_force_and_permission() {
    let mut mgr = manager().with_user("alice");
    mgr.load_shard("secure".to_string(), protected_manifest(&["alice"]));
    // Without force, even the allowed user is refused.
    assert!(matches!(
        mgr.shatter_shard("secure", false),
        Err(ShardError::Protected(_))
    ));
    // With force, the allowed user succeeds, and the backup precedes the
    // removal.
    let actions = mgr.shatter_shard("secure", true).unwrap();
    assert_eq!(actions.len(), 2);
    assert!(matches!(&actions[0], FsAction::Backup { .. }));
    assert!(matches!(&actions[1], FsAction::Remove { .. }));
    assert!(!mgr.shard_exists("secure"));
}

#[test]
fn shatter_unprotected_shard_removes_it() {
    let mut mgr = manager();
    mgr.load_shard("tools".to_string(), Manifest::new());
    let actions = mgr.shatter_shard("tools", false).unwrap();
    assert_eq!(actions.len(), 2);
    match &actions[1] {
        FsAction::Remove { path } => assert_eq!(path, "/tmp/shards/tools.toml"),
        _ => panic!("expected the removal"),
    }
    assert!(!mgr.shard_exists("tools"));
}

#[test]
fn status_and_info_reflect_the_registry() {
    let mut mgr = manager();
    mgr.load_shard("a".to_string(), Manifest::new());
    mgr.load_disabled_shard("b".to_string(), Manifest::new());
    assert_eq!(mgr.get_shard_status("a"), ShardStatus::Active);
    assert_eq!(mgr.get_shard_status("b"), ShardStatus::Disabled);
    assert_eq!(mgr.get_shard_status("c"), ShardStatus::NotFound);
    assert_eq!(mgr.get_shard_status("bad name!"), ShardStatus::NotFound);

    let info = mgr.get_shard_info("a").unwrap();
    assert_eq!(info.name, "a");
    assert_eq!(info.status, ShardStatus::Active);
    assert_eq!(info.path, "/tmp/shards/a.toml");
    assert!(info.manifest.is_some());
    assert!(matches!(mgr.get_shard_info("c"), Err(ShardError::NotFound(_))));

    let all = mgr.get_all_shards_info();
    assert_eq!(all.len(), 2);
    assert_eq!(mgr.list_disabled_shards(), strings(&["b"]));
}

#[test]
fn manager_clone_and_user_switch() {
    let mgr = manager().with_user("alice");
    let copy = mgr.clone();
    assert_eq!(copy.current_user, "alice");
    assert_eq!(copy.shards_dir, "/tmp/shards");
    let other = copy.with_user("bob");
    assert_eq!(other.current_user, "bob");
}

#[test]
fn protection_can_be_queried_per_user() {
    let mut mgr = manager();
    mgr.load_shard("secure".to_string(), protected_manifest(&["alice"]));
    assert!(mgr.shard_is_protected("secure"));
    assert!(mgr.shard_can_be_modified_by("secure", "alice"));
    assert!(!mgr.shard_can_be_modified_by("secure", "bob"));
    assert!(mgr.shard_can_be_modified_by("unknown", "anyone"));
}

#[test]
fn kind_defaults_to_cask_when_both_are_available() {
    // No kind hint, available as both formula and cask: the documented
    // deterministic default is the cask.
    let avail = PackageAvailability { available_as_formula: true, available_as_cask: true };
    let kind = determine_package_type("firefox", &avail, false, false).unwrap();
    assert_eq!(kind, Some(PackageType::Cask));
}

#[test]
fn kind_determination_honours_hints() {
    let both = PackageAvailability { available_as_formula: true, available_as_cask: true };
    let formula_only = PackageAvailability { available_as_formula: true, available_as_cask: false };
    let neither = PackageAvailability { available_as_formula: false, available_as_cask: false };

    assert_eq!(
        determine_package_type("x", &both, true, false).unwrap(),
        Some(PackageType::Formula)
    );
    assert_eq!(determine_package_type("x", &formula_only, false, true).unwrap(), None);
    assert_eq!(
        determine_package_type("x", &formula_only, false, false).unwrap(),
        Some(PackageType::Formula)
    );
    assert_eq!(determine_package_type("x", &neither, false, false).unwrap(), None);
}

#[test]
fn add_and_remove_packages_in_manifest() {
    let mut m = Manifest::new();
    assert!(add_package_to_manifest(&mut m, "firefox", PackageType::Cask).unwrap());
    assert!(add_package_to_manifest(&mut m, "git", PackageType::Formula).unwrap());
    // A duplicate of either kind is skipped.
    assert!(!add_package_to_manifest(&mut m, "firefox", PackageType::Formula).unwrap());
    assert_eq!(m.casks.len(), 1);
    assert_eq!(m.formulas.len(), 1);
    assert_eq!(m.casks[0].state, PackageState::Latest);

    // An invalid name is refused.
    assert!(matches!(
        add_package_to_manifest(&mut m, "bad name", PackageType::Formula),
        Err(ShardError::ValidationError(_))
    ));

    // Removal finds the formula first, then the cask.
    assert_eq!(
        remove_package_from_manifest(&mut m, "git", false, false),
        Some(PackageTypeWrapper::Formula)
    );
    assert_eq!(
        remove_package_from_manifest(&mut m, "firefox", false, false),
        Some(PackageTypeWrapper::Cask)
    );
    assert_eq!(remove_package_from_manifest(&mut m, "ghost", false, false), None);
    assert!(m.formulas.is_empty());
    assert!(m.casks.is_empty());
}

#[test]
fn forced_removal_only_searches_one_kind() {
    let mut m = Manifest::new();
    add_package_to_manifest(&mut m, "tool", PackageType::Cask).unwrap();
    // Forcing the formula kind does not find the cask.
    assert_eq!(remove_package_from_manifest(&mut m, "tool", true, false), None);
    assert_eq!(m.casks.len(), 1);
    assert_eq!(
        remove_package_from_manifest(&mut m, "tool", false, true),
        Some(PackageTypeWrapper::Cask)
    );
}
