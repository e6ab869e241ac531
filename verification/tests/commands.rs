//! The actuator command model: validation, command building, output
//! parsing, and the ordered command sequence of a pass.

use shard::{ApplyOptions, BrewClient, BrewCore, BrewInstaller, BrewSearcher, Inventory,
    PackageProcessResult, PackageProcessor, ReconciliationPlan, ShardError, get_client, get_core,
    get_installer, get_searcher, is_valid_package_name, is_valid_tap_name, plan_commands,
    trim_str, validate_option, validate_options, validate_package_name, validate_search_query,
    validate_tap_name};

fn strings(items: &[&str]) -> Vec<String> {
    items.iter().map(|s| s.to_string()).collect()
}

#[test]
fn package_name_validation() {
    assert!(is_valid_package_name("git"));
    assert!(is_valid_package_name("openssl@3"));
    assert!(is_valid_package_name("gcc-12.2_x+y"));
    assert!(!is_valid_package_name(""));
    assert!(!is_valid_package_name("-leading-dash"));
    assert!(!is_valid_package_name("has space"));
    assert!(!is_valid_package_name("semi;rm"));
    assert_eq!(validate_package_name("git").unwrap(), "git");
    assert!(matches!(
        validate_package_name("has space"),
        Err(ShardError::ValidationError(_))
    ));
}

#[test]
fn tap_name_validation() {
    assert!(is_valid_tap_name("homebrew/core"));
    assert!(is_valid_tap_name("user-1/my_tap"));
    assert!(!is_valid_tap_name("nocore"));
    assert!(!is_valid_tap_name("/repo"));
    assert!(!is_valid_tap_name("owner/"));
    assert!(!is_valid_tap_name("a/b/c"));
    assert!(!is_valid_tap_name("owner/re po"));
    assert_eq!(validate_tap_name("homebrew/core").unwrap(), "homebrew/core");
    assert!(matches!(
        validate_tap_name("nocore"),
        Err(ShardError::ValidationError(_))
    ));
}

#[test]
fn option_validation() {
    assert_eq!(validate_option("--with-lua").unwrap(), "--with-lua");
    assert_eq!(validate_option("-v").unwrap(), "-v");
    assert_eq!(validate_option("--appdir=/Apps/x.1").unwrap(), "--appdir=/Apps/x.1");
    assert!(matches!(validate_option(""), Err(ShardError::ValidationError(_))));
    assert!(matches!(validate_option("-"), Err(ShardError::ValidationError(_))));
    assert!(matches!(validate_option("plain"), Err(ShardError::ValidationError(_))));
    assert!(matches!(validate_option("--k="), Err(ShardError::ValidationError(_))));
    assert!(matches!(
        validate_option("--k=v;rm"),
        Err(ShardError::ValidationError(_))
    ));
    assert!(validate_options(&strings(&["--a", "--b=c"])).is_ok());
    assert!(validate_options(&strings(&["--a", "bad"])).is_err());
}

#[test]
fn search_query_validation() {
    assert_eq!(validate_search_query("fire fox").unwrap(), "fire fox");
    assert!(matches!(validate_search_query(""), Err(ShardError::ValidationError(_))));
    assert!(matches!(
        validate_search_query("a;b"),
        Err(ShardError::ValidationError(_))
    ));
    assert!(matches!(
        validate_search_query("a|b"),
        Err(ShardError::ValidationError(_))
    ));
    assert!(matches!(
        validate_search_query("a`b`"),
        Err(ShardError::ValidationError(_))
    ));
}

#[test]
fn client_builds_exact_commands() {
    let client = BrewClient::new();
    assert_eq!(client.brew_path, "brew");
    assert_eq!(client.add_tap("homebrew/core").unwrap().args, strings(&["tap", "homebrew/core"]));
    assert_eq!(
        client.install_formula("vim", &strings(&["--with-lua"])).unwrap().args,
        strings(&["install", "vim", "--with-lua"])
    );
    assert_eq!(
        client.install_cask("firefox", &strings(&[])).unwrap().args,
        strings(&["install", "--cask", "firefox"])
    );
    assert_eq!(
        client.upgrade_formula_with_options("vim", &strings(&["--head"])).unwrap().args,
        strings(&["upgrade", "vim", "--head"])
    );
    assert_eq!(
        client.upgrade_cask_with_options("firefox", &strings(&[])).unwrap().args,
        strings(&["upgrade", "--cask", "firefox"])
    );
    assert_eq!(
        client.uninstall_formula("wget", true).unwrap().args,
        strings(&["uninstall", "--formula", "wget", "--force"])
    );
    assert_eq!(
        client.uninstall_cask("firefox", false).unwrap().args,
        strings(&["uninstall", "--cask", "firefox"])
    );
    assert_eq!(client.get_installed_formulae().args, strings(&["list", "--formula"]));
    assert_eq!(client.get_installed_casks().args, strings(&["list", "--cask"]));
    assert_eq!(client.get_installed_taps().args, strings(&["tap"]));
    assert_eq!(
        client.get_dependency_packages().args,
        strings(&["list", "--installed-as-dependency"])
    );
    assert_eq!(client.cleanup(true).args, strings(&["cleanup", "--prune=all"]));
    assert_eq!(client.cleanup(false).args, strings(&["cleanup"]));
    assert_eq!(
        client.search("fire", true, false).unwrap().args,
        strings(&["search", "--formula", "fire"])
    );
    assert!(client.add_tap("nocore").is_err());
    assert!(client.install_formula("bad name", &strings(&[])).is_err());
    assert!(client.install_formula("vim", &strings(&["bad"])).is_err());
}

#[test]
fn client_batches_are_single_commands() {
    let client = get_client();
    assert!(client.batch_install_formulae(&strings(&[])).unwrap().is_none());
    let cmd = client.batch_install_formulae(&strings(&["git", "wget"])).unwrap().unwrap();
    assert_eq!(cmd.args, strings(&["install", "git", "wget"]));
    let cmd = client.batch_install_casks(&strings(&["firefox"])).unwrap().unwrap();
    assert_eq!(cmd.args, strings(&["install", "--cask", "firefox"]));
    let cmd = client.batch_upgrade_formulae(&strings(&["git"])).unwrap().unwrap();
    assert_eq!(cmd.args, strings(&["upgrade", "git"]));
    let cmd = client.batch_upgrade_casks(&strings(&["firefox"])).unwrap().unwrap();
    assert_eq!(cmd.args, strings(&["upgrade", "--cask", "firefox"]));
    assert!(client.batch_install_formulae(&strings(&["ok", "not ok"])).is_err());
}

#[test]
fn installer_plans_per_package_commands() {
    let installer = BrewInstaller::new();
    assert_eq!(installer.core.brew_path, "brew");
    let cmds = installer.batch_install_formulae(&strings(&["git", "wget"])).unwrap();
    assert_eq!(cmds.len(), 2);
    assert_eq!(cmds[0].args, strings(&["install", "git"]));
    assert_eq!(cmds[1].args, strings(&["install", "wget"]));
    let cmds = installer.batch_upgrade_casks(&strings(&["firefox"])).unwrap();
    assert_eq!(cmds[0].args, strings(&["upgrade", "--cask", "firefox"]));
    let cmds = installer
        .batch_install_formulas(&strings(&["git"]), &strings(&["--verbose"]))
        .unwrap();
    assert_eq!(cmds[0].args, strings(&["install", "--verbose", "git"]));
    assert_eq!(
        installer.add_tap("user/tools").unwrap().args,
        strings(&["tap", "user/tools"])
    );
}

#[test]
fn core_and_searcher_configuration() {
    let core = BrewCore::with_path("/opt/homebrew/bin/brew".to_string())
        .with_debug(true)
        .with_timeout(30);
    assert_eq!(core.brew_path, "/opt/homebrew/bin/brew");
    assert!(core.debug);
    assert_eq!(core.timeout, Some(30));
    assert_eq!(get_core().brew_path, "brew");
    assert_eq!(get_installer().core.brew_path, "brew");

    let searcher = BrewSearcher::new();
    assert_eq!(
        searcher.search("fire", false, true).unwrap().args,
        strings(&["search", "--cask", "fire"])
    );
    assert_eq!(
        get_searcher().search("fire", false, false).unwrap().args,
        strings(&["search", "fire"])
    );
}

#[test]
fn list_output_parsing_trims_and_drops_empties() {
    let core = BrewCore::new();
    let parsed = core.parse_list_output("git\n  wget  \n\n\tjq\nlast");
    assert_eq!(parsed, strings(&["git", "wget", "jq", "last"]));
    let parsed = core.parse_list_output("");
    assert!(parsed.is_empty());
    let parsed = core.parse_list_output("  \n \n");
    assert!(parsed.is_empty());
    let parsed = core.parse_list_output("one");
    assert_eq!(parsed, strings(&["one"]));
}

#[test]
fn trimming_behaviour() {
    assert_eq!(trim_str("  hello \t"), "hello");
    assert_eq!(trim_str("plain"), "plain");
    assert_eq!(trim_str("   "), "");
    assert_eq!(trim_str(""), "");
}

#[test]
fn execute_operations_orders_the_pass() {
    let client = BrewClient::new();
    let processor = PackageProcessor::for_formulae(strings(&["b"]), true);
    let result = PackageProcessResult {
        to_install: strings(&["a"]),
        to_upgrade: strings(&["b"]),
        with_options: vec![
            ("c".to_string(), strings(&["--x"])),
            ("b".to_string(), strings(&["--y"])),
        ],
        to_uninstall: strings(&["d"]),
    };
    let cmds = processor.execute_operations(&client, &result, false).unwrap();
    let args: Vec<Vec<String>> = cmds.into_iter().map(|c| c.args).collect();
    assert_eq!(args, vec![
        strings(&["install", "a"]),
        strings(&["upgrade", "b"]),
        strings(&["install", "c", "--x"]),   // not installed: install
        strings(&["upgrade", "b", "--y"]),   // installed: upgrade
        strings(&["uninstall", "--formula", "d", "--force"]),
    ]);

    // A dry run plans nothing.
    let none = processor.execute_operations(&client, &result, true).unwrap();
    assert!(none.is_empty());

    // An invalid name anywhere fails the whole plan.
    let bad = PackageProcessResult {
        to_install: strings(&["not a name"]),
        to_upgrade: Vec::new(),
        with_options: Vec::new(),
        to_uninstall: Vec::new(),
    };
    assert!(processor.execute_operations(&client, &bad, false).is_err());
}

#[test]
fn processor_uninstall_respects_kind() {
    let client = BrewClient::new();
    let formulae = PackageProcessor::for_formulae(Vec::new(), true);
    let casks = PackageProcessor::for_casks(Vec::new(), true);
    assert_eq!(
        formulae.uninstall(&client, "wget", false).unwrap().args,
        strings(&["uninstall", "--formula", "wget"])
    );
    assert_eq!(
        casks.uninstall(&client, "firefox", true).unwrap().args,
        strings(&["uninstall", "--cask", "firefox", "--force"])
    );
}

#[test]
fn plan_commands_sequences_the_whole_pass() {
    let client = BrewClient::new();
    let inv = Inventory {
        installed_formulae: strings(&[]),
        installed_casks: strings(&[]),
        installed_taps: strings(&[]),
        dependency_formulae: strings(&[]),
    };
    let plan = ReconciliationPlan {
        taps_to_add: strings(&["user/tools"]),
        formula_ops: PackageProcessResult {
            to_install: strings(&["git"]),
            to_upgrade: Vec::new(),
            with_options: Vec::new(),
            to_uninstall: Vec::new(),
        },
        cask_ops: PackageProcessResult {
            to_install: strings(&["firefox"]),
            to_upgrade: Vec::new(),
            with_options: Vec::new(),
            to_uninstall: strings(&["oldapp"]),
        },
    };
    let options = ApplyOptions { additive_only: false, skip_cleanup: false };
    let cmds = plan_commands(&client, &plan, &inv, &options).unwrap();
    let args: Vec<Vec<String>> = cmds.into_iter().map(|c| c.args).collect();
    assert_eq!(args, vec![
        strings(&["tap", "user/tools"]),
        strings(&["install", "git"]),
        strings(&["install", "--cask", "firefox"]),
        strings(&["uninstall", "--cask", "oldapp", "--force"]),
        strings(&["cleanup", "--prune=all"]),
    ]);

    // Skipping cleanup drops the final invocation.
    let options = ApplyOptions { additive_only: false, skip_cleanup: true };
    let cmds = plan_commands(&client, &plan, &inv, &options).unwrap();
    assert_eq!(cmds.len(), 4);

    // A bad tap name fails the whole sequence.
    let bad = ReconciliationPlan {
        taps_to_add: strings(&["nocore"]),
        formula_ops: PackageProcessResult {
            to_install: Vec::new(),
            to_upgrade: Vec::new(),
            with_options: Vec::new(),
            to_uninstall: Vec::new(),
        },
        cask_ops: PackageProcessResult {
            to_install: Vec::new(),
            to_upgrade: Vec::new(),
            with_options: Vec::new(),
            to_uninstall: Vec::new(),
        },
    };
    assert!(matches!(
        plan_commands(&client, &bad, &inv, &options),
        Err(ShardError::ValidationError(_))
    ));
}

#[test]
fn default_client_convenience_invocations() {
    assert_eq!(shard::get_installed_formulae().args, strings(&["list", "--formula"]));
    assert_eq!(shard::get_installed_casks().args, strings(&["list", "--cask"]));
    assert_eq!(shard::get_installed_taps().args, strings(&["tap"]));
    assert_eq!(
        shard::get_dependency_packages().args,
        strings(&["list", "--installed-as-dependency"])
    );
    assert_eq!(shard::add_tap("homebrew/core").unwrap().args, strings(&["tap", "homebrew/core"]));
    assert!(shard::add_tap("nope").is_err());
    assert_eq!(shard::run_cleanup().args, strings(&["cleanup", "--prune=all"]));
}

#[test]
fn critical_package_listing() {
    assert!(shard::is_critical_package("git"));
    assert!(shard::is_critical_package("zsh"));
    assert!(!shard::is_critical_package("leftpad"));
}

#[test]
fn error_subjects_are_kept() {
    let cases = vec![
        ShardError::NotFound("tools".to_string()),
        ShardError::InvalidName("bad name".to_string()),
        ShardError::AlreadyExists("tools".to_string()),
        ShardError::Protected("system".to_string()),
        ShardError::ValidationError("x;y".to_string()),
        ShardError::ManifestError("user.toml".to_string()),
        ShardError::BrewError("install".to_string()),
        ShardError::PackageError("wget".to_string()),
        ShardError::Filesystem("/tmp/shards".to_string()),
        ShardError::BackupError("tools".to_string()),
    ];
    for e in &cases {
        assert!(!e.subject().is_empty());
    }
    assert_eq!(cases[0].subject(), "tools");
    assert_eq!(cases[3].subject(), "system");
}
