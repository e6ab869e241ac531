//! The document codec: normalization of every historical encoding, and
//! the serialize/parse round trip.

use shard::{Cask, Formula, Manifest, PackageDeclaration, PackageState, RawDocument, Tap,
    parse_document, serialize_document};

fn strings(items: &[&str]) -> Vec<String> {
    items.iter().map(|s| s.to_string()).collect()
}

fn empty_document() -> RawDocument {
    RawDocument {
        formulae: Vec::new(),
        casks: Vec::new(),
        taps: Vec::new(),
        brews: Vec::new(),
        formulas: Vec::new(),
        casks_structured: Vec::new(),
        taps_structured: Vec::new(),
        metadata: Manifest::new().metadata,
    }
}

#[test]
fn simplified_entries_default_to_latest() {
    let mut doc = empty_document();
    doc.formulae = strings(&["git", "wget"]);
    let m = parse_document(&doc);
    assert_eq!(m.formulas.len(), 2);
    assert_eq!(m.formulas[0].name, "git");
    assert_eq!(m.formulas[0].version, "latest");
    assert_eq!(m.formulas[0].state, PackageState::Latest);
    assert!(m.formulas[0].options.is_empty());
}

#[test]
fn simplified_entry_splits_name_and_version() {
    let mut doc = empty_document();
    doc.formulae = strings(&["wget:1.21", "git"]);
    let m = parse_document(&doc);
    assert_eq!(m.formulas[0].name, "wget");
    assert_eq!(m.formulas[0].version, "1.21");
    assert_eq!(m.formulas[1].name, "git");
    assert_eq!(m.formulas[1].version, "latest");
}

#[test]
fn structured_form_wins_over_simplified_duplicate() {
    let mut doc = empty_document();
    doc.formulas = vec![Formula {
        name: "vim".to_string(),
        version: "9.0".to_string(),
        options: strings(&["--with-lua"]),
        state: PackageState::Present,
    }];
    doc.formulae = strings(&["vim", "extra"]);
    let m = parse_document(&doc);
    assert_eq!(m.formulas.len(), 2);
    assert_eq!(m.formulas[0].name, "vim");
    assert_eq!(m.formulas[0].state, PackageState::Present);
    assert_eq!(m.formulas[0].options, strings(&["--with-lua"]));
    assert_eq!(m.formulas[0].version, "9.0");
    assert_eq!(m.formulas[1].name, "extra");
    assert_eq!(m.formulas[1].state, PackageState::Latest);
}

#[test]
fn legacy_brews_list_feeds_casks() {
    let mut doc = empty_document();
    doc.brews = strings(&["firefox"]);
    doc.casks = strings(&["obsidian"]);
    let m = parse_document(&doc);
    let names: Vec<&str> = m.casks.iter().map(|d| d.name.as_str()).collect();
    assert_eq!(names, vec!["obsidian", "firefox"]);
}

#[test]
fn structured_taps_join_the_tap_list() {
    let mut doc = empty_document();
    doc.taps = strings(&["homebrew/core"]);
    doc.taps_structured = vec![
        Tap { name: "user/tools".to_string() },
        Tap { name: "homebrew/core".to_string() },
    ];
    let m = parse_document(&doc);
    assert_eq!(m.taps, strings(&["homebrew/core", "user/tools"]));
}

#[test]
fn duplicate_simplified_entries_collapse() {
    let mut doc = empty_document();
    doc.formulae = strings(&["git", "git", "git:2.0"]);
    let m = parse_document(&doc);
    assert_eq!(m.formulas.len(), 1);
    assert_eq!(m.formulas[0].version, "latest");
}

#[test]
fn serialize_splits_simple_and_structured() {
    let mut m = Manifest::new();
    m.taps = strings(&["homebrew/core"]);
    m.formulas = vec![
        PackageDeclaration {
            name: "git".to_string(),
            version: "latest".to_string(),
            options: Vec::new(),
            state: PackageState::Latest,
        },
        PackageDeclaration {
            name: "wget".to_string(),
            version: "1.21".to_string(),
            options: Vec::new(),
            state: PackageState::Latest,
        },
        PackageDeclaration {
            name: "vim".to_string(),
            version: "latest".to_string(),
            options: strings(&["--with-lua"]),
            state: PackageState::Present,
        },
    ];
    let doc = serialize_document(&m);
    assert_eq!(doc.formulae, strings(&["git", "wget:1.21"]));
    assert_eq!(doc.formulas.len(), 1);
    assert_eq!(doc.formulas[0].name, "vim");
    assert_eq!(doc.taps, strings(&["homebrew/core"]));
    assert!(doc.brews.is_empty());
    assert!(doc.taps_structured.is_empty());
}

#[test]
fn roundtrip_preserves_declarations_and_metadata() {
    let mut m = Manifest::new();
    m.metadata.name = "workstation".to_string();
    m.metadata.description = "Daily driver".to_string();
    m.metadata.owner = "alice".to_string();
    m.metadata.protected = true;
    m.metadata.allowed_users = strings(&["alice"]);
    m.taps = strings(&["homebrew/core", "user/tools"]);
    m.formulas = vec![
        PackageDeclaration {
            name: "git".to_string(),
            version: "latest".to_string(),
            options: Vec::new(),
            state: PackageState::Latest,
        },
        PackageDeclaration {
            name: "vim".to_string(),
            version: "9.0".to_string(),
            options: strings(&["--with-lua"]),
            state: PackageState::Present,
        },
        PackageDeclaration {
            name: "doomed".to_string(),
            version: "latest".to_string(),
            options: Vec::new(),
            state: PackageState::Absent,
        },
    ];
    m.casks = vec![PackageDeclaration {
        name: "firefox".to_string(),
        version: "latest".to_string(),
        options: Vec::new(),
        state: PackageState::Latest,
    }];

    let doc = serialize_document(&m);
    let back = parse_document(&doc);

    assert_eq!(back.metadata.name, m.metadata.name);
    assert_eq!(back.metadata.description, m.metadata.description);
    assert_eq!(back.metadata.owner, m.metadata.owner);
    assert_eq!(back.metadata.protected, m.metadata.protected);
    assert_eq!(back.metadata.allowed_users, m.metadata.allowed_users);
    assert_eq!(back.taps, m.taps);

    assert_eq!(back.formulas.len(), m.formulas.len());
    for d in &m.formulas {
        let found = back.formulas.iter().find(|b| b.name == d.name).unwrap();
        assert_eq!(found.state, d.state);
        assert_eq!(found.options, d.options);
        assert_eq!(found.version, d.version);
    }
    assert_eq!(back.casks.len(), 1);
    assert_eq!(back.casks[0].name, "firefox");
}

#[test]
fn cask_entries_roundtrip_through_structured_form() {
    let mut m = Manifest::new();
    m.casks = vec![PackageDeclaration {
        name: "docker".to_string(),
        version: "latest".to_string(),
        options: strings(&["--appdir=/Apps"]),
        state: PackageState::Present,
    }];
    let doc = serialize_document(&m);
    assert!(doc.casks.is_empty());
    assert_eq!(doc.casks_structured.len(), 1);
    let back = parse_document(&doc);
    assert_eq!(back.casks[0].name, "docker");
    assert_eq!(back.casks[0].options, strings(&["--appdir=/Apps"]));
    assert_eq!(back.casks[0].state, PackageState::Present);
}

#[test]
fn conversions_between_entry_and_declaration() {
    let f = Formula {
        name: "git".to_string(),
        version: "2.0".to_string(),
        options: strings(&["--head"]),
        state: PackageState::Present,
    };
    let d = f.to_declaration();
    assert_eq!(d.name, "git");
    assert_eq!(d.version, "2.0");
    let f2 = Formula::from_declaration(&d);
    assert_eq!(f2.name, "git");
    assert_eq!(f2.options, strings(&["--head"]));

    let c = Cask {
        name: "firefox".to_string(),
        version: "latest".to_string(),
        options: Vec::new(),
        state: PackageState::Latest,
    };
    let dc = c.to_declaration();
    assert_eq!(dc.name, "firefox");
    let c2 = Cask::from_declaration(&dc);
    assert_eq!(c2.state, PackageState::Latest);
}

#[test]
fn manifest_protection_checks() {
    let mut m = Manifest::new();
    assert!(!m.is_protected());
    assert!(m.can_modify("anyone"));
    m.metadata.protected = true;
    m.metadata.allowed_users = strings(&["alice"]);
    assert!(m.is_protected());
    assert!(m.can_modify("alice"));
    assert!(!m.can_modify("bob"));
}
