//! Desired-state package configuration for a single host.
//!
//! Users author manifests ("shards") declaring which packages (formulae and
//! casks) and repositories (taps) should be present, absent, or kept at the
//! latest version.  This crate holds the verified core: the manifest data
//! model and its normalization, the diff engine that classifies declarations
//! against an inventory snapshot, the multi-manifest merger, the
//! reconciliation planner, and the shard lifecycle manager.  Everything that
//! touches the outside world — the package-manager process, the filesystem,
//! the terminal — receives plain values from this crate and hands plain
//! values back.

mod brew;
mod codec;
mod error;
mod manager;
mod manifest;
mod merge;
mod operations;
mod processor;
mod reconcile;
mod util;
mod validate;

pub use brew::{BrewClient, BrewCommand, BrewCore, BrewInstaller, BrewSearcher, add_tap,
    get_client, get_core, get_dependency_packages, get_installed_casks, get_installed_formulae,
    get_installed_taps, get_installer, get_searcher, parse_list, run_cleanup, trim_str, trimmed};
pub use codec::{Cask, Formula, RawDocument, RawDocumentView, Tap, decode_entry, encode_entry,
    is_simple, lemma_normalized_unique, lemma_parse_serialize_roundtrip, normalized,
    parse_document, serialize_document, serialized};
pub use error::{LogLevel, ShardError, ShardResult};
pub use manifest::{DeclView, Manifest, ManifestView, Metadata, MetadataView,
    PackageDeclaration, PackageState, can_modify_spec, decl_names_unique, decls_contain_name,
    manifest_wf, tap_names_unique, user_allowed};
pub use manager::{EntryView, FsAction, FsActionView, ManagerView, ShardEntry, ShardInfo,
    ShardInfoView, ShardManager, ShardStatus, can_modify_shard_spec, entries_contain,
    grown_manifest_view, is_protected_spec, is_valid_shard_name, manager_wf, status_spec,
    valid_shard_name};
pub use merge::{decls_canonical, lemma_merge_all_canonical, lemma_merge_associative,
    lemma_merge_commutative_names, merge_all, merge_decls, merge_manifests, merge_taps};
pub use reconcile::{ApplyOptions, Inventory, InventoryView, PlanView, ReconciliationPlan,
    command_sequence, diff_manifest, get_all_main_packages, implied_removals, installed_after,
    is_critical, is_critical_package, lemma_apply_idempotent, lemma_plan_buckets_disjoint,
    missing_taps, plan_all_manifests, plan_commands, plan_manifest, plan_spec};
pub use operations::{PackageAvailability, PackageTypeWrapper, add_package_to_manifest,
    determine_package_type, remove_package_from_manifest};
pub use processor::{OpsView, PackageInfo, PackageOperation, PackageProcessResult,
    PackageProcessor, PackageType, Placement, buckets_disjoint, classify_decl, classify_seq,
    execute_ops_cmds, lemma_absent_not_installed_no_entry, lemma_classify_buckets_disjoint,
    lemma_classify_mentions_source, lemma_options_always_individual, ops_valid};
pub use validate::{is_valid_option, is_valid_package_name, is_valid_tap_name, valid_option,
    valid_package_name, valid_search_query, valid_tap_name, validate_option, validate_options,
    validate_package_name, validate_search_query, validate_tap_name};
