//! Adding packages to and removing packages from a shard's manifest: the
//! decision which kind a package gets, and the manifest edits themselves.
//! Discovering availability and writing the file back are the
//! application's part.

use vstd::prelude::*;

use crate::error::{ShardError, ShardResult};
use crate::manifest::{decl_index, decl_names_unique, decls_contain_name, DeclView, Manifest,
    ManifestView, PackageDeclaration, PackageState};
use crate::processor::PackageType;
use crate::util::str_eq;
use crate::validate::{valid_package_name, validate_package_name};

verus! {

/// Whether a name is known to the package index, per kind.
#[derive(Debug, Clone, Copy, PartialEq, Eq, Structural)]
pub struct PackageAvailability {
    /// The name resolves to a formula.
    pub available_as_formula: bool,
    /// The name resolves to a cask.
    pub available_as_cask: bool,
}

/// A hashable stand-in for the package kind, used to track what was
/// removed.
#[derive(Debug, Clone, Copy, PartialEq, Eq, Hash, Structural)]
pub enum PackageTypeWrapper {
    Formula,
    Cask,
}

impl From<PackageType> for PackageTypeWrapper {
    /// The wrapper for a kind.
    fn from(pt: PackageType) -> (r: Self) {
        match pt {
            PackageType::Formula => PackageTypeWrapper::Formula,
            PackageType::Cask => PackageTypeWrapper::Cask,
        }
    }
}

impl vstd::std_specs::convert::FromSpecImpl<PackageType> for PackageTypeWrapper {
    open spec fn obeys_from_spec() -> bool {
        true
    }

    open spec fn from_spec(pt: PackageType) -> Self {
        match pt {
            PackageType::Formula => PackageTypeWrapper::Formula,
            PackageType::Cask => PackageTypeWrapper::Cask,
        }
    }
}

/// The kind a requested package gets.  A forced kind is honoured only
/// when the package is available as that kind, and never switched.
/// Without a hint, a package available as a cask becomes a cask — the
/// deterministic default — and otherwise a formula; a name available as
/// neither gets no kind.
pub fn determine_package_type(
    package_name: &str,
    availability: &PackageAvailability,
    force_formula: bool,
    force_cask: bool,
) -> (r: ShardResult<Option<PackageType>>)
    ensures
        r is Ok,
        r matches Ok(k) ==> k == (if force_formula {
            if availability.available_as_formula {
                Some(PackageType::Formula)
            } else {
                None
            }
        } else if force_cask {
            if availability.available_as_cask {
                Some(PackageType::Cask)
            } else {
                None
            }
        } else if availability.available_as_cask {
            Some(PackageType::Cask)
        } else if availability.available_as_formula {
            Some(PackageType::Formula)
        } else {
            None
        }),
{
    if force_formula {
        if availability.available_as_formula {
            Ok(Some(PackageType::Formula))
        } else {
            Ok(None)
        }
    } else if force_cask {
        if availability.available_as_cask {
            Ok(Some(PackageType::Cask))
        } else {
            Ok(None)
        }
    } else if availability.available_as_cask {
        Ok(Some(PackageType::Cask))
    } else if availability.available_as_formula {
        Ok(Some(PackageType::Formula))
    } else {
        Ok(None)
    }
}

/// The declaration an added package gets: unpinned, optionless, kept at
/// the latest version.
pub open spec fn added_decl(name: Seq<char>) -> DeclView {
    DeclView {
        name: name,
        version: "latest"@,
        options: Seq::empty(),
        state: PackageState::Latest,
    }
}

/// Add a package of the given kind to the manifest.  The name must pass
/// validation; a name already declared under either kind is left alone
/// and reported as not added.
pub fn add_package_to_manifest(manifest: &mut Manifest, name: &str, kind: PackageType) -> (r:
    ShardResult<bool>)
    ensures
        r is Ok <==> valid_package_name(name@),
        r matches Err(e) ==> *final(manifest) == *old(manifest) && e matches
            ShardError::ValidationError(_),
        r matches Ok(added) ==> (added == (!decls_contain_name(old(manifest)@.formulas, name@)
            && !decls_contain_name(old(manifest)@.casks, name@))),
        r matches Ok(added) ==> (!added ==> *final(manifest) == *old(manifest)),
        r matches Ok(added) ==> (added ==> final(manifest)@ == (ManifestView {
            formulas: if kind is Formula {
                old(manifest)@.formulas.push(added_decl(name@))
            } else {
                old(manifest)@.formulas
            },
            casks: if kind is Cask {
                old(manifest)@.casks.push(added_decl(name@))
            } else {
                old(manifest)@.casks
            },
            ..old(manifest)@
        })),
{
    let checked = validate_package_name(name);
    match checked {
        Ok(_) => {},
        Err(e) => {
            return Err(e);
        },
    }
    if decls_have_name(&manifest.formulas, name) || decls_have_name(&manifest.casks, name) {
        return Ok(false);
    }
    let decl = PackageDeclaration {
        name: name.to_owned(),
        version: "latest".to_owned(),
        options: Vec::new(),
        state: PackageState::Latest,
    };
    proof {
        assert(decl@.options =~= Seq::<Seq<char>>::empty());
        assert(decl@ == added_decl(name@));
    }
    match kind {
        PackageType::Formula => {
            let ghost before = manifest@.formulas;
            manifest.formulas.push(decl);
            proof {
                assert(manifest@.formulas =~= before.push(added_decl(name@)));
                assert(manifest@ =~= (ManifestView {
                    formulas: before.push(added_decl(name@)),
                    ..old(manifest)@
                }));
            }
        },
        PackageType::Cask => {
            let ghost before = manifest@.casks;
            manifest.casks.push(decl);
            proof {
                assert(manifest@.casks =~= before.push(added_decl(name@)));
                assert(manifest@ =~= (ManifestView {
                    casks: before.push(added_decl(name@)),
                    ..old(manifest)@
                }));
            }
        },
    }
    Ok(true)
}

/// The list with the (unique) declaration of that name removed, if any.
pub open spec fn remove_decl(s: Seq<DeclView>, name: Seq<char>) -> Seq<DeclView> {
    if decls_contain_name(s, name) {
        s.remove(decl_index(s, name))
    } else {
        s
    }
}

/// Remove a package from the manifest.  The formula list is searched
/// unless the cask kind is forced; the cask list is searched when the cask
/// kind is forced or nothing was found among the formulae.  Returns the
/// kind that was removed, or `None` when the name is not declared where
/// it was looked for.
pub fn remove_package_from_manifest(
    manifest: &mut Manifest,
    name: &str,
    force_formula: bool,
    force_cask: bool,
) -> (r: Option<PackageTypeWrapper>)
    requires
        decl_names_unique(old(manifest)@.formulas),
        decl_names_unique(old(manifest)@.casks),
    ensures
        decl_names_unique(final(manifest)@.formulas),
        decl_names_unique(final(manifest)@.casks),
        r == (if (force_formula || !force_cask) && decls_contain_name(
            old(manifest)@.formulas,
            name@,
        ) {
            Some(PackageTypeWrapper::Formula)
        } else if (force_cask || !force_formula) && decls_contain_name(
            old(manifest)@.casks,
            name@,
        ) {
            Some(PackageTypeWrapper::Cask)
        } else {
            None
        }),
        r matches Some(k) ==> (k is Formula ==> final(manifest)@ == (ManifestView {
            formulas: remove_decl(old(manifest)@.formulas, name@),
            ..old(manifest)@
        })),
        r matches Some(k) ==> (k is Cask ==> final(manifest)@ == (ManifestView {
            casks: remove_decl(old(manifest)@.casks, name@),
            ..old(manifest)@
        })),
        r is None ==> *final(manifest) == *old(manifest),
{
    if force_formula || !force_cask {
        match find_decl_index(&manifest.formulas, name) {
            Some(i) => {
                proof {
                    lemma_decl_found(manifest@.formulas, name@, i as int);
                }
                let ghost before = manifest@.formulas;
                manifest.formulas.remove(i);
                proof {
                    assert(manifest@.formulas =~= before.remove(i as int));
                    assert(manifest@ =~= (ManifestView {
                        formulas: remove_decl(before, name@),
                        ..old(manifest)@
                    }));
                    assert(decl_names_unique(manifest@.formulas)) by {
                        assert forall|a: int, b: int|
                            0 <= a < b < manifest@.formulas.len() implies #[trigger] manifest@.formulas[
                        a].name != #[trigger] manifest@.formulas[b].name by {
                            let aa = if a < i as int {
                                a
                            } else {
                                a + 1
                            };
                            let bb = if b < i as int {
                                b
                            } else {
                                b + 1
                            };
                            assert(manifest@.formulas[a] == before[aa]);
                            assert(manifest@.formulas[b] == before[bb]);
                        }
                    }
                }
                return Some(PackageTypeWrapper::Formula);
            },
            None => {},
        }
    }
    if force_cask || !force_formula {
        match find_decl_index(&manifest.casks, name) {
            Some(i) => {
                proof {
                    lemma_decl_found(manifest@.casks, name@, i as int);
                }
                let ghost before = manifest@.casks;
                manifest.casks.remove(i);
                proof {
                    assert(manifest@.casks =~= before.remove(i as int));
                    assert(manifest@ =~= (ManifestView {
                        casks: remove_decl(before, name@),
                        ..old(manifest)@
                    }));
                    assert(decl_names_unique(manifest@.casks)) by {
                        assert forall|a: int, b: int|
                            0 <= a < b < manifest@.casks.len() implies #[trigger] manifest@.casks[
                        a].name != #[trigger] manifest@.casks[b].name by {
                            let aa = if a < i as int {
                                a
                            } else {
                                a + 1
                            };
                            let bb = if b < i as int {
                                b
                            } else {
                                b + 1
                            };
                            assert(manifest@.casks[a] == before[aa]);
                            assert(manifest@.casks[b] == before[bb]);
                        }
                    }
                }
                return Some(PackageTypeWrapper::Cask);
            },
            None => {},
        }
    }
    None
}

/// With unique names, a found index is the one the specification's lookup
/// picks.
proof fn lemma_decl_found(s: Seq<DeclView>, name: Seq<char>, i: int)
    requires
        decl_names_unique(s),
        0 <= i < s.len(),
        s[i].name == name,
    ensures
        decls_contain_name(s, name),
        decl_index(s, name) == i,
{
    assert(decls_contain_name(s, name));
    let k = decl_index(s, name);
    assert(0 <= k < s.len() && s[k].name == name);
    if k != i {
        if k < i {
            assert(s[k].name != s[i].name);
        } else {
            assert(s[i].name != s[k].name);
        }
    }
}

/// Whether the list declares `name`.
fn decls_have_name(v: &Vec<PackageDeclaration>, name: &str) -> (r: bool)
    ensures
        r == decls_contain_name(v.deep_view(), name@),
{
    let n = v.len();
    let mut i: usize = 0;
    while i < n
        invariant
            0 <= i <= n,
            n == v@.len(),
            forall|j: int| 0 <= j < i ==> #[trigger] v.deep_view()[j].name != name@,
        decreases n - i,
    {
        if str_eq(v[i].name.as_str(), name) {
            proof {
                assert(v.deep_view()[i as int].name == name@);
            }
            return true;
        }
        i = i + 1;
    }
    proof {
        if decls_contain_name(v.deep_view(), name@) {
            let j = choose|j: int|
                0 <= j < v.deep_view().len() && #[trigger] v.deep_view()[j].name == name@;
        }
    }
    false
}

/// Index of the first declaration of that name.
fn find_decl_index(v: &Vec<PackageDeclaration>, name: &str) -> (r: Option<usize>)
    ensures
        match r {
            Some(i) => i < v@.len() && v.deep_view()[i as int].name == name@,
            None => !decls_contain_name(v.deep_view(), name@),
        },
{
    let n = v.len();
    let mut i: usize = 0;
    while i < n
        invariant
            0 <= i <= n,
            n == v@.len(),
            forall|j: int| 0 <= j < i ==> #[trigger] v.deep_view()[j].name != name@,
        decreases n - i,
    {
        if str_eq(v[i].name.as_str(), name) {
            proof {
                assert(v.deep_view()[i as int].name == name@);
            }
            return Some(i);
        }
        i = i + 1;
    }
    proof {
        if decls_contain_name(v.deep_view(), name@) {
            let j = choose|j: int|
                0 <= j < v.deep_view().len() && #[trigger] v.deep_view()[j].name == name@;
        }
    }
    None
}

} // verus!
