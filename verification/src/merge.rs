//! The manifest merger: combine the declarations of many shards into one
//! synthesized desired-state manifest.
//!
//! Taps are unioned.  Package declarations are grouped by name: the merged
//! state is `Latest` when any input asked for `Latest` and `Present`
//! otherwise, the first non-empty option list wins, and explicit `Absent`
//! declarations are dropped — manifests are additive with respect to each
//! other, and implied uninstall is the only subtraction mechanism.

use vstd::prelude::*;

use crate::manifest::{decl_names_unique, decls_contain_name, decl_index, empty_manifest_view,
    default_metadata_view, DeclView, Manifest, ManifestView, PackageDeclaration, PackageState,
    tap_names_unique};
use crate::util::{clone_string_vec, str_eq};

verus! {

/// The state a declaration contributes on first sight: `Latest` stays
/// `Latest`, everything else (that is, `Present`) enters as `Present`.
pub open spec fn norm_state(s: PackageState) -> PackageState {
    if s is Latest {
        PackageState::Latest
    } else {
        PackageState::Present
    }
}

/// How a further declaration of an already-merged name changes the entry:
/// any `Latest` wins the state, the first non-empty option list wins.
pub open spec fn merged_update(e: DeclView, d: DeclView) -> DeclView {
    DeclView {
        state: if d.state is Latest {
            PackageState::Latest
        } else {
            e.state
        },
        options: if e.options.len() == 0 {
            d.options
        } else {
            e.options
        },
        ..e
    }
}

/// Merge a single declaration into the accumulated list.
pub open spec fn merge_one(acc: Seq<DeclView>, d: DeclView) -> Seq<DeclView> {
    if d.state is Absent {
        acc
    } else if decls_contain_name(acc, d.name) {
        let i = decl_index(acc, d.name);
        acc.update(i, merged_update(acc[i], d))
    } else {
        acc.push(
            DeclView { name: d.name, version: "latest"@, options: d.options, state: norm_state(
                d.state,
            ) },
        )
    }
}

/// Merge a whole declaration list into the accumulated list, in order.
pub open spec fn merge_decls(acc: Seq<DeclView>, ds: Seq<DeclView>) -> Seq<DeclView>
    decreases ds.len(),
{
    if ds.len() == 0 {
        acc
    } else {
        merge_one(merge_decls(acc, ds.drop_last()), ds.last())
    }
}

/// Merge a tap list into the accumulated union, keeping first occurrences.
pub open spec fn merge_taps(acc: Seq<Seq<char>>, ts: Seq<Seq<char>>) -> Seq<Seq<char>>
    decreases ts.len(),
{
    if ts.len() == 0 {
        acc
    } else {
        let prev = merge_taps(acc, ts.drop_last());
        if prev.contains(ts.last()) {
            prev
        } else {
            prev.push(ts.last())
        }
    }
}

/// The merged view of a list of manifests, folded left to right from the
/// empty manifest.
pub open spec fn merge_all(ms: Seq<ManifestView>) -> ManifestView
    decreases ms.len(),
{
    if ms.len() == 0 {
        empty_manifest_view()
    } else {
        let prev = merge_all(ms.drop_last());
        let m = ms.last();
        ManifestView {
            taps: merge_taps(prev.taps, m.taps),
            formulas: merge_decls(prev.formulas, m.formulas),
            casks: merge_decls(prev.casks, m.casks),
            metadata: prev.metadata,
        }
    }
}

/// A merged declaration list is canonical: unique names, no `Absent`
/// entries, every version `"latest"`.
pub open spec fn decls_canonical(s: Seq<DeclView>) -> bool {
    &&& decl_names_unique(s)
    &&& forall|i: int| 0 <= i < s.len() ==> !(#[trigger] s[i].state is Absent)
    &&& forall|i: int| 0 <= i < s.len() ==> (#[trigger] s[i].version) == "latest"@
}

/// Merging one declaration preserves canonicity, and the merged names are
/// the old names plus (unless it was `Absent`) the new one.
pub proof fn lemma_merge_one_canonical(acc: Seq<DeclView>, d: DeclView)
    requires
        decls_canonical(acc),
    ensures
        decls_canonical(merge_one(acc, d)),
        forall|n: Seq<char>|
            #![trigger decls_contain_name(merge_one(acc, d), n)]
            #![trigger decls_contain_name(acc, n)]
            decls_contain_name(merge_one(acc, d), n) <==> (decls_contain_name(acc, n) || (!(d.state
                is Absent) && d.name == n)),
{
    let out = merge_one(acc, d);
    if d.state is Absent {
    } else if decls_contain_name(acc, d.name) {
        let i = decl_index(acc, d.name);
        assert(0 <= i < acc.len() && acc[i].name == d.name);
        assert(out.len() == acc.len());
        assert(forall|j: int| 0 <= j < out.len() ==> #[trigger] out[j].name == acc[j].name);
        assert forall|n: Seq<char>|
            decls_contain_name(out, n) <==> decls_contain_name(acc, n) by {
            if decls_contain_name(out, n) {
                let j = choose|j: int| 0 <= j < out.len() && #[trigger] out[j].name == n;
                assert(acc[j].name == n);
            }
            if decls_contain_name(acc, n) {
                let j = choose|j: int| 0 <= j < acc.len() && #[trigger] acc[j].name == n;
                assert(out[j].name == n);
            }
        }
    } else {
        assert(out.len() == acc.len() + 1);
        assert(out.last().name == d.name);
        assert forall|n: Seq<char>|
            decls_contain_name(out, n) <==> (decls_contain_name(acc, n) || d.name == n) by {
            if decls_contain_name(out, n) {
                let j = choose|j: int| 0 <= j < out.len() && #[trigger] out[j].name == n;
                if j < acc.len() {
                    assert(acc[j].name == n);
                }
            }
            if decls_contain_name(acc, n) {
                let j = choose|j: int| 0 <= j < acc.len() && #[trigger] acc[j].name == n;
                assert(out[j].name == n);
            }
            if d.name == n {
                assert(out[out.len() - 1].name == n);
            }
        }
        assert(decl_names_unique(out)) by {
            assert forall|a: int, b: int|
                0 <= a < b < out.len() implies #[trigger] out[a].name != #[trigger] out[b].name by {
                if b == out.len() - 1 {
                    if out[a].name == d.name {
                        assert(acc[a].name == d.name);
                        assert(decls_contain_name(acc, d.name));
                    }
                } else {
                    assert(out[a] == acc[a] && out[b] == acc[b]);
                }
            }
        }
    }
}

/// Merging a list of declarations preserves canonicity; the merged names
/// are the old names plus the non-`Absent` new ones.
pub proof fn lemma_merge_decls_canonical(acc: Seq<DeclView>, ds: Seq<DeclView>)
    requires
        decls_canonical(acc),
    ensures
        decls_canonical(merge_decls(acc, ds)),
        forall|n: Seq<char>|
            #![trigger decls_contain_name(merge_decls(acc, ds), n)]
            #![trigger decls_contain_name(acc, n)]
            decls_contain_name(merge_decls(acc, ds), n) <==> (decls_contain_name(acc, n) || exists|
                i: int,
            |
                0 <= i < ds.len() && #[trigger] ds[i].name == n && !(ds[i].state is Absent)),
    decreases ds.len(),
{
    if ds.len() == 0 {
    } else {
        let prefix = ds.drop_last();
        lemma_merge_decls_canonical(acc, prefix);
        let mid = merge_decls(acc, prefix);
        lemma_merge_one_canonical(mid, ds.last());
        assert(merge_decls(acc, ds) == merge_one(mid, ds.last()));
        assert forall|n: Seq<char>|
            decls_contain_name(merge_decls(acc, ds), n) <==> (decls_contain_name(acc, n) || exists|
                i: int,
            |
                0 <= i < ds.len() && #[trigger] ds[i].name == n && !(ds[i].state is Absent)) by {
            if decls_contain_name(merge_one(mid, ds.last()), n) {
                assert(decls_contain_name(mid, n) || (!(ds.last().state is Absent) && ds.last().name
                    == n));
                if decls_contain_name(mid, n) {
                    if !decls_contain_name(acc, n) {
                        let i = choose|i: int|
                            0 <= i < prefix.len() && #[trigger] prefix[i].name == n && !(
                            prefix[i].state is Absent);
                        assert(ds[i].name == n && !(ds[i].state is Absent));
                    }
                } else {
                    assert(ds[ds.len() - 1].name == n && !(ds[ds.len() - 1].state is Absent));
                }
            }
            if decls_contain_name(acc, n) {
                assert(decls_contain_name(mid, n));
                assert(decls_contain_name(merge_one(mid, ds.last()), n));
            }
            if exists|i: int|
                0 <= i < ds.len() && #[trigger] ds[i].name == n && !(ds[i].state is Absent) {
                let i = choose|i: int|
                    0 <= i < ds.len() && #[trigger] ds[i].name == n && !(ds[i].state is Absent);
                if i < ds.len() - 1 {
                    assert(prefix[i].name == n && !(prefix[i].state is Absent));
                    assert(decls_contain_name(mid, n));
                } else {
                    assert(!(ds.last().state is Absent) && ds.last().name == n);
                }
                assert(decls_contain_name(merge_one(mid, ds.last()), n));
            }
        }
    }
}

/// Merged tap lists stay duplicate-free; their names are the union.
pub proof fn lemma_merge_taps_canonical(acc: Seq<Seq<char>>, ts: Seq<Seq<char>>)
    requires
        tap_names_unique(acc),
    ensures
        tap_names_unique(merge_taps(acc, ts)),
        forall|n: Seq<char>|
            #![trigger merge_taps(acc, ts).contains(n)]
            #![trigger acc.contains(n)]
            #![trigger ts.contains(n)]
            merge_taps(acc, ts).contains(n) <==> (acc.contains(n) || ts.contains(n)),
    decreases ts.len(),
{
    if ts.len() == 0 {
        assert forall|n: Seq<char>|
            merge_taps(acc, ts).contains(n) <==> (acc.contains(n) || ts.contains(n)) by {
            if ts.contains(n) {
                let i = choose|i: int| 0 <= i < ts.len() && ts[i] == n;
            }
        }
    } else {
        let prefix = ts.drop_last();
        lemma_merge_taps_canonical(acc, prefix);
        let mid = merge_taps(acc, prefix);
        let out = merge_taps(acc, ts);
        assert(tap_names_unique(out)) by {
            if !mid.contains(ts.last()) {
                assert forall|a: int, b: int|
                    0 <= a < b < out.len() implies out[a] != out[b] by {
                    if b == out.len() - 1 {
                        assert(mid.contains(mid[a]));
                    } else {
                        assert(out[a] == mid[a] && out[b] == mid[b]);
                    }
                }
            }
        }
        assert forall|n: Seq<char>|
            out.contains(n) <==> (acc.contains(n) || ts.contains(n)) by {
            if out.contains(n) {
                let j = choose|j: int| 0 <= j < out.len() && out[j] == n;
                if j < mid.len() {
                    assert(mid.contains(n));
                    if !acc.contains(n) {
                        let i = choose|i: int| 0 <= i < prefix.len() && prefix[i] == n;
                        assert(ts[i] == n);
                    }
                } else {
                    assert(n == ts.last());
                    assert(ts[ts.len() - 1] == n);
                }
            }
            if acc.contains(n) {
                assert(mid.contains(n));
                if mid.contains(n) {
                    let j = choose|j: int| 0 <= j < mid.len() && mid[j] == n;
                    assert(out[j] == n);
                }
            }
            if ts.contains(n) {
                let i = choose|i: int| 0 <= i < ts.len() && ts[i] == n;
                if i < ts.len() - 1 {
                    assert(prefix[i] == n);
                    assert(mid.contains(n));
                    let j = choose|j: int| 0 <= j < mid.len() && mid[j] == n;
                    assert(out[j] == n);
                } else {
                    if mid.contains(n) {
                        let j = choose|j: int| 0 <= j < mid.len() && mid[j] == n;
                        assert(out[j] == n);
                    } else {
                        assert(out.last() == n);
                        assert(out[out.len() - 1] == n);
                    }
                }
            }
        }
    }
}

/// A merged manifest is canonical: duplicate-free taps, canonical
/// declaration lists, and the default metadata.
pub proof fn lemma_merge_all_canonical(ms: Seq<ManifestView>)
    ensures
        tap_names_unique(merge_all(ms).taps),
        decls_canonical(merge_all(ms).formulas),
        decls_canonical(merge_all(ms).casks),
        merge_all(ms).metadata == default_metadata_view(),
    decreases ms.len(),
{
    if ms.len() == 0 {
    } else {
        lemma_merge_all_canonical(ms.drop_last());
        let prev = merge_all(ms.drop_last());
        let m = ms.last();
        lemma_merge_taps_canonical(prev.taps, m.taps);
        lemma_merge_decls_canonical(prev.formulas, m.formulas);
        lemma_merge_decls_canonical(prev.casks, m.casks);
    }
}

/// Re-merging an already-canonical declaration list from scratch gives it
/// back unchanged.
pub proof fn lemma_merge_decls_reabsorb(s: Seq<DeclView>)
    requires
        decls_canonical(s),
    ensures
        merge_decls(Seq::empty(), s) == s,
    decreases s.len(),
{
    if s.len() == 0 {
        assert(merge_decls(Seq::empty(), s) =~= s);
    } else {
        let prefix = s.drop_last();
        assert(decls_canonical(prefix)) by {
            assert(forall|a: int, b: int|
                0 <= a < b < prefix.len() ==> prefix[a] == s[a] && prefix[b] == s[b]);
            assert(forall|i: int| 0 <= i < prefix.len() ==> prefix[i] == s[i]);
        }
        lemma_merge_decls_reabsorb(prefix);
        let d = s.last();
        assert(!(d.state is Absent));
        assert(!decls_contain_name(prefix, d.name)) by {
            if decls_contain_name(prefix, d.name) {
                let i = choose|i: int|
                    0 <= i < prefix.len() && #[trigger] prefix[i].name == d.name;
                assert(s[i].name == s[s.len() - 1].name);
            }
        }
        assert(norm_state(d.state) == d.state);
        assert(d.version == "latest"@);
        assert(merge_one(prefix, d) =~= s) by {
            assert(merge_one(prefix, d) == prefix.push(
                DeclView {
                    name: d.name,
                    version: "latest"@,
                    options: d.options,
                    state: norm_state(d.state),
                },
            ));
            assert(DeclView {
                name: d.name,
                version: "latest"@,
                options: d.options,
                state: norm_state(d.state),
            } == d);
        }
    }
}

/// Re-merging an already-duplicate-free tap list from scratch gives it back
/// unchanged.
pub proof fn lemma_merge_taps_reabsorb(s: Seq<Seq<char>>)
    requires
        tap_names_unique(s),
    ensures
        merge_taps(Seq::empty(), s) == s,
    decreases s.len(),
{
    if s.len() == 0 {
        assert(merge_taps(Seq::empty(), s) =~= s);
    } else {
        let prefix = s.drop_last();
        assert(tap_names_unique(prefix)) by {
            assert(forall|a: int, b: int|
                0 <= a < b < prefix.len() ==> prefix[a] == s[a] && prefix[b] == s[b]);
        }
        lemma_merge_taps_reabsorb(prefix);
        assert(!prefix.contains(s.last())) by {
            if prefix.contains(s.last()) {
                let i = choose|i: int| 0 <= i < prefix.len() && prefix[i] == s.last();
                assert(s[i] == s[s.len() - 1]);
            }
        }
        assert(merge_taps(Seq::empty(), s) =~= s);
    }
}

/// Merging is associative over manifest order: merging a batch first and
/// then one more manifest gives the same result as merging them all in one
/// pass.
pub proof fn lemma_merge_associative(ms: Seq<ManifestView>, c: ManifestView)
    ensures
        merge_all(seq![merge_all(ms), c]) == merge_all(ms.push(c)),
{
    let m = merge_all(ms);
    lemma_merge_all_canonical(ms);
    let e: Seq<ManifestView> = Seq::empty();
    assert(merge_all(e) == empty_manifest_view());
    assert(seq![m].drop_last() =~= e);
    assert(merge_all(seq![m].drop_last()) == empty_manifest_view());
    let single = merge_all(seq![m]);
    assert(single.taps == merge_taps(empty_manifest_view().taps, m.taps));
    lemma_merge_taps_reabsorb(m.taps);
    lemma_merge_decls_reabsorb(m.formulas);
    lemma_merge_decls_reabsorb(m.casks);
    assert(single =~= m);
    assert(seq![m, c].drop_last() =~= seq![m]);
    assert(merge_all(seq![m, c].drop_last()) == single);
    assert(seq![m, c].last() == c);
    assert(ms.push(c).drop_last() =~= ms);
    assert(merge_all(ms.push(c).drop_last()) == m);
    assert(ms.push(c).last() == c);
    assert(merge_all(seq![m, c]) =~= merge_all(ms.push(c)));
}

/// Merging is commutative on what is desired: swapping two manifests
/// merges the same tap set and the same declared names.  (The option
/// lists are not symmetric: the first non-empty list wins by design.)
pub proof fn lemma_merge_commutative_names(a: ManifestView, b: ManifestView, n: Seq<char>)
    ensures
        decls_contain_name(merge_all(seq![a, b]).formulas, n) <==> decls_contain_name(
            merge_all(seq![b, a]).formulas,
            n,
        ),
        decls_contain_name(merge_all(seq![a, b]).casks, n) <==> decls_contain_name(
            merge_all(seq![b, a]).casks,
            n,
        ),
        merge_all(seq![a, b]).taps.contains(n) <==> merge_all(seq![b, a]).taps.contains(n),
{
    let e: Seq<ManifestView> = Seq::empty();
    assert(merge_all(e) == empty_manifest_view());
    assert(seq![a].drop_last() =~= e);
    assert(seq![b].drop_last() =~= e);
    assert(seq![a, b].drop_last() =~= seq![a]);
    assert(seq![b, a].drop_last() =~= seq![b]);
    let ma = merge_all(seq![a]);
    let mb = merge_all(seq![b]);
    assert(!decls_contain_name(Seq::<DeclView>::empty(), n)) by {
        if decls_contain_name(Seq::<DeclView>::empty(), n) {
            let i = choose|i: int|
                0 <= i < Seq::<DeclView>::empty().len() && #[trigger] Seq::<
                    DeclView,
                >::empty()[i].name == n;
        }
    }
    assert(!Seq::<Seq<char>>::empty().contains(n)) by {
        if Seq::<Seq<char>>::empty().contains(n) {
            let i = choose|i: int|
                0 <= i < Seq::<Seq<char>>::empty().len() && Seq::<Seq<char>>::empty()[i] == n;
        }
    }
    // The declared names of either merged pair are the union of the
    // non-`Absent` names of the two inputs.
    lemma_merge_decls_canonical(Seq::empty(), a.formulas);
    lemma_merge_decls_canonical(Seq::empty(), b.formulas);
    lemma_merge_decls_canonical(ma.formulas, b.formulas);
    lemma_merge_decls_canonical(mb.formulas, a.formulas);
    assert(merge_all(seq![a, b]).formulas == merge_decls(ma.formulas, b.formulas));
    assert(merge_all(seq![b, a]).formulas == merge_decls(mb.formulas, a.formulas));
    assert(ma.formulas == merge_decls(Seq::empty(), a.formulas));
    assert(mb.formulas == merge_decls(Seq::empty(), b.formulas));
    lemma_merge_decls_canonical(Seq::empty(), a.casks);
    lemma_merge_decls_canonical(Seq::empty(), b.casks);
    lemma_merge_decls_canonical(ma.casks, b.casks);
    lemma_merge_decls_canonical(mb.casks, a.casks);
    assert(merge_all(seq![a, b]).casks == merge_decls(ma.casks, b.casks));
    assert(merge_all(seq![b, a]).casks == merge_decls(mb.casks, a.casks));
    assert(ma.casks == merge_decls(Seq::empty(), a.casks));
    assert(mb.casks == merge_decls(Seq::empty(), b.casks));
    // Tap union is symmetric.
    lemma_merge_taps_canonical(Seq::empty(), a.taps);
    lemma_merge_taps_canonical(Seq::empty(), b.taps);
    lemma_merge_taps_canonical(ma.taps, b.taps);
    lemma_merge_taps_canonical(mb.taps, a.taps);
    assert(merge_all(seq![a, b]).taps == merge_taps(ma.taps, b.taps));
    assert(merge_all(seq![b, a]).taps == merge_taps(mb.taps, a.taps));
    assert(ma.taps == merge_taps(Seq::empty(), a.taps));
    assert(mb.taps == merge_taps(Seq::empty(), b.taps));
}

/// Find the first declaration with the given name.
fn find_decl(v: &Vec<PackageDeclaration>, name: &str) -> (r: Option<usize>)
    ensures
        match r {
            Some(i) => i < v@.len() && v.deep_view()[i as int].name == name@,
            None => !decls_contain_name(v.deep_view(), name@),
        },
{
    let n = v.len();
    let mut i: usize = 0;
    while i < n
        invariant
            0 <= i <= n,
            n == v@.len(),
            forall|j: int| 0 <= j < i ==> #[trigger] v.deep_view()[j].name != name@,
        decreases n - i,
    {
        if str_eq(v[i].name.as_str(), name) {
            proof {
                assert(v.deep_view()[i as int].name == name@);
            }
            return Some(i);
        }
        i = i + 1;
    }
    proof {
        if decls_contain_name(v.deep_view(), name@) {
            let j = choose|j: int|
                0 <= j < v.deep_view().len() && #[trigger] v.deep_view()[j].name == name@;
        }
    }
    None
}

/// Merge one shard's declaration list into the accumulated list.
fn merge_decls_into(acc: &mut Vec<PackageDeclaration>, ds: &Vec<PackageDeclaration>)
    requires
        decls_canonical(old(acc).deep_view()),
    ensures
        final(acc).deep_view() == merge_decls(old(acc).deep_view(), ds.deep_view()),
        decls_canonical(final(acc).deep_view()),
{
    let n = ds.len();
    let mut i: usize = 0;
    proof {
        assert(ds.deep_view().subrange(0, 0) =~= Seq::<DeclView>::empty());
    }
    while i < n
        invariant
            0 <= i <= n,
            n == ds@.len(),
            acc.deep_view() == merge_decls(old(acc).deep_view(), ds.deep_view().subrange(
                0,
                i as int,
            )),
            decls_canonical(acc.deep_view()),
        decreases n - i,
    {
        let ghost pre = ds.deep_view().subrange(0, i as int);
        let ghost post = ds.deep_view().subrange(0, i + 1 as int);
        proof {
            assert(post.drop_last() =~= pre);
            assert(post.last() == ds.deep_view()[i as int]);
            lemma_merge_one_canonical(acc.deep_view(), ds.deep_view()[i as int]);
        }
        let d = &ds[i];
        let ghost dv = ds.deep_view()[i as int];
        match d.state {
            PackageState::Absent => {},
            _ => {
                match find_decl(acc, d.name.as_str()) {
                    Some(idx) => {
                        proof {
                            // The found index is the unique one the merge
                            // specification picks.
                            assert(decls_contain_name(acc.deep_view(), dv.name));
                            let k = decl_index(acc.deep_view(), dv.name);
                            if k != idx as int {
                                assert(acc.deep_view()[k].name == acc.deep_view()[
                                    idx as int].name);
                            }
                        }
                        let entry = &acc[idx];
                        let new_state = match d.state {
                            PackageState::Latest => PackageState::Latest,
                            _ => entry.state,
                        };
                        let new_options = if entry.options.len() == 0 {
                            clone_string_vec(&d.options)
                        } else {
                            clone_string_vec(&entry.options)
                        };
                        let updated = PackageDeclaration {
                            name: entry.name.clone(),
                            version: entry.version.clone(),
                            options: new_options,
                            state: new_state,
                        };
                        proof {
                            assert(updated@ == merged_update(acc.deep_view()[idx as int], dv));
                        }
                        acc.set(idx, updated);
                        proof {
                            assert(acc.deep_view() =~= merge_one(
                                merge_decls(old(acc).deep_view(), pre),
                                dv,
                            ));
                        }
                    },
                    None => {
                        let fresh = PackageDeclaration {
                            name: d.name.clone(),
                            version: "latest".to_owned(),
                            options: clone_string_vec(&d.options),
                            state: match d.state {
                                PackageState::Latest => PackageState::Latest,
                                _ => PackageState::Present,
                            },
                        };
                        acc.push(fresh);
                        proof {
                            assert(acc.deep_view() =~= merge_one(
                                merge_decls(old(acc).deep_view(), pre),
                                dv,
                            ));
                        }
                    },
                }
            },
        }
        proof {
            assert(acc.deep_view() == merge_decls(old(acc).deep_view(), post));
        }
        i = i + 1;
    }
    proof {
        assert(ds.deep_view().subrange(0, n as int) =~= ds.deep_view());
    }
}

/// Merge one shard's tap list into the accumulated union.
pub(crate) fn merge_taps_into(acc: &mut Vec<String>, ts: &Vec<String>)
    requires
        tap_names_unique(old(acc).deep_view()),
    ensures
        final(acc).deep_view() == merge_taps(old(acc).deep_view(), ts.deep_view()),
        tap_names_unique(final(acc).deep_view()),
{
    let n = ts.len();
    let mut i: usize = 0;
    proof {
        assert(ts.deep_view().subrange(0, 0) =~= Seq::<Seq<char>>::empty());
    }
    while i < n
        invariant
            0 <= i <= n,
            n == ts@.len(),
            acc.deep_view() == merge_taps(old(acc).deep_view(), ts.deep_view().subrange(
                0,
                i as int,
            )),
            tap_names_unique(acc.deep_view()),
        decreases n - i,
    {
        let ghost pre = ts.deep_view().subrange(0, i as int);
        let ghost post = ts.deep_view().subrange(0, i + 1 as int);
        proof {
            assert(post.drop_last() =~= pre);
            assert(post.last() == ts.deep_view()[i as int]);
        }
        let present = crate::util::vec_contains_str(acc, ts[i].as_str());
        proof {
            let tv = ts.deep_view()[i as int];
            if crate::util::seq_contains_str(acc@, tv) {
                let j = choose|j: int| 0 <= j < acc@.len() && #[trigger] acc@[j]@ == tv;
                assert(acc.deep_view()[j] == tv);
            } else if acc.deep_view().contains(tv) {
                let j = choose|j: int|
                    0 <= j < acc.deep_view().len() && acc.deep_view()[j] == tv;
                assert(acc@[j]@ == tv);
            }
        }
        if !present {
            let ghost old_deep = acc.deep_view();
            acc.push(ts[i].clone());
            proof {
                assert(acc.deep_view() =~= old_deep.push(ts.deep_view()[i as int]));
                assert(tap_names_unique(acc.deep_view())) by {
                    assert forall|a: int, b: int|
                        0 <= a < b < acc.deep_view().len() implies acc.deep_view()[a]
                        != acc.deep_view()[b] by {
                        if b == acc.deep_view().len() - 1 {
                            assert(old_deep.contains(old_deep[a]));
                        }
                    }
                }
            }
        }
        proof {
            assert(acc.deep_view() == merge_taps(old(acc).deep_view(), post));
        }
        i = i + 1;
    }
    proof {
        assert(ts.deep_view().subrange(0, n as int) =~= ts.deep_view());
    }
}

/// Merge many manifests into one synthesized desired-state manifest.
pub fn merge_manifests(manifests: &Vec<Manifest>) -> (r: Manifest)
    ensures
        r@ == merge_all(manifests.deep_view()),
{
    let mut result = Manifest::new();
    let n = manifests.len();
    let mut i: usize = 0;
    proof {
        assert(manifests.deep_view().subrange(0, 0) =~= Seq::<ManifestView>::empty());
        assert(result@ == merge_all(manifests.deep_view().subrange(0, 0)));
        lemma_merge_all_canonical(manifests.deep_view().subrange(0, 0));
    }
    while i < n
        invariant
            0 <= i <= n,
            n == manifests@.len(),
            result@ == merge_all(manifests.deep_view().subrange(0, i as int)),
            tap_names_unique(result@.taps),
            decls_canonical(result@.formulas),
            decls_canonical(result@.casks),
        decreases n - i,
    {
        let ghost pre = manifests.deep_view().subrange(0, i as int);
        let ghost post = manifests.deep_view().subrange(0, i + 1 as int);
        proof {
            assert(post.drop_last() =~= pre);
            assert(post.last() == manifests.deep_view()[i as int]);
        }
        let m = &manifests[i];
        merge_taps_into(&mut result.taps, &m.taps);
        merge_decls_into(&mut result.formulas, &m.formulas);
        merge_decls_into(&mut result.casks, &m.casks);
        proof {
            assert(result@ == merge_all(post));
        }
        i = i + 1;
    }
    proof {
        assert(manifests.deep_view().subrange(0, n as int) =~= manifests.deep_view());
    }
    result
}

} // verus!
