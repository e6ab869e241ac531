//! The manifest document model and its normalization.
//!
//! A shard document on disk may use several historical encodings at once: a
//! simplified string list (`"name"` or `"name:version"`), a structured
//! array of objects with name/version/options/state, an even older `brews`
//! list for casks, and structured taps.  The byte-level encoding of the
//! document is owned by the surrounding application; this module receives
//! the decoded document and normalizes every form into one canonical
//! declaration set, with the structured form winning over a simplified
//! duplicate of the same name, and turns a manifest back into a document.

use vstd::prelude::*;

use crate::manifest::{decl_names_unique, decls_contain_name, DeclView, Manifest, ManifestView,
    Metadata, PackageDeclaration, PackageState, manifest_wf, tap_names_unique};
use crate::merge::{merge_taps, merge_taps_into};
use crate::util::clone_string_vec;
use crate::validate::{is_name_char, is_name_start_char, valid_package_name};

verus! {

/// A structured formula entry of the legacy document format.
#[derive(Debug)]
pub struct Formula {
    pub name: String,
    pub version: String,
    pub options: Vec<String>,
    pub state: PackageState,
}

impl View for Formula {
    type V = DeclView;

    open spec fn view(&self) -> DeclView {
        DeclView {
            name: self.name@,
            version: self.version@,
            options: self.options.deep_view(),
            state: self.state,
        }
    }
}

impl DeepView for Formula {
    type V = DeclView;

    open spec fn deep_view(&self) -> DeclView {
        self.view()
    }
}

impl Formula {
    /// The declaration this entry stands for.
    pub fn to_declaration(&self) -> (r: PackageDeclaration)
        ensures
            r@ == self@,
    {
        PackageDeclaration {
            name: self.name.clone(),
            version: self.version.clone(),
            options: clone_string_vec(&self.options),
            state: self.state,
        }
    }

    /// The structured entry for a declaration.
    pub fn from_declaration(d: &PackageDeclaration) -> (r: Formula)
        ensures
            r@ == d@,
    {
        Formula {
            name: d.name.clone(),
            version: d.version.clone(),
            options: clone_string_vec(&d.options),
            state: d.state,
        }
    }
}

/// A structured cask entry of the legacy document format.
#[derive(Debug)]
pub struct Cask {
    pub name: String,
    pub version: String,
    pub options: Vec<String>,
    pub state: PackageState,
}

impl View for Cask {
    type V = DeclView;

    open spec fn view(&self) -> DeclView {
        DeclView {
            name: self.name@,
            version: self.version@,
            options: self.options.deep_view(),
            state: self.state,
        }
    }
}

impl DeepView for Cask {
    type V = DeclView;

    open spec fn deep_view(&self) -> DeclView {
        self.view()
    }
}

impl Cask {
    /// The declaration this entry stands for.
    pub fn to_declaration(&self) -> (r: PackageDeclaration)
        ensures
            r@ == self@,
    {
        PackageDeclaration {
            name: self.name.clone(),
            version: self.version.clone(),
            options: clone_string_vec(&self.options),
            state: self.state,
        }
    }

    /// The structured entry for a declaration.
    pub fn from_declaration(d: &PackageDeclaration) -> (r: Cask)
        ensures
            r@ == d@,
    {
        Cask {
            name: d.name.clone(),
            version: d.version.clone(),
            options: clone_string_vec(&d.options),
            state: d.state,
        }
    }
}

/// A structured tap entry of the legacy document format.
#[derive(Debug)]
pub struct Tap {
    pub name: String,
}

impl View for Tap {
    type V = Seq<char>;

    open spec fn view(&self) -> Seq<char> {
        self.name@
    }
}

impl DeepView for Tap {
    type V = Seq<char>;

    open spec fn deep_view(&self) -> Seq<char> {
        self.view()
    }
}

/// A decoded manifest document, before normalization: every encoding the
/// format ever used, side by side.
#[derive(Debug)]
pub struct RawDocument {
    /// Simplified formula entries, `"name"` or `"name:version"`.
    pub formulae: Vec<String>,
    /// Simplified cask entries.
    pub casks: Vec<String>,
    /// Tap names.
    pub taps: Vec<String>,
    /// The oldest alias for simplified cask entries.
    pub brews: Vec<String>,
    /// Structured formula entries.
    pub formulas: Vec<Formula>,
    /// Structured cask entries.
    pub casks_structured: Vec<Cask>,
    /// Structured tap entries.
    pub taps_structured: Vec<Tap>,
    /// Shard metadata.
    pub metadata: Metadata,
}

/// Mathematical image of a `RawDocument`.
#[verifier::ext_equal]
pub ghost struct RawDocumentView {
    pub formulae: Seq<Seq<char>>,
    pub casks: Seq<Seq<char>>,
    pub taps: Seq<Seq<char>>,
    pub brews: Seq<Seq<char>>,
    pub formulas: Seq<DeclView>,
    pub casks_structured: Seq<DeclView>,
    pub taps_structured: Seq<Seq<char>>,
    pub metadata: crate::manifest::MetadataView,
}

impl View for RawDocument {
    type V = RawDocumentView;

    open spec fn view(&self) -> RawDocumentView {
        RawDocumentView {
            formulae: self.formulae.deep_view(),
            casks: self.casks.deep_view(),
            taps: self.taps.deep_view(),
            brews: self.brews.deep_view(),
            formulas: self.formulas.deep_view(),
            casks_structured: self.casks_structured.deep_view(),
            taps_structured: self.taps_structured.deep_view(),
            metadata: self.metadata@,
        }
    }
}

/// No character of `s` is a colon.
pub open spec fn colon_free(s: Seq<char>) -> bool {
    forall|i: int| 0 <= i < s.len() ==> s[i] != ':'
}

/// `p` is the first colon of `s`.
pub open spec fn split_at_colon(s: Seq<char>, p: int) -> bool {
    &&& 0 <= p < s.len()
    &&& s[p] == ':'
    &&& colon_free(s.subrange(0, p))
}

/// `s` holds a colon somewhere.
pub open spec fn has_colon_split(s: Seq<char>) -> bool {
    exists|p: int| #[trigger] split_at_colon(s, p)
}

/// The position of the first colon of `s` (meaningful when one exists; it
/// is unique).
pub open spec fn the_colon(s: Seq<char>) -> int {
    choose|p: int| #[trigger] split_at_colon(s, p)
}

/// The name half of a simplified entry: everything before the first colon,
/// or the whole entry.
pub open spec fn decoded_name(s: Seq<char>) -> Seq<char> {
    if has_colon_split(s) {
        s.subrange(0, the_colon(s))
    } else {
        s
    }
}

/// The version half of a simplified entry: everything after the first
/// colon, or `"latest"`.
pub open spec fn decoded_version(s: Seq<char>) -> Seq<char> {
    if has_colon_split(s) {
        s.subrange(the_colon(s) + 1, s.len() as int)
    } else {
        "latest"@
    }
}

/// The declaration a simplified entry stands for: the decoded name and
/// version, no options, state `Latest`.
pub open spec fn decode_entry(s: Seq<char>) -> DeclView {
    DeclView {
        name: decoded_name(s),
        version: decoded_version(s),
        options: Seq::empty(),
        state: PackageState::Latest,
    }
}

/// A declaration the simplified encoding can carry: unpinned or pinned by
/// version only, with no options and state `Latest`.
pub open spec fn is_simple(d: DeclView) -> bool {
    d.state is Latest && d.options.len() == 0
}

/// The simplified entry for such a declaration.
pub open spec fn encode_entry(d: DeclView) -> Seq<char> {
    if d.version == "latest"@ {
        d.name
    } else {
        d.name + ":"@ + d.version
    }
}

/// Add structured entries to the declaration list; the first entry of a
/// name wins, later duplicates are dropped.
pub open spec fn add_structured(acc: Seq<DeclView>, ds: Seq<DeclView>) -> Seq<DeclView>
    decreases ds.len(),
{
    if ds.len() == 0 {
        acc
    } else {
        let prev = add_structured(acc, ds.drop_last());
        let d = ds.last();
        if decls_contain_name(prev, d.name) {
            prev
        } else {
            prev.push(d)
        }
    }
}

/// Add simplified entries to the declaration list; an entry whose name is
/// already declared (in particular by a structured form) is a no-op.
pub open spec fn add_simplified(acc: Seq<DeclView>, ss: Seq<Seq<char>>) -> Seq<DeclView>
    decreases ss.len(),
{
    if ss.len() == 0 {
        acc
    } else {
        let prev = add_simplified(acc, ss.drop_last());
        let d = decode_entry(ss.last());
        if decls_contain_name(prev, d.name) {
            prev
        } else {
            prev.push(d)
        }
    }
}

/// The canonical manifest a document normalizes to.
pub open spec fn normalized(d: RawDocumentView) -> ManifestView {
    ManifestView {
        taps: merge_taps(merge_taps(Seq::empty(), d.taps), d.taps_structured),
        formulas: add_simplified(add_structured(Seq::empty(), d.formulas), d.formulae),
        casks: add_simplified(
            add_simplified(add_structured(Seq::empty(), d.casks_structured), d.casks),
            d.brews,
        ),
        metadata: d.metadata,
    }
}

/// The simplified entries a declaration list serializes to: one encoded
/// string per simple declaration.
pub open spec fn simple_entries(s: Seq<DeclView>) -> Seq<Seq<char>>
    decreases s.len(),
{
    if s.len() == 0 {
        Seq::empty()
    } else {
        let prev = simple_entries(s.drop_last());
        if is_simple(s.last()) {
            prev.push(encode_entry(s.last()))
        } else {
            prev
        }
    }
}

/// The simple declarations of a list, in order.
pub open spec fn simple_decls(s: Seq<DeclView>) -> Seq<DeclView>
    decreases s.len(),
{
    if s.len() == 0 {
        Seq::empty()
    } else {
        let prev = simple_decls(s.drop_last());
        if is_simple(s.last()) {
            prev.push(s.last())
        } else {
            prev
        }
    }
}

/// The declarations that need the structured form, in order.
pub open spec fn structured_entries(s: Seq<DeclView>) -> Seq<DeclView>
    decreases s.len(),
{
    if s.len() == 0 {
        Seq::empty()
    } else {
        let prev = structured_entries(s.drop_last());
        if is_simple(s.last()) {
            prev
        } else {
            prev.push(s.last())
        }
    }
}

/// The document a manifest serializes to: simplified entries wherever the
/// simplified form can carry the declaration, the structured form for the
/// rest, and no legacy `brews` or structured taps.
pub open spec fn serialized(m: ManifestView) -> RawDocumentView {
    RawDocumentView {
        formulae: simple_entries(m.formulas),
        casks: simple_entries(m.casks),
        taps: m.taps,
        brews: Seq::empty(),
        formulas: structured_entries(m.formulas),
        casks_structured: structured_entries(m.casks),
        taps_structured: Seq::empty(),
        metadata: m.metadata,
    }
}

/// Decode one simplified entry into its declaration.
pub fn decode_simple_entry(entry: &str) -> (r: PackageDeclaration)
    ensures
        r@ == decode_entry(entry@),
{
    let n = entry.unicode_len();
    let mut i: usize = 0;
    while i < n
        invariant
            0 <= i <= n,
            n == entry@.len(),
            forall|j: int| 0 <= j < i ==> entry@[j] != ':',
        ensures
            0 <= i <= n,
            n == entry@.len(),
            forall|j: int| 0 <= j < i ==> entry@[j] != ':',
            i < n ==> entry@[i as int] == ':',
        decreases n - i,
    {
        if entry.get_char(i) == ':' {
            break;
        }
        i = i + 1;
    }
    if i < n {
        proof {
            assert(entry@.subrange(0, i as int) =~= entry@.subrange(0, i as int));
            assert(colon_free(entry@.subrange(0, i as int)));
            assert(split_at_colon(entry@, i as int));
            let p = the_colon(entry@);
            assert(split_at_colon(entry@, p));
            if p < i {
                assert(entry@[p] == ':');
            } else if p > i {
                assert(entry@.subrange(0, p)[i as int] == ':');
            }
            assert(p == i as int);
        }
        let name = entry.substring_char(0, i).to_owned();
        let version = entry.substring_char(i + 1, n).to_owned();
        let r = PackageDeclaration {
            name,
            version,
            options: Vec::new(),
            state: PackageState::Latest,
        };
        proof {
            assert(r@.options =~= Seq::<Seq<char>>::empty());
        }
        r
    } else {
        proof {
            if has_colon_split(entry@) {
                let p = the_colon(entry@);
                assert(split_at_colon(entry@, p));
                assert(entry@[p] == ':');
            }
        }
        let r = PackageDeclaration {
            name: entry.to_owned(),
            version: "latest".to_owned(),
            options: Vec::new(),
            state: PackageState::Latest,
        };
        proof {
            assert(r@.options =~= Seq::<Seq<char>>::empty());
        }
        r
    }
}

/// Encode one simple declaration as a simplified entry.
pub fn encode_simple_entry(d: &PackageDeclaration) -> (r: String)
    ensures
        r@ == encode_entry(d@),
{
    if crate::util::str_eq(d.version.as_str(), "latest") {
        d.name.clone()
    } else {
        let mut s = d.name.clone();
        s.append(":");
        s.append(d.version.as_str());
        s
    }
}

/// Whether the simplified encoding can carry this declaration.
pub fn is_simple_declaration(d: &PackageDeclaration) -> (r: bool)
    ensures
        r == is_simple(d@),
{
    match d.state {
        PackageState::Latest => d.options.len() == 0,
        _ => false,
    }
}

/// Add structured entries to the list, first entry of a name winning.
fn add_structured_into(acc: &mut Vec<PackageDeclaration>, ds: &Vec<PackageDeclaration>)
    ensures
        final(acc).deep_view() == add_structured(old(acc).deep_view(), ds.deep_view()),
{
    let n = ds.len();
    let mut i: usize = 0;
    proof {
        assert(ds.deep_view().subrange(0, 0) =~= Seq::<DeclView>::empty());
    }
    while i < n
        invariant
            0 <= i <= n,
            n == ds@.len(),
            acc.deep_view() == add_structured(old(acc).deep_view(), ds.deep_view().subrange(
                0,
                i as int,
            )),
        decreases n - i,
    {
        let ghost pre = ds.deep_view().subrange(0, i as int);
        let ghost post = ds.deep_view().subrange(0, i + 1 as int);
        proof {
            assert(post.drop_last() =~= pre);
            assert(post.last() == ds.deep_view()[i as int]);
        }
        let present = find_decl_name(acc, ds[i].name.as_str());
        if !present {
            acc.push(ds[i].clone());
        }
        proof {
            assert(acc.deep_view() =~= add_structured(old(acc).deep_view(), post));
        }
        i = i + 1;
    }
    proof {
        assert(ds.deep_view().subrange(0, n as int) =~= ds.deep_view());
    }
}

/// Add simplified entries to the list; names already declared are no-ops.
fn add_simplified_into(acc: &mut Vec<PackageDeclaration>, ss: &Vec<String>)
    ensures
        final(acc).deep_view() == add_simplified(old(acc).deep_view(), ss.deep_view()),
{
    let n = ss.len();
    let mut i: usize = 0;
    proof {
        assert(ss.deep_view().subrange(0, 0) =~= Seq::<Seq<char>>::empty());
    }
    while i < n
        invariant
            0 <= i <= n,
            n == ss@.len(),
            acc.deep_view() == add_simplified(old(acc).deep_view(), ss.deep_view().subrange(
                0,
                i as int,
            )),
        decreases n - i,
    {
        let ghost pre = ss.deep_view().subrange(0, i as int);
        let ghost post = ss.deep_view().subrange(0, i + 1 as int);
        proof {
            assert(post.drop_last() =~= pre);
            assert(post.last() == ss.deep_view()[i as int]);
        }
        let d = decode_simple_entry(ss[i].as_str());
        let present = find_decl_name(acc, d.name.as_str());
        if !present {
            acc.push(d);
        }
        proof {
            assert(acc.deep_view() =~= add_simplified(old(acc).deep_view(), post));
        }
        i = i + 1;
    }
    proof {
        assert(ss.deep_view().subrange(0, n as int) =~= ss.deep_view());
    }
}

/// Whether the list declares `name`.
fn find_decl_name(v: &Vec<PackageDeclaration>, name: &str) -> (r: bool)
    ensures
        r == decls_contain_name(v.deep_view(), name@),
{
    let n = v.len();
    let mut i: usize = 0;
    while i < n
        invariant
            0 <= i <= n,
            n == v@.len(),
            forall|j: int| 0 <= j < i ==> #[trigger] v.deep_view()[j].name != name@,
        decreases n - i,
    {
        if crate::util::str_eq(v[i].name.as_str(), name) {
            proof {
                assert(v.deep_view()[i as int].name == name@);
            }
            return true;
        }
        i = i + 1;
    }
    proof {
        if decls_contain_name(v.deep_view(), name@) {
            let j = choose|j: int|
                0 <= j < v.deep_view().len() && #[trigger] v.deep_view()[j].name == name@;
        }
    }
    false
}

/// Normalize a decoded document into the canonical manifest.  Every
/// encoding contributes; the structured form of a name wins over its
/// simplified duplicate, and the first entry of a name wins within a form.
pub fn parse_document(doc: &RawDocument) -> (r: Manifest)
    ensures
        r@ == normalized(doc@),
{
    let mut m = Manifest::new();
    m.metadata = doc.metadata.clone();

    // Taps: the plain list first, then structured taps.
    let structured_taps = taps_to_strings(&doc.taps_structured);
    proof {
        assert(m.taps.deep_view() =~= Seq::<Seq<char>>::empty());
        assert(tap_names_unique(m.taps.deep_view()));
    }
    merge_taps_into(&mut m.taps, &doc.taps);
    merge_taps_into(&mut m.taps, &structured_taps);

    // Formulae: structured entries first, then the simplified list.
    let structured_formulas = formulas_to_declarations(&doc.formulas);
    proof {
        assert(m.formulas.deep_view() =~= Seq::<DeclView>::empty());
    }
    add_structured_into(&mut m.formulas, &structured_formulas);
    add_simplified_into(&mut m.formulas, &doc.formulae);

    // Casks: structured entries, the simplified list, then legacy brews.
    let structured_casks = casks_to_declarations(&doc.casks_structured);
    proof {
        assert(m.casks.deep_view() =~= Seq::<DeclView>::empty());
    }
    add_structured_into(&mut m.casks, &structured_casks);
    add_simplified_into(&mut m.casks, &doc.casks);
    add_simplified_into(&mut m.casks, &doc.brews);

    proof {
        assert(m@ == normalized(doc@));
    }
    m
}

/// Serialize a manifest into a document: simplified entries where
/// possible, structured entries for the rest.
pub fn serialize_document(m: &Manifest) -> (r: RawDocument)
    ensures
        r@ == serialized(m@),
{
    let (formulae, formulas) = split_declarations_formula(&m.formulas);
    let (cask_entries, casks_structured) = split_declarations_cask(&m.casks);
    let r = RawDocument {
        formulae,
        casks: cask_entries,
        taps: clone_string_vec(&m.taps),
        brews: Vec::new(),
        formulas,
        casks_structured,
        taps_structured: Vec::new(),
        metadata: m.metadata.clone(),
    };
    proof {
        assert(r@.brews =~= Seq::<Seq<char>>::empty());
        assert(r@.taps_structured =~= Seq::<Seq<char>>::empty());
    }
    r
}

/// Split declarations into simplified entries and structured formula
/// entries.
fn split_declarations_formula(ds: &Vec<PackageDeclaration>) -> (r: (Vec<String>, Vec<Formula>))
    ensures
        r.0.deep_view() == simple_entries(ds.deep_view()),
        r.1.deep_view() == structured_entries(ds.deep_view()),
{
    let n = ds.len();
    let mut simple: Vec<String> = Vec::new();
    let mut structured: Vec<Formula> = Vec::new();
    let mut i: usize = 0;
    proof {
        assert(ds.deep_view().subrange(0, 0) =~= Seq::<DeclView>::empty());
        assert(simple.deep_view() =~= Seq::<Seq<char>>::empty());
        assert(structured.deep_view() =~= Seq::<DeclView>::empty());
    }
    while i < n
        invariant
            0 <= i <= n,
            n == ds@.len(),
            simple.deep_view() == simple_entries(ds.deep_view().subrange(0, i as int)),
            structured.deep_view() == structured_entries(ds.deep_view().subrange(0, i as int)),
        decreases n - i,
    {
        let ghost pre = ds.deep_view().subrange(0, i as int);
        let ghost post = ds.deep_view().subrange(0, i + 1 as int);
        proof {
            assert(post.drop_last() =~= pre);
            assert(post.last() == ds.deep_view()[i as int]);
        }
        if is_simple_declaration(&ds[i]) {
            simple.push(encode_simple_entry(&ds[i]));
        } else {
            structured.push(Formula::from_declaration(&ds[i]));
        }
        proof {
            assert(simple.deep_view() =~= simple_entries(post));
            assert(structured.deep_view() =~= structured_entries(post));
        }
        i = i + 1;
    }
    proof {
        assert(ds.deep_view().subrange(0, n as int) =~= ds.deep_view());
    }
    (simple, structured)
}

/// Split declarations into simplified entries and structured cask entries.
fn split_declarations_cask(ds: &Vec<PackageDeclaration>) -> (r: (Vec<String>, Vec<Cask>))
    ensures
        r.0.deep_view() == simple_entries(ds.deep_view()),
        r.1.deep_view() == structured_entries(ds.deep_view()),
{
    let n = ds.len();
    let mut simple: Vec<String> = Vec::new();
    let mut structured: Vec<Cask> = Vec::new();
    let mut i: usize = 0;
    proof {
        assert(ds.deep_view().subrange(0, 0) =~= Seq::<DeclView>::empty());
        assert(simple.deep_view() =~= Seq::<Seq<char>>::empty());
        assert(structured.deep_view() =~= Seq::<DeclView>::empty());
    }
    while i < n
        invariant
            0 <= i <= n,
            n == ds@.len(),
            simple.deep_view() == simple_entries(ds.deep_view().subrange(0, i as int)),
            structured.deep_view() == structured_entries(ds.deep_view().subrange(0, i as int)),
        decreases n - i,
    {
        let ghost pre = ds.deep_view().subrange(0, i as int);
        let ghost post = ds.deep_view().subrange(0, i + 1 as int);
        proof {
            assert(post.drop_last() =~= pre);
            assert(post.last() == ds.deep_view()[i as int]);
        }
        if is_simple_declaration(&ds[i]) {
            simple.push(encode_simple_entry(&ds[i]));
        } else {
            structured.push(Cask::from_declaration(&ds[i]));
        }
        proof {
            assert(simple.deep_view() =~= simple_entries(post));
            assert(structured.deep_view() =~= structured_entries(post));
        }
        i = i + 1;
    }
    proof {
        assert(ds.deep_view().subrange(0, n as int) =~= ds.deep_view());
    }
    (simple, structured)
}

/// Extract the names of structured tap entries.
fn taps_to_strings(ts: &Vec<Tap>) -> (r: Vec<String>)
    ensures
        r.deep_view() == ts.deep_view(),
{
    let n = ts.len();
    let mut r: Vec<String> = Vec::new();
    let mut i: usize = 0;
    while i < n
        invariant
            0 <= i <= n,
            n == ts@.len(),
            r@.len() == i,
            forall|j: int| 0 <= j < i ==> #[trigger] r@[j]@ == ts@[j]@,
        decreases n - i,
    {
        r.push(ts[i].name.clone());
        i = i + 1;
    }
    proof {
        assert(r.deep_view() =~= ts.deep_view());
    }
    r
}

/// Convert structured formula entries into declarations.
fn formulas_to_declarations(fs: &Vec<Formula>) -> (r: Vec<PackageDeclaration>)
    ensures
        r.deep_view() == fs.deep_view(),
{
    let n = fs.len();
    let mut r: Vec<PackageDeclaration> = Vec::new();
    let mut i: usize = 0;
    while i < n
        invariant
            0 <= i <= n,
            n == fs@.len(),
            r@.len() == i,
            forall|j: int| 0 <= j < i ==> #[trigger] r@[j]@ == fs@[j]@,
        decreases n - i,
    {
        r.push(fs[i].to_declaration());
        i = i + 1;
    }
    proof {
        assert(r.deep_view() =~= fs.deep_view());
    }
    r
}

/// A valid package name holds no colon, so the simplified encoding can
/// always find the version separator again.
proof fn lemma_valid_name_colon_free(n: Seq<char>)
    requires
        valid_package_name(n),
    ensures
        colon_free(n),
{
    assert forall|i: int| 0 <= i < n.len() implies n[i] != ':' by {
        if i == 0 {
            assert(is_name_start_char(n[0]));
            assert((':' as u32) == 58);
        } else {
            assert(is_name_char(n[i]));
            assert((':' as u32) == 58);
        }
    }
}

/// Decoding inverts encoding on every simple declaration with a valid
/// name.
proof fn lemma_decode_encode(d: DeclView)
    requires
        valid_package_name(d.name),
        is_simple(d),
    ensures
        decode_entry(encode_entry(d)) == d,
{
    lemma_valid_name_colon_free(d.name);
    if d.version == "latest"@ {
        let s = encode_entry(d);
        assert(s == d.name);
        if has_colon_split(s) {
            let p = the_colon(s);
            assert(split_at_colon(s, p));
            assert(s[p] == ':');
        }
        assert(decode_entry(s) =~= d);
    } else {
        reveal_strlit(":");
        let s = encode_entry(d);
        let n = d.name.len() as int;
        assert(":"@.len() == 1);
        assert(":"@[0] == ':');
        assert(s == d.name + ":"@ + d.version);
        assert(s.len() == n + 1 + d.version.len());
        assert(s[n] == ':');
        assert(s.subrange(0, n) =~= d.name);
        assert(colon_free(s.subrange(0, n)));
        assert(split_at_colon(s, n));
        let p = the_colon(s);
        assert(split_at_colon(s, p));
        if p < n {
            assert(s[p] == d.name[p]);
        } else if p > n {
            assert(s.subrange(0, p)[n] == ':');
        }
        assert(p == n);
        assert(decoded_name(s) =~= d.name);
        assert(s.subrange(n + 1, s.len() as int) =~= d.version);
        assert(decode_entry(s) =~= d);
    }
}

/// The declarations each simplified entry of a list stands for.
pub open spec fn decodes(ss: Seq<Seq<char>>) -> Seq<DeclView> {
    Seq::new(ss.len(), |i: int| decode_entry(ss[i]))
}

/// Adding structured entries whose names are pairwise fresh appends them
/// all.
proof fn lemma_add_structured_fresh(acc: Seq<DeclView>, ds: Seq<DeclView>)
    requires
        decl_names_unique(ds),
        forall|i: int| 0 <= i < ds.len() ==> !decls_contain_name(acc, #[trigger] ds[i].name),
    ensures
        add_structured(acc, ds) == acc + ds,
    decreases ds.len(),
{
    if ds.len() == 0 {
        assert(add_structured(acc, ds) =~= acc + ds);
    } else {
        let prefix = ds.drop_last();
        assert(decl_names_unique(prefix)) by {
            assert(forall|a: int, b: int|
                0 <= a < b < prefix.len() ==> prefix[a] == ds[a] && prefix[b] == ds[b]);
        }
        assert(forall|i: int|
            0 <= i < prefix.len() ==> !decls_contain_name(acc, #[trigger] prefix[i].name)) by {
            assert(forall|i: int| 0 <= i < prefix.len() ==> prefix[i] == ds[i]);
        }
        lemma_add_structured_fresh(acc, prefix);
        let d = ds.last();
        assert(!decls_contain_name(acc + prefix, d.name)) by {
            if decls_contain_name(acc + prefix, d.name) {
                let j = choose|j: int|
                    0 <= j < (acc + prefix).len() && #[trigger] (acc + prefix)[j].name == d.name;
                if j < acc.len() {
                    assert(acc[j].name == d.name);
                    assert(decls_contain_name(acc, ds[ds.len() - 1].name));
                } else {
                    assert(prefix[j - acc.len()].name == d.name);
                    assert(ds[j - acc.len()].name == ds[ds.len() - 1].name);
                }
            }
        }
        assert(add_structured(acc, ds) =~= acc + ds);
    }
}

/// Adding simplified entries whose decoded names are pairwise fresh
/// appends all their declarations.
proof fn lemma_add_simplified_fresh(acc: Seq<DeclView>, ss: Seq<Seq<char>>)
    requires
        forall|i: int, j: int|
            0 <= i < j < ss.len() ==> decode_entry(#[trigger] ss[i]).name != decode_entry(
                #[trigger] ss[j],
            ).name,
        forall|i: int|
            0 <= i < ss.len() ==> !decls_contain_name(acc, decode_entry(#[trigger] ss[i]).name),
    ensures
        add_simplified(acc, ss) == acc + decodes(ss),
    decreases ss.len(),
{
    if ss.len() == 0 {
        assert(decodes(ss) =~= Seq::<DeclView>::empty());
        assert(add_simplified(acc, ss) =~= acc + decodes(ss));
    } else {
        let prefix = ss.drop_last();
        assert(forall|i: int| 0 <= i < prefix.len() ==> prefix[i] == ss[i]);
        lemma_add_simplified_fresh(acc, prefix);
        let d = decode_entry(ss.last());
        assert(d == decode_entry(ss[ss.len() - 1]));
        assert(!decls_contain_name(acc + decodes(prefix), d.name)) by {
            if decls_contain_name(acc + decodes(prefix), d.name) {
                let j = choose|j: int|
                    0 <= j < (acc + decodes(prefix)).len() && #[trigger] (acc + decodes(
                        prefix,
                    ))[j].name == d.name;
                if j < acc.len() {
                    assert(acc[j].name == d.name);
                    assert(decls_contain_name(acc, decode_entry(ss[ss.len() - 1]).name));
                } else {
                    let k = j - acc.len();
                    assert(decodes(prefix)[k] == decode_entry(prefix[k]));
                    assert(decode_entry(ss[k]).name == decode_entry(ss[ss.len() - 1]).name);
                }
            }
        }
        assert(add_simplified(acc, ss) =~= acc + decodes(ss));
    }
}

/// Decoding the simplified entries of a list gives back exactly its simple
/// declarations.
proof fn lemma_decodes_simple_entries(s: Seq<DeclView>)
    requires
        forall|i: int| 0 <= i < s.len() ==> valid_package_name(#[trigger] s[i].name),
    ensures
        decodes(simple_entries(s)) == simple_decls(s),
    decreases s.len(),
{
    if s.len() == 0 {
        assert(decodes(simple_entries(s)) =~= simple_decls(s));
    } else {
        let prefix = s.drop_last();
        assert(forall|i: int| 0 <= i < prefix.len() ==> prefix[i] == s[i]);
        lemma_decodes_simple_entries(prefix);
        if is_simple(s.last()) {
            lemma_decode_encode(s.last());
            assert(decodes(simple_entries(s)) =~= decodes(simple_entries(prefix)).push(
                decode_entry(encode_entry(s.last())),
            ));
            assert(decodes(simple_entries(s)) =~= simple_decls(s));
        } else {
            assert(decodes(simple_entries(s)) =~= simple_decls(s));
        }
    }
}

/// Which declarations the two halves of a serialized list hold: exactly
/// the non-simple and the simple ones.
proof fn lemma_entries_membership(s: Seq<DeclView>)
    ensures
        forall|d: DeclView|
            #![trigger structured_entries(s).contains(d)]
            #![trigger s.contains(d)]
            structured_entries(s).contains(d) <==> (s.contains(d) && !is_simple(d)),
        forall|d: DeclView|
            #![trigger simple_decls(s).contains(d)]
            #![trigger s.contains(d)]
            simple_decls(s).contains(d) <==> (s.contains(d) && is_simple(d)),
    decreases s.len(),
{
    if s.len() == 0 {
        assert forall|d: DeclView| !s.contains(d) by {
            if s.contains(d) {
                let i = choose|i: int| 0 <= i < s.len() && s[i] == d;
            }
        }
        assert forall|d: DeclView| !structured_entries(s).contains(d) by {
            if structured_entries(s).contains(d) {
                let i = choose|i: int|
                    0 <= i < structured_entries(s).len() && structured_entries(s)[i] == d;
            }
        }
        assert forall|d: DeclView| !simple_decls(s).contains(d) by {
            if simple_decls(s).contains(d) {
                let i = choose|i: int| 0 <= i < simple_decls(s).len() && simple_decls(s)[i] == d;
            }
        }
    } else {
        let prefix = s.drop_last();
        assert(forall|i: int| 0 <= i < prefix.len() ==> prefix[i] == s[i]);
        lemma_entries_membership(prefix);
        let st = structured_entries(s);
        let sd = simple_decls(s);
        assert forall|d: DeclView|
            #![trigger st.contains(d)]
            #![trigger s.contains(d)]
            st.contains(d) <==> (s.contains(d) && !is_simple(d)) by {
            if st.contains(d) {
                let j = choose|j: int| 0 <= j < st.len() && st[j] == d;
                if !is_simple(s.last()) && j == st.len() - 1 {
                    assert(d == s.last());
                    assert(s[s.len() - 1] == d);
                    assert(s.contains(d));
                } else {
                    assert(structured_entries(prefix)[j] == d);
                    assert(structured_entries(prefix).contains(d));
                    let i = choose|i: int| 0 <= i < prefix.len() && prefix[i] == d;
                    assert(s[i] == d);
                    assert(s.contains(d));
                }
            }
            if s.contains(d) && !is_simple(d) {
                let i = choose|i: int| 0 <= i < s.len() && s[i] == d;
                if i < s.len() - 1 {
                    assert(prefix[i] == d);
                    assert(prefix.contains(d));
                    assert(structured_entries(prefix).contains(d));
                    let j = choose|j: int|
                        0 <= j < structured_entries(prefix).len() && structured_entries(
                            prefix,
                        )[j] == d;
                    assert(st[j] == d);
                    assert(st.contains(d));
                } else {
                    assert(d == s.last());
                    assert(st[st.len() - 1] == d);
                    assert(st.contains(d));
                }
            }
        }
        assert forall|d: DeclView|
            #![trigger sd.contains(d)]
            #![trigger s.contains(d)]
            sd.contains(d) <==> (s.contains(d) && is_simple(d)) by {
            if sd.contains(d) {
                let j = choose|j: int| 0 <= j < sd.len() && sd[j] == d;
                if is_simple(s.last()) && j == sd.len() - 1 {
                    assert(d == s.last());
                    assert(s[s.len() - 1] == d);
                    assert(s.contains(d));
                } else {
                    assert(simple_decls(prefix)[j] == d);
                    assert(simple_decls(prefix).contains(d));
                    let i = choose|i: int| 0 <= i < prefix.len() && prefix[i] == d;
                    assert(s[i] == d);
                    assert(s.contains(d));
                }
            }
            if s.contains(d) && is_simple(d) {
                let i = choose|i: int| 0 <= i < s.len() && s[i] == d;
                if i < s.len() - 1 {
                    assert(prefix[i] == d);
                    assert(prefix.contains(d));
                    assert(simple_decls(prefix).contains(d));
                    let j = choose|j: int|
                        0 <= j < simple_decls(prefix).len() && simple_decls(prefix)[j] == d;
                    assert(sd[j] == d);
                    assert(sd.contains(d));
                } else {
                    assert(d == s.last());
                    assert(sd[sd.len() - 1] == d);
                    assert(sd.contains(d));
                }
            }
        }
    }
}

/// The names of the two halves of a serialized list: unique within each
/// half, present in the source, and split by simplicity.
proof fn lemma_entries_names(s: Seq<DeclView>)
    requires
        decl_names_unique(s),
    ensures
        decl_names_unique(structured_entries(s)),
        decl_names_unique(simple_decls(s)),
        forall|n: Seq<char>|
            #![trigger decls_contain_name(structured_entries(s), n)]
            decls_contain_name(structured_entries(s), n) <==> exists|i: int|
                0 <= i < s.len() && #[trigger] s[i].name == n && !is_simple(s[i]),
        forall|n: Seq<char>|
            #![trigger decls_contain_name(simple_decls(s), n)]
            decls_contain_name(simple_decls(s), n) <==> exists|i: int|
                0 <= i < s.len() && #[trigger] s[i].name == n && is_simple(s[i]),
    decreases s.len(),
{
    if s.len() == 0 {
    } else {
        let prefix = s.drop_last();
        assert(forall|i: int| 0 <= i < prefix.len() ==> prefix[i] == s[i]);
        assert(decl_names_unique(prefix));
        lemma_entries_names(prefix);
        let st = structured_entries(s);
        let sd = simple_decls(s);
        let last = s.last();
        // The final declaration's name is fresh among the prefix halves.
        assert(!decls_contain_name(structured_entries(prefix), last.name)) by {
            if decls_contain_name(structured_entries(prefix), last.name) {
                let i = choose|i: int|
                    0 <= i < prefix.len() && #[trigger] prefix[i].name == last.name && !is_simple(
                        prefix[i],
                    );
                assert(s[i].name == s[s.len() - 1].name);
            }
        }
        assert(!decls_contain_name(simple_decls(prefix), last.name)) by {
            if decls_contain_name(simple_decls(prefix), last.name) {
                let i = choose|i: int|
                    0 <= i < prefix.len() && #[trigger] prefix[i].name == last.name && is_simple(
                        prefix[i],
                    );
                assert(s[i].name == s[s.len() - 1].name);
            }
        }
        assert(decl_names_unique(st)) by {
            if !is_simple(last) {
                assert forall|a: int, b: int|
                    0 <= a < b < st.len() implies #[trigger] st[a].name != #[trigger] st[b].name by {
                    if b == st.len() - 1 {
                        assert(st[a] == structured_entries(prefix)[a]);
                        assert(decls_contain_name(structured_entries(prefix), st[a].name));
                    } else {
                        assert(st[a] == structured_entries(prefix)[a]);
                        assert(st[b] == structured_entries(prefix)[b]);
                    }
                }
            }
        }
        assert(decl_names_unique(sd)) by {
            if is_simple(last) {
                assert forall|a: int, b: int|
                    0 <= a < b < sd.len() implies #[trigger] sd[a].name != #[trigger] sd[b].name by {
                    if b == sd.len() - 1 {
                        assert(sd[a] == simple_decls(prefix)[a]);
                        assert(decls_contain_name(simple_decls(prefix), sd[a].name));
                    } else {
                        assert(sd[a] == simple_decls(prefix)[a]);
                        assert(sd[b] == simple_decls(prefix)[b]);
                    }
                }
            }
        }
        assert forall|n: Seq<char>|
            decls_contain_name(st, n) <==> exists|i: int|
                0 <= i < s.len() && #[trigger] s[i].name == n && !is_simple(s[i]) by {
            if decls_contain_name(st, n) {
                let j = choose|j: int| 0 <= j < st.len() && #[trigger] st[j].name == n;
                if !is_simple(last) && j == st.len() - 1 {
                    assert(s[s.len() - 1].name == n && !is_simple(s[s.len() - 1]));
                } else {
                    assert(st[j] == structured_entries(prefix)[j]);
                    assert(decls_contain_name(structured_entries(prefix), n));
                    let i = choose|i: int|
                        0 <= i < prefix.len() && #[trigger] prefix[i].name == n && !is_simple(
                            prefix[i],
                        );
                    assert(s[i].name == n && !is_simple(s[i]));
                }
            }
            if exists|i: int| 0 <= i < s.len() && #[trigger] s[i].name == n && !is_simple(s[i]) {
                let i = choose|i: int|
                    0 <= i < s.len() && #[trigger] s[i].name == n && !is_simple(s[i]);
                if i < s.len() - 1 {
                    assert(prefix[i].name == n && !is_simple(prefix[i]));
                    assert(decls_contain_name(structured_entries(prefix), n));
                    let j = choose|j: int|
                        0 <= j < structured_entries(prefix).len() && #[trigger] structured_entries(
                            prefix,
                        )[j].name == n;
                    assert(st[j].name == n);
                } else {
                    assert(st[st.len() - 1].name == n);
                }
            }
        }
        assert forall|n: Seq<char>|
            decls_contain_name(sd, n) <==> exists|i: int|
                0 <= i < s.len() && #[trigger] s[i].name == n && is_simple(s[i]) by {
            if decls_contain_name(sd, n) {
                let j = choose|j: int| 0 <= j < sd.len() && #[trigger] sd[j].name == n;
                if is_simple(last) && j == sd.len() - 1 {
                    assert(s[s.len() - 1].name == n && is_simple(s[s.len() - 1]));
                } else {
                    assert(sd[j] == simple_decls(prefix)[j]);
                    assert(decls_contain_name(simple_decls(prefix), n));
                    let i = choose|i: int|
                        0 <= i < prefix.len() && #[trigger] prefix[i].name == n && is_simple(
                            prefix[i],
                        );
                    assert(s[i].name == n && is_simple(s[i]));
                }
            }
            if exists|i: int| 0 <= i < s.len() && #[trigger] s[i].name == n && is_simple(s[i]) {
                let i = choose|i: int|
                    0 <= i < s.len() && #[trigger] s[i].name == n && is_simple(s[i]);
                if i < s.len() - 1 {
                    assert(prefix[i].name == n && is_simple(prefix[i]));
                    assert(decls_contain_name(simple_decls(prefix), n));
                    let j = choose|j: int|
                        0 <= j < simple_decls(prefix).len() && #[trigger] simple_decls(
                            prefix,
                        )[j].name == n;
                    assert(sd[j].name == n);
                } else {
                    assert(sd[sd.len() - 1].name == n);
                }
            }
        }
    }
}

/// Normalizing the two serialized halves of a well-formed declaration list
/// rebuilds it, structured declarations first.
proof fn lemma_roundtrip_decls(s: Seq<DeclView>)
    requires
        decl_names_unique(s),
        forall|i: int| 0 <= i < s.len() ==> valid_package_name(#[trigger] s[i].name),
    ensures
        add_simplified(add_structured(Seq::empty(), structured_entries(s)), simple_entries(s))
            == structured_entries(s) + simple_decls(s),
{
    let st = structured_entries(s);
    let sd = simple_decls(s);
    let se = simple_entries(s);
    lemma_entries_names(s);
    lemma_decodes_simple_entries(s);
    assert(forall|i: int| 0 <= i < st.len() ==> !decls_contain_name(Seq::empty(), #[trigger] st[
        i].name)) by {
        assert forall|i: int|
            0 <= i < st.len() implies !decls_contain_name(
            Seq::<DeclView>::empty(),
            #[trigger] st[i].name,
        ) by {
            if decls_contain_name(Seq::<DeclView>::empty(), st[i].name) {
                let j = choose|j: int|
                    0 <= j < Seq::<DeclView>::empty().len() && #[trigger] Seq::<
                        DeclView,
                    >::empty()[j].name == st[i].name;
            }
        }
    }
    lemma_add_structured_fresh(Seq::empty(), st);
    assert(add_structured(Seq::empty(), st) =~= st);
    // The decoded simplified entries are exactly the simple declarations,
    // whose names are fresh with respect to the structured half.
    assert(decodes(se) == sd);
    assert(forall|k: int| 0 <= k < se.len() ==> #[trigger] decode_entry(se[k]) == sd[k]) by {
        assert(forall|k: int| 0 <= k < se.len() ==> decodes(se)[k] == #[trigger] decode_entry(
            se[k],
        ));
    }
    assert forall|i: int, j: int|
        0 <= i < j < se.len() implies decode_entry(#[trigger] se[i]).name != decode_entry(
        #[trigger] se[j],
    ).name by {
        assert(decode_entry(se[i]) == sd[i]);
        assert(decode_entry(se[j]) == sd[j]);
    }
    assert forall|i: int|
        0 <= i < se.len() implies !decls_contain_name(st, decode_entry(#[trigger] se[i]).name) by {
        assert(decode_entry(se[i]) == sd[i]);
        if decls_contain_name(st, sd[i].name) {
            let a = choose|a: int|
                0 <= a < s.len() && #[trigger] s[a].name == sd[i].name && !is_simple(s[a]);
            assert(decls_contain_name(sd, sd[i].name));
            let b = choose|b: int|
                0 <= b < s.len() && #[trigger] s[b].name == sd[i].name && is_simple(s[b]);
            assert(a != b);
            if a < b {
                assert(s[a].name != s[b].name);
            } else {
                assert(s[b].name != s[a].name);
            }
        }
    }
    lemma_add_simplified_fresh(st, se);
}

/// Serializing a well-formed manifest and normalizing the document again
/// preserves the taps, the metadata, and the declaration sets of both
/// kinds.
pub proof fn lemma_parse_serialize_roundtrip(m: ManifestView)
    requires
        manifest_wf(m),
    ensures
        normalized(serialized(m)).taps == m.taps,
        normalized(serialized(m)).metadata == m.metadata,
        forall|d: DeclView|
            #![trigger normalized(serialized(m)).formulas.contains(d)]
            #![trigger m.formulas.contains(d)]
            normalized(serialized(m)).formulas.contains(d) <==> m.formulas.contains(d),
        forall|d: DeclView|
            #![trigger normalized(serialized(m)).casks.contains(d)]
            #![trigger m.casks.contains(d)]
            normalized(serialized(m)).casks.contains(d) <==> m.casks.contains(d),
{
    let p = normalized(serialized(m));
    // Taps: re-merging a duplicate-free list gives it back; the second
    // merge adds nothing.
    crate::merge::lemma_merge_taps_reabsorb(m.taps);
    assert(p.taps == merge_taps(merge_taps(Seq::empty(), m.taps), Seq::empty()));
    assert(merge_taps(merge_taps(Seq::empty(), m.taps), Seq::<Seq<char>>::empty()) == merge_taps(
        Seq::empty(),
        m.taps,
    ));
    // Formulae.
    lemma_roundtrip_decls(m.formulas);
    lemma_entries_membership(m.formulas);
    assert(p.formulas == structured_entries(m.formulas) + simple_decls(m.formulas));
    assert forall|d: DeclView| p.formulas.contains(d) <==> m.formulas.contains(d) by {
        let st = structured_entries(m.formulas);
        let sd = simple_decls(m.formulas);
        if p.formulas.contains(d) {
            let j = choose|j: int| 0 <= j < p.formulas.len() && p.formulas[j] == d;
            if j < st.len() {
                assert(st[j] == d);
                assert(st.contains(d));
            } else {
                assert(sd[j - st.len()] == d);
                assert(sd.contains(d));
            }
        }
        if m.formulas.contains(d) {
            if is_simple(d) {
                assert(sd.contains(d));
                let j = choose|j: int| 0 <= j < sd.len() && sd[j] == d;
                assert(p.formulas[st.len() + j] == d);
                assert(p.formulas.contains(d));
            } else {
                assert(st.contains(d));
                let j = choose|j: int| 0 <= j < st.len() && st[j] == d;
                assert(p.formulas[j] == d);
                assert(p.formulas.contains(d));
            }
        }
    }
    // Casks: the same argument, with an extra no-op pass for the empty
    // legacy list.
    lemma_roundtrip_decls(m.casks);
    lemma_entries_membership(m.casks);
    assert(p.casks == add_simplified(
        add_simplified(add_structured(Seq::empty(), structured_entries(m.casks)), simple_entries(
            m.casks,
        )),
        Seq::empty(),
    ));
    assert(p.casks == structured_entries(m.casks) + simple_decls(m.casks));
    assert forall|d: DeclView| p.casks.contains(d) <==> m.casks.contains(d) by {
        let st = structured_entries(m.casks);
        let sd = simple_decls(m.casks);
        if p.casks.contains(d) {
            let j = choose|j: int| 0 <= j < p.casks.len() && p.casks[j] == d;
            if j < st.len() {
                assert(st[j] == d);
                assert(st.contains(d));
            } else {
                assert(sd[j - st.len()] == d);
                assert(sd.contains(d));
            }
        }
        if m.casks.contains(d) {
            if is_simple(d) {
                assert(sd.contains(d));
                let j = choose|j: int| 0 <= j < sd.len() && sd[j] == d;
                assert(p.casks[st.len() + j] == d);
                assert(p.casks.contains(d));
            } else {
                assert(st.contains(d));
                let j = choose|j: int| 0 <= j < st.len() && st[j] == d;
                assert(p.casks[j] == d);
                assert(p.casks.contains(d));
            }
        }
    }
}

/// Adding structured entries keeps declared names unique.
proof fn lemma_add_structured_unique(acc: Seq<DeclView>, ds: Seq<DeclView>)
    requires
        decl_names_unique(acc),
    ensures
        decl_names_unique(add_structured(acc, ds)),
    decreases ds.len(),
{
    if ds.len() == 0 {
    } else {
        lemma_add_structured_unique(acc, ds.drop_last());
        let prev = add_structured(acc, ds.drop_last());
        let d = ds.last();
        if !decls_contain_name(prev, d.name) {
            let out = prev.push(d);
            assert forall|a: int, b: int|
                0 <= a < b < out.len() implies #[trigger] out[a].name != #[trigger] out[b].name by {
                if b == out.len() - 1 {
                    assert(out[a] == prev[a]);
                    assert(decls_contain_name(prev, prev[a].name));
                } else {
                    assert(out[a] == prev[a] && out[b] == prev[b]);
                }
            }
        }
    }
}

/// Adding simplified entries keeps declared names unique.
proof fn lemma_add_simplified_unique(acc: Seq<DeclView>, ss: Seq<Seq<char>>)
    requires
        decl_names_unique(acc),
    ensures
        decl_names_unique(add_simplified(acc, ss)),
    decreases ss.len(),
{
    if ss.len() == 0 {
    } else {
        lemma_add_simplified_unique(acc, ss.drop_last());
        let prev = add_simplified(acc, ss.drop_last());
        let d = decode_entry(ss.last());
        if !decls_contain_name(prev, d.name) {
            let out = prev.push(d);
            assert forall|a: int, b: int|
                0 <= a < b < out.len() implies #[trigger] out[a].name != #[trigger] out[b].name by {
                if b == out.len() - 1 {
                    assert(out[a] == prev[a]);
                    assert(decls_contain_name(prev, prev[a].name));
                } else {
                    assert(out[a] == prev[a] && out[b] == prev[b]);
                }
            }
        }
    }
}

/// Whatever document is normalized, the result declares every tap and
/// every package name at most once.
pub proof fn lemma_normalized_unique(d: RawDocumentView)
    ensures
        tap_names_unique(normalized(d).taps),
        decl_names_unique(normalized(d).formulas),
        decl_names_unique(normalized(d).casks),
{
    crate::merge::lemma_merge_taps_canonical(Seq::empty(), d.taps);
    crate::merge::lemma_merge_taps_canonical(merge_taps(Seq::empty(), d.taps), d.taps_structured);
    lemma_add_structured_unique(Seq::empty(), d.formulas);
    lemma_add_simplified_unique(add_structured(Seq::empty(), d.formulas), d.formulae);
    lemma_add_structured_unique(Seq::empty(), d.casks_structured);
    lemma_add_simplified_unique(add_structured(Seq::empty(), d.casks_structured), d.casks);
    lemma_add_simplified_unique(
        add_simplified(add_structured(Seq::empty(), d.casks_structured), d.casks),
        d.brews,
    );
}

/// Convert structured cask entries into declarations.
fn casks_to_declarations(cs: &Vec<Cask>) -> (r: Vec<PackageDeclaration>)
    ensures
        r.deep_view() == cs.deep_view(),
{
    let n = cs.len();
    let mut r: Vec<PackageDeclaration> = Vec::new();
    let mut i: usize = 0;
    while i < n
        invariant
            0 <= i <= n,
            n == cs@.len(),
            r@.len() == i,
            forall|j: int| 0 <= j < i ==> #[trigger] r@[j]@ == cs@[j]@,
        decreases n - i,
    {
        r.push(cs[i].to_declaration());
        i = i + 1;
    }
    proof {
        assert(r.deep_view() =~= cs.deep_view());
    }
    r
}

} // verus!
