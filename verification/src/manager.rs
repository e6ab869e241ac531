//! The shard lifecycle manager: create, disable, enable and delete named
//! manifest files, with protection checks and backup-before-destroy.
//!
//! The manager holds the shard registry in memory; every mutation updates
//! the registry and returns the ordered filesystem actions that realize
//! it.  A backup action always precedes the destructive action it guards,
//! and the application must stop the sequence if the backup fails.

use vstd::prelude::*;

use crate::error::{ShardError, ShardResult};
use crate::manifest::{Manifest, ManifestView, MetadataView, user_allowed};
use crate::util::{clone_string_vec, seq_contains_str, str_eq, vec_contains_str};

verus! {

/// Where a shard currently stands.
#[derive(Debug, Clone, Copy, PartialEq, Eq, Structural)]
pub enum ShardStatus {
    /// The shard is active and applied by merged passes.
    Active,
    /// The shard is parked in the disabled directory.
    Disabled,
    /// No shard of that name exists.
    NotFound,
}

/// Everything known about one shard.
#[derive(Debug)]
pub struct ShardInfo {
    /// Name of the shard.
    pub name: String,
    /// Path of its manifest file.
    pub path: String,
    /// Current status.
    pub status: ShardStatus,
    /// The manifest, where one could be loaded.
    pub manifest: Option<Manifest>,
}

/// Mathematical image of a `ShardInfo`.
#[verifier::ext_equal]
pub ghost struct ShardInfoView {
    pub name: Seq<char>,
    pub path: Seq<char>,
    pub status: ShardStatus,
    pub manifest: Option<ManifestView>,
}

impl View for ShardInfo {
    type V = ShardInfoView;

    open spec fn view(&self) -> ShardInfoView {
        ShardInfoView {
            name: self.name@,
            path: self.path@,
            status: self.status,
            manifest: match self.manifest {
                Some(m) => Some(m@),
                None => None,
            },
        }
    }
}

/// One registered shard: its name and its manifest.
#[derive(Debug)]
pub struct ShardEntry {
    /// Name of the shard.
    pub name: String,
    /// Its manifest.
    pub manifest: Manifest,
}

/// Mathematical image of a `ShardEntry`.
#[verifier::ext_equal]
pub ghost struct EntryView {
    pub name: Seq<char>,
    pub manifest: ManifestView,
}

impl View for ShardEntry {
    type V = EntryView;

    open spec fn view(&self) -> EntryView {
        EntryView { name: self.name@, manifest: self.manifest@ }
    }
}

impl DeepView for ShardEntry {
    type V = EntryView;

    open spec fn deep_view(&self) -> EntryView {
        self.view()
    }
}

/// One filesystem step of a lifecycle mutation, to be performed in order
/// by the application.  When a `Backup` fails, nothing after it may run:
/// the backup guards the destructive step behind it.
#[derive(Debug)]
pub enum FsAction {
    /// Copy the file at `source` into the backup directory under a
    /// timestamped name derived from `name`.
    Backup { source: String, name: String },
    /// Serialize `manifest` and write it at `path`.
    WriteManifest { path: String, manifest: Manifest },
    /// Move a file.
    Rename { from: String, to: String },
    /// Delete a file.
    Remove { path: String },
}

/// Mathematical image of an `FsAction`.
#[verifier::ext_equal]
pub ghost enum FsActionView {
    Backup { source: Seq<char>, name: Seq<char> },
    WriteManifest { path: Seq<char>, manifest: ManifestView },
    Rename { from: Seq<char>, to: Seq<char> },
    Remove { path: Seq<char> },
}

impl View for FsAction {
    type V = FsActionView;

    open spec fn view(&self) -> FsActionView {
        match self {
            FsAction::Backup { source, name } => FsActionView::Backup {
                source: source@,
                name: name@,
            },
            FsAction::WriteManifest { path, manifest } => FsActionView::WriteManifest {
                path: path@,
                manifest: manifest@,
            },
            FsAction::Rename { from, to } => FsActionView::Rename { from: from@, to: to@ },
            FsAction::Remove { path } => FsActionView::Remove { path: path@ },
        }
    }
}

impl DeepView for FsAction {
    type V = FsActionView;

    open spec fn deep_view(&self) -> FsActionView {
        self.view()
    }
}

/// A character a shard name may hold: ASCII letters, digits, `_`, `-`.
pub open spec fn is_shard_name_char(c: char) -> bool {
    let x = c as u32;
    (48 <= x <= 57) || (65 <= x <= 90) || (97 <= x <= 122) || x == 95 || x == 45
}

/// A valid shard name: non-empty, made of shard-name characters only.
pub open spec fn valid_shard_name(s: Seq<char>) -> bool {
    &&& s.len() > 0
    &&& forall|i: int| 0 <= i < s.len() ==> is_shard_name_char(#[trigger] s[i])
}

/// Decide whether a shard name is valid.
pub fn is_valid_shard_name(name: &str) -> (r: bool)
    ensures
        r == valid_shard_name(name@),
{
    let n = name.unicode_len();
    if n == 0 {
        return false;
    }
    let mut i: usize = 0;
    while i < n
        invariant
            0 <= i <= n,
            n == name@.len(),
            forall|j: int| 0 <= j < i ==> is_shard_name_char(#[trigger] name@[j]),
        decreases n - i,
    {
        let c = name.get_char(i);
        let x = c as u32;
        if !((48 <= x && x <= 57) || (65 <= x && x <= 90) || (97 <= x && x <= 122) || x == 95 || x
            == 45) {
            return false;
        }
        i = i + 1;
    }
    true
}

/// The registry holds an entry of that name.
pub open spec fn entries_contain(s: Seq<EntryView>, name: Seq<char>) -> bool {
    exists|i: int| 0 <= i < s.len() && #[trigger] s[i].name == name
}

/// Index of the entry of that name (meaningful when present and unique).
pub open spec fn entry_index(s: Seq<EntryView>, name: Seq<char>) -> int {
    choose|i: int| 0 <= i < s.len() && #[trigger] s[i].name == name
}

/// The entry of that name (meaningful when present and unique).
pub open spec fn entry_named(s: Seq<EntryView>, name: Seq<char>) -> EntryView {
    s[entry_index(s, name)]
}

/// Entry names are pairwise distinct.
pub open spec fn entry_names_unique(s: Seq<EntryView>) -> bool {
    forall|i: int, j: int| 0 <= i < j < s.len() ==> #[trigger] s[i].name != #[trigger] s[j].name
}

/// The manager: configuration plus the in-memory registry of active,
/// disabled and backed-up shards.
#[derive(Debug)]
pub struct ShardManager {
    /// Directory of active shard files.
    pub shards_dir: String,
    /// Directory of disabled shard files.
    pub disabled_dir: String,
    /// Directory of backups.
    pub backups_dir: String,
    /// Names that are protected whatever their manifests say.
    pub protected_shards: Vec<String>,
    /// The acting user, for permission checks.
    pub current_user: String,
    /// Active shards.
    pub active: Vec<ShardEntry>,
    /// Disabled shards.
    pub disabled: Vec<ShardEntry>,
    /// Backups taken this session, retained indefinitely.
    pub backups: Vec<ShardEntry>,
}

/// Mathematical image of a `ShardManager`.
#[verifier::ext_equal]
pub ghost struct ManagerView {
    pub shards_dir: Seq<char>,
    pub disabled_dir: Seq<char>,
    pub backups_dir: Seq<char>,
    pub protected_shards: Seq<Seq<char>>,
    pub current_user: Seq<char>,
    pub active: Seq<EntryView>,
    pub disabled: Seq<EntryView>,
    pub backups: Seq<EntryView>,
}

impl View for ShardManager {
    type V = ManagerView;

    open spec fn view(&self) -> ManagerView {
        ManagerView {
            shards_dir: self.shards_dir@,
            disabled_dir: self.disabled_dir@,
            backups_dir: self.backups_dir@,
            protected_shards: self.protected_shards.deep_view(),
            current_user: self.current_user@,
            active: self.active.deep_view(),
            disabled: self.disabled.deep_view(),
            backups: self.backups.deep_view(),
        }
    }
}

/// The registry is well formed: one entry per name within each store.
pub open spec fn manager_wf(m: ManagerView) -> bool {
    &&& entry_names_unique(m.active)
    &&& entry_names_unique(m.disabled)
}

/// A shard is protected when its name is on the hard-coded list, or when
/// its manifest (active first, else disabled) says so.
pub open spec fn is_protected_spec(m: ManagerView, name: Seq<char>) -> bool {
    ||| m.protected_shards.contains(name)
    ||| (entries_contain(m.active, name) && entry_named(m.active, name).manifest.metadata.protected)
    ||| (!entries_contain(m.active, name) && entries_contain(m.disabled, name) && entry_named(
        m.disabled,
        name,
    ).manifest.metadata.protected)
}

/// Whether the acting user may modify the shard.  An unprotected shard
/// may be modified by anyone; a protected one — whether by its manifest's
/// metadata or by the hard-coded name list — only by a user on its
/// manifest's allowed list.  A hard-listed name with no registered
/// manifest has no allowed users, so nobody may modify it.
pub open spec fn can_modify_shard_spec(m: ManagerView, name: Seq<char>, user: Seq<char>) -> bool {
    if !is_protected_spec(m, name) {
        true
    } else if entries_contain(m.active, name) {
        user_allowed(entry_named(m.active, name).manifest.metadata, user)
    } else if entries_contain(m.disabled, name) {
        user_allowed(entry_named(m.disabled, name).manifest.metadata, user)
    } else {
        false
    }
}

/// The manifest a freshly created shard starts with: empty declaration
/// lists, the requested name and description, owned by the acting user,
/// unprotected.
pub open spec fn grown_manifest_view(name: Seq<char>, desc: Seq<char>, owner: Seq<char>) -> ManifestView {
    ManifestView {
        taps: Seq::empty(),
        formulas: Seq::empty(),
        casks: Seq::empty(),
        metadata: MetadataView {
            name: name,
            description: desc,
            owner: owner,
            protected: false,
            version: "0.1.0"@,
            allowed_users: Seq::empty(),
            protection_level: 0,
        },
    }
}

/// The status the registry assigns to a name.
pub open spec fn status_spec(m: ManagerView, name: Seq<char>) -> ShardStatus {
    if !valid_shard_name(name) {
        ShardStatus::NotFound
    } else if entries_contain(m.active, name) {
        ShardStatus::Active
    } else if entries_contain(m.disabled, name) {
        ShardStatus::Disabled
    } else {
        ShardStatus::NotFound
    }
}

/// Find the first entry of that name.
fn find_entry(v: &Vec<ShardEntry>, name: &str) -> (r: Option<usize>)
    ensures
        match r {
            Some(i) => i < v@.len() && v.deep_view()[i as int].name == name@,
            None => !entries_contain(v.deep_view(), name@),
        },
{
    let n = v.len();
    let mut i: usize = 0;
    while i < n
        invariant
            0 <= i <= n,
            n == v@.len(),
            forall|j: int| 0 <= j < i ==> #[trigger] v.deep_view()[j].name != name@,
        decreases n - i,
    {
        if str_eq(v[i].name.as_str(), name) {
            proof {
                assert(v.deep_view()[i as int].name == name@);
            }
            return Some(i);
        }
        i = i + 1;
    }
    proof {
        if entries_contain(v.deep_view(), name@) {
            let j = choose|j: int|
                0 <= j < v.deep_view().len() && #[trigger] v.deep_view()[j].name == name@;
        }
    }
    None
}

/// Join a directory, a shard name and the manifest suffix into a path.
fn shard_file_path(dir: &str, name: &str) -> (r: String)
    ensures
        r@ == dir@ + "/"@ + name@ + ".toml"@,
{
    let mut s = dir.to_owned();
    s.append("/");
    s.append(name);
    s.append(".toml");
    s
}

impl ShardManager {
    /// A manager over the given active and disabled directories, with the
    /// default backup directory, the default protected name, and no user.
    pub fn with_paths(shards_dir: String, disabled_dir: String) -> (r: ShardManager)
        ensures
            r@.shards_dir == shards_dir@,
            r@.disabled_dir == disabled_dir@,
            r@.backups_dir == "backups"@,
            r@.protected_shards =~= seq!["system"@],
            r@.current_user == "unknown"@,
            r@.active =~= Seq::<EntryView>::empty(),
            r@.disabled =~= Seq::<EntryView>::empty(),
            r@.backups =~= Seq::<EntryView>::empty(),
            manager_wf(r@),
    {
        let mut protected_shards: Vec<String> = Vec::new();
        protected_shards.push("system".to_owned());
        let r = ShardManager {
            shards_dir,
            disabled_dir,
            backups_dir: "backups".to_owned(),
            protected_shards,
            current_user: "unknown".to_owned(),
            active: Vec::new(),
            disabled: Vec::new(),
            backups: Vec::new(),
        };
        proof {
            assert(r@.protected_shards =~= seq!["system"@]);
            assert(r@.active =~= Seq::<EntryView>::empty());
            assert(r@.disabled =~= Seq::<EntryView>::empty());
            assert(r@.backups =~= Seq::<EntryView>::empty());
        }
        r
    }

    /// A manager over explicit active, disabled and backup directories.
    pub fn with_all_paths(shards_dir: String, disabled_dir: String, backups_dir: String) -> (r:
        ShardManager)
        ensures
            r@.shards_dir == shards_dir@,
            r@.disabled_dir == disabled_dir@,
            r@.backups_dir == backups_dir@,
            r@.protected_shards =~= seq!["system"@],
            r@.current_user == "unknown"@,
            r@.active =~= Seq::<EntryView>::empty(),
            r@.disabled =~= Seq::<EntryView>::empty(),
            r@.backups =~= Seq::<EntryView>::empty(),
            manager_wf(r@),
    {
        let mut r = ShardManager::with_paths(shards_dir, disabled_dir);
        r.backups_dir = backups_dir;
        r
    }

    /// The same manager acting as the given user.
    pub fn with_user(self, username: &str) -> (r: ShardManager)
        ensures
            r@ == (ManagerView { current_user: username@, ..self@ }),
    {
        let r = ShardManager { current_user: username.to_owned(), ..self };
        proof {
            assert(r@ =~= (ManagerView { current_user: username@, ..self@ }));
        }
        r
    }

    /// The same manager with another hard-protected name list.
    pub fn with_protected_shards(self, shards: Vec<String>) -> (r: ShardManager)
        ensures
            r@ == (ManagerView { protected_shards: shards.deep_view(), ..self@ }),
    {
        let r = ShardManager { protected_shards: shards, ..self };
        proof {
            assert(r@ =~= (ManagerView { protected_shards: r.protected_shards.deep_view(),
                ..self@ }));
        }
        r
    }

    /// An exact copy of the manager.
    pub fn clone(&self) -> (r: ShardManager)
        ensures
            r@ == self@,
    {
        let r = ShardManager {
            shards_dir: self.shards_dir.clone(),
            disabled_dir: self.disabled_dir.clone(),
            backups_dir: self.backups_dir.clone(),
            protected_shards: clone_string_vec(&self.protected_shards),
            current_user: self.current_user.clone(),
            active: clone_entries(&self.active),
            disabled: clone_entries(&self.disabled),
            backups: clone_entries(&self.backups),
        };
        proof {
            assert(r@ =~= self@);
        }
        r
    }

    /// Register an active shard loaded from disk.  Each file may be loaded
    /// once.
    pub fn load_shard(&mut self, name: String, manifest: Manifest)
        requires
            !entries_contain(old(self)@.active, name@),
        ensures
            final(self)@ == (ManagerView {
                active: old(self)@.active.push(EntryView { name: name@, manifest: manifest@ }),
                ..old(self)@
            }),
            manager_wf(old(self)@) ==> manager_wf(final(self)@),
    {
        let ghost nv = name@;
        let ghost mv = manifest@;
        let ghost before = self@.active;
        self.active.push(ShardEntry { name, manifest });
        proof {
            assert(self@.active =~= before.push(EntryView { name: nv, manifest: mv }));
            assert(self@ =~= (ManagerView { active: before.push(
                EntryView { name: nv, manifest: mv },
            ), ..old(self)@ }));
            if manager_wf(old(self)@) {
                assert forall|i: int, j: int|
                    0 <= i < j < self@.active.len() implies #[trigger] self@.active[i].name
                    != #[trigger] self@.active[j].name by {
                    if j == self@.active.len() - 1 {
                        assert(before[i].name == self@.active[i].name);
                        assert(entries_contain(before, before[i].name));
                    }
                }
            }
        }
    }

    /// Register a disabled shard loaded from disk.
    pub fn load_disabled_shard(&mut self, name: String, manifest: Manifest)
        requires
            !entries_contain(old(self)@.disabled, name@),
        ensures
            final(self)@ == (ManagerView {
                disabled: old(self)@.disabled.push(
                    EntryView { name: name@, manifest: manifest@ },
                ),
                ..old(self)@
            }),
            manager_wf(old(self)@) ==> manager_wf(final(self)@),
    {
        let ghost nv = name@;
        let ghost mv = manifest@;
        let ghost before = self@.disabled;
        self.disabled.push(ShardEntry { name, manifest });
        proof {
            assert(self@.disabled =~= before.push(EntryView { name: nv, manifest: mv }));
            assert(self@ =~= (ManagerView { disabled: before.push(
                EntryView { name: nv, manifest: mv },
            ), ..old(self)@ }));
            if manager_wf(old(self)@) {
                assert forall|i: int, j: int|
                    0 <= i < j < self@.disabled.len() implies #[trigger] self@.disabled[i].name
                    != #[trigger] self@.disabled[j].name by {
                    if j == self@.disabled.len() - 1 {
                        assert(before[i].name == self@.disabled[i].name);
                        assert(entries_contain(before, before[i].name));
                    }
                }
            }
        }
    }

    /// Whether the shard is protected: hard-protected by name, or marked
    /// protected in its registered manifest.
    pub fn shard_is_protected(&self, name: &str) -> (r: bool)
        requires
            manager_wf(self@),
        ensures
            r == is_protected_spec(self@, name@),
    {
        let hard = vec_contains_str(&self.protected_shards, name);
        proof {
            if seq_contains_str(self.protected_shards@, name@) {
                let j = choose|j: int|
                    0 <= j < self.protected_shards@.len() && #[trigger] self.protected_shards@[
                    j]@ == name@;
                assert(self@.protected_shards[j] == name@);
            } else if self@.protected_shards.contains(name@) {
                let j = choose|j: int|
                    0 <= j < self@.protected_shards.len() && self@.protected_shards[j] == name@;
                assert(self.protected_shards@[j]@ == name@);
            }
        }
        if hard {
            return true;
        }
        match find_entry(&self.active, name) {
            Some(i) => {
                proof {
                    lemma_entry_found(self@.active, name@, i as int);
                }
                self.active[i].manifest.is_protected()
            },
            None => {
                match find_entry(&self.disabled, name) {
                    Some(i) => {
                        proof {
                            lemma_entry_found(self@.disabled, name@, i as int);
                        }
                        self.disabled[i].manifest.is_protected()
                    },
                    None => false,
                }
            },
        }
    }

    /// Whether the acting user may modify the shard.
    fn can_modify_shard(&self, name: &str) -> (r: bool)
        requires
            manager_wf(self@),
        ensures
            r == can_modify_shard_spec(self@, name@, self@.current_user),
    {
        if !self.shard_is_protected(name) {
            return true;
        }
        match find_entry(&self.active, name) {
            Some(i) => {
                proof {
                    lemma_entry_found(self@.active, name@, i as int);
                }
                self.active[i].manifest.is_user_allowed(self.current_user.as_str())
            },
            None => {
                match find_entry(&self.disabled, name) {
                    Some(i) => {
                        proof {
                            lemma_entry_found(self@.disabled, name@, i as int);
                        }
                        self.disabled[i].manifest.is_user_allowed(self.current_user.as_str())
                    },
                    None => false,
                }
            },
        }
    }

    /// Whether some user may modify the shard.
    pub fn shard_can_be_modified_by(&self, name: &str, username: &str) -> (r: bool)
        requires
            manager_wf(self@),
        ensures
            r == can_modify_shard_spec(self@, name@, username@),
    {
        if !self.shard_is_protected(name) {
            return true;
        }
        match find_entry(&self.active, name) {
            Some(i) => {
                proof {
                    lemma_entry_found(self@.active, name@, i as int);
                }
                self.active[i].manifest.is_user_allowed(username)
            },
            None => {
                match find_entry(&self.disabled, name) {
                    Some(i) => {
                        proof {
                            lemma_entry_found(self@.disabled, name@, i as int);
                        }
                        self.disabled[i].manifest.is_user_allowed(username)
                    },
                    None => false,
                }
            },
        }
    }

    /// The status of a shard: active wins over disabled.
    pub fn get_shard_status(&self, name: &str) -> (r: ShardStatus)
        requires
            manager_wf(self@),
        ensures
            r == status_spec(self@, name@),
    {
        if !is_valid_shard_name(name) {
            return ShardStatus::NotFound;
        }
        if self.shard_is_active(name) {
            ShardStatus::Active
        } else if self.shard_is_disabled(name) {
            ShardStatus::Disabled
        } else {
            ShardStatus::NotFound
        }
    }

    /// Whether a shard of that name exists at all.
    pub fn shard_exists(&self, name: &str) -> (r: bool)
        ensures
            r == (valid_shard_name(name@) && (entries_contain(self@.active, name@)
                || entries_contain(self@.disabled, name@))),
    {
        if !is_valid_shard_name(name) {
            return false;
        }
        match find_entry(&self.active, name) {
            Some(i) => {
                proof {
                    assert(self@.active[i as int].name == name@);
                }
                true
            },
            None => {
                match find_entry(&self.disabled, name) {
                    Some(i) => {
                        proof {
                            assert(self@.disabled[i as int].name == name@);
                        }
                        true
                    },
                    None => false,
                }
            },
        }
    }

    /// Whether the shard is active.
    pub fn shard_is_active(&self, name: &str) -> (r: bool)
        ensures
            r == (valid_shard_name(name@) && entries_contain(self@.active, name@)),
    {
        if !is_valid_shard_name(name) {
            return false;
        }
        match find_entry(&self.active, name) {
            Some(i) => {
                proof {
                    assert(self@.active[i as int].name == name@);
                }
                true
            },
            None => false,
        }
    }

    /// Whether the shard is disabled.
    pub fn shard_is_disabled(&self, name: &str) -> (r: bool)
        ensures
            r == (valid_shard_name(name@) && entries_contain(self@.disabled, name@)),
    {
        if !is_valid_shard_name(name) {
            return false;
        }
        match find_entry(&self.disabled, name) {
            Some(i) => {
                proof {
                    assert(self@.disabled[i as int].name == name@);
                }
                true
            },
            None => false,
        }
    }

    /// The names of the active shards, in registry order.
    pub fn list_shards(&self) -> (r: Vec<String>)
        ensures
            r.deep_view().len() == self@.active.len(),
            forall|i: int|
                0 <= i < r.deep_view().len() ==> #[trigger] r.deep_view()[i] == self@.active[
                i].name,
    {
        let n = self.active.len();
        let mut r: Vec<String> = Vec::new();
        let mut i: usize = 0;
        while i < n
            invariant
                0 <= i <= n,
                n == self.active@.len(),
                r@.len() == i,
                forall|j: int| 0 <= j < i ==> #[trigger] r@[j]@ == self@.active[j].name,
            decreases n - i,
        {
            r.push(self.active[i].name.clone());
            i = i + 1;
        }
        r
    }

    /// The names of the disabled shards, in registry order.
    pub fn list_disabled_shards(&self) -> (r: Vec<String>)
        ensures
            r.deep_view().len() == self@.disabled.len(),
            forall|i: int|
                0 <= i < r.deep_view().len() ==> #[trigger] r.deep_view()[i] == self@.disabled[
                i].name,
    {
        let n = self.disabled.len();
        let mut r: Vec<String> = Vec::new();
        let mut i: usize = 0;
        while i < n
            invariant
                0 <= i <= n,
                n == self.disabled@.len(),
                r@.len() == i,
                forall|j: int| 0 <= j < i ==> #[trigger] r@[j]@ == self@.disabled[j].name,
            decreases n - i,
        {
            r.push(self.disabled[i].name.clone());
            i = i + 1;
        }
        r
    }

    /// Detailed information about one shard.
    pub fn get_shard_info(&self, name: &str) -> (r: ShardResult<ShardInfo>)
        requires
            manager_wf(self@),
        ensures
            r is Ok <==> !(status_spec(self@, name@) is NotFound),
            r matches Ok(info) ==> info@.name == name@ && info@.status == status_spec(
                self@,
                name@,
            ),
            r matches Ok(info) ==> (info@.status is Active ==> info@.path == self@.shards_dir
                + "/"@ + name@ + ".toml"@ && info@.manifest == Some(
                entry_named(self@.active, name@).manifest,
            )),
            r matches Ok(info) ==> (info@.status is Disabled ==> info@.path
                == self@.disabled_dir + "/"@ + name@ + ".toml"@ && info@.manifest == Some(
                entry_named(self@.disabled, name@).manifest,
            )),
            r matches Err(e) ==> e matches ShardError::NotFound(_),
    {
        let status = self.get_shard_status(name);
        match status {
            ShardStatus::NotFound => Err(ShardError::NotFound(name.to_owned())),
            ShardStatus::Active => {
                let path = shard_file_path(self.shards_dir.as_str(), name);
                let m = match find_entry(&self.active, name) {
                    Some(i) => {
                        proof {
                            lemma_entry_found(self@.active, name@, i as int);
                        }
                        Some(self.active[i].manifest.clone())
                    },
                    None => None,
                };
                Ok(ShardInfo { name: name.to_owned(), path, status, manifest: m })
            },
            ShardStatus::Disabled => {
                let path = shard_file_path(self.disabled_dir.as_str(), name);
                let m = match find_entry(&self.disabled, name) {
                    Some(i) => {
                        proof {
                            lemma_entry_found(self@.disabled, name@, i as int);
                        }
                        Some(self.disabled[i].manifest.clone())
                    },
                    None => None,
                };
                Ok(ShardInfo { name: name.to_owned(), path, status, manifest: m })
            },
        }
    }

    /// Information about every registered shard: the active ones, then the
    /// disabled ones.
    pub fn get_all_shards_info(&self) -> (r: Vec<ShardInfo>)
        ensures
            r@.len() == self@.active.len() + self@.disabled.len(),
            forall|i: int|
                0 <= i < self@.active.len() ==> (#[trigger] r@[i]@).name == self@.active[i].name
                    && r@[i]@.status is Active && r@[i]@.manifest == Some(
                    self@.active[i].manifest,
                ),
            forall|i: int|
                self@.active.len() <= i < r@.len() ==> (#[trigger] r@[i]@).name == self@.disabled[
                    i - self@.active.len()].name && r@[i]@.status is Disabled && r@[i]@.manifest
                    == Some(self@.disabled[i - self@.active.len()].manifest),
    {
        let mut r: Vec<ShardInfo> = Vec::new();
        let n = self.active.len();
        let mut i: usize = 0;
        while i < n
            invariant
                0 <= i <= n,
                n == self.active@.len(),
                r@.len() == i,
                forall|j: int|
                    0 <= j < i ==> (#[trigger] r@[j]@).name == self@.active[j].name && r@[j]@.status
                        is Active && r@[j]@.manifest == Some(self@.active[j].manifest),
            decreases n - i,
        {
            let path = shard_file_path(self.shards_dir.as_str(), self.active[i].name.as_str());
            r.push(
                ShardInfo {
                    name: self.active[i].name.clone(),
                    path,
                    status: ShardStatus::Active,
                    manifest: Some(self.active[i].manifest.clone()),
                },
            );
            i = i + 1;
        }
        let m = self.disabled.len();
        let mut k: usize = 0;
        while k < m
            invariant
                0 <= k <= m,
                m == self.disabled@.len(),
                r@.len() == n + k,
                n == self.active@.len(),
                forall|j: int|
                    0 <= j < n ==> (#[trigger] r@[j]@).name == self@.active[j].name && r@[j]@.status
                        is Active && r@[j]@.manifest == Some(self@.active[j].manifest),
                forall|j: int|
                    n <= j < n + k ==> (#[trigger] r@[j]@).name == self@.disabled[j - n].name
                        && r@[j]@.status is Disabled && r@[j]@.manifest == Some(
                        self@.disabled[j - n].manifest,
                    ),
            decreases m - k,
        {
            let path = shard_file_path(
                self.disabled_dir.as_str(),
                self.disabled[k].name.as_str(),
            );
            r.push(
                ShardInfo {
                    name: self.disabled[k].name.clone(),
                    path,
                    status: ShardStatus::Disabled,
                    manifest: Some(self.disabled[k].manifest.clone()),
                },
            );
            k = k + 1;
        }
        r
    }

    /// Create a new shard: fails with `InvalidName` on a bad name and with
    /// `AlreadyExists` when a shard of the name is registered anywhere.
    /// On success the new manifest joins the active registry and one write
    /// action realizes it on disk.
    pub fn grow_shard(&mut self, name: &str, description: Option<&str>) -> (r: ShardResult<Vec<
        FsAction,
    >>)
        requires
            manager_wf(old(self)@),
        ensures
            manager_wf(final(self)@),
            r is Ok <==> (valid_shard_name(name@) && !entries_contain(old(self)@.active, name@)
                && !entries_contain(old(self)@.disabled, name@)),
            r matches Err(e) ==> *final(self) == *old(self) && (if !valid_shard_name(name@) {
                e matches ShardError::InvalidName(_)
            } else {
                e matches ShardError::AlreadyExists(_)
            }),
            r matches Ok(actions) ==> {
                &&& final(self)@.active.len() == old(self)@.active.len() + 1
                &&& final(self)@.active.last().name == name@
                &&& final(self)@.active.last().manifest == grown_manifest_view(
                    name@,
                    match description {
                        Some(d) => d@,
                        None => "Custom shard"@,
                    },
                    old(self)@.current_user,
                )
                &&& final(self)@.active.drop_last() == old(self)@.active
                &&& final(self)@ == (ManagerView { active: final(self)@.active, ..old(self)@ })
                &&& actions@.len() == 1
                &&& actions.deep_view()[0] == (FsActionView::WriteManifest {
                    path: old(self)@.shards_dir + "/"@ + name@ + ".toml"@,
                    manifest: final(self)@.active.last().manifest,
                })
            },
    {
        if !is_valid_shard_name(name) {
            return Err(ShardError::InvalidName(name.to_owned()));
        }
        if self.shard_exists(name) {
            return Err(ShardError::AlreadyExists(name.to_owned()));
        }
        let mut manifest = Manifest::new();
        manifest.metadata.name = name.to_owned();
        manifest.metadata.description = match description {
            Some(d) => d.to_owned(),
            None => "Custom shard".to_owned(),
        };
        manifest.metadata.owner = self.current_user.clone();
        proof {
            assert(manifest@ =~= grown_manifest_view(
                name@,
                match description {
                    Some(d) => d@,
                    None => "Custom shard"@,
                },
                self@.current_user,
            ));
        }
        let path = shard_file_path(self.shards_dir.as_str(), name);
        let written = manifest.clone();
        let ghost before = self@.active;
        self.active.push(ShardEntry { name: name.to_owned(), manifest });
        let mut actions: Vec<FsAction> = Vec::new();
        actions.push(FsAction::WriteManifest { path, manifest: written });
        proof {
            assert(self@.active =~= before.push(self@.active.last()));
            assert(self@.active.drop_last() =~= before);
            assert(self@ =~= (ManagerView { active: self@.active, ..old(self)@ }));
            assert forall|i: int, j: int|
                0 <= i < j < self@.active.len() implies #[trigger] self@.active[i].name
                != #[trigger] self@.active[j].name by {
                if j == self@.active.len() - 1 {
                    assert(before[i].name == self@.active[i].name);
                    assert(entries_contain(before, before[i].name));
                }
            }
        }
        Ok(actions)
    }

    /// Disable an active shard: fails with `InvalidName` on a bad name and
    /// with `Protected` when the shard is protected and the acting user is
    /// not allowed; an allowed user succeeds.  An already-disabled shard is
    /// left as it is; an unknown name fails with `NotFound`.  On success
    /// the entry moves to the disabled registry, and on disk a backup is
    /// taken strictly before the file moves.
    pub fn disable_shard(&mut self, name: &str) -> (r: ShardResult<Vec<FsAction>>)
        requires
            manager_wf(old(self)@),
        ensures
            manager_wf(final(self)@),
            r is Err ==> *final(self) == *old(self),
            !valid_shard_name(name@) ==> (r matches Err(e) && e matches ShardError::InvalidName(
                _,
            )),
            valid_shard_name(name@) && is_protected_spec(old(self)@, name@)
                && !can_modify_shard_spec(old(self)@, name@, old(self)@.current_user) ==> (
            r matches Err(e) && e matches ShardError::Protected(_)),
            r matches Err(e) ==> (e matches ShardError::Protected(_) ==> is_protected_spec(
                old(self)@,
                name@,
            ) && !can_modify_shard_spec(old(self)@, name@, old(self)@.current_user)),
            valid_shard_name(name@) && !(is_protected_spec(old(self)@, name@)
                && !can_modify_shard_spec(old(self)@, name@, old(self)@.current_user))
                && !entries_contain(old(self)@.active, name@) && entries_contain(
                old(self)@.disabled,
                name@,
            ) ==> (r matches Ok(actions) && actions@.len() == 0 && *final(self) == *old(self)),
            valid_shard_name(name@) && !(is_protected_spec(old(self)@, name@)
                && !can_modify_shard_spec(old(self)@, name@, old(self)@.current_user))
                && !entries_contain(old(self)@.active, name@) && !entries_contain(
                old(self)@.disabled,
                name@,
            ) ==> (r matches Err(e) && e matches ShardError::NotFound(_)),
            valid_shard_name(name@) && !(is_protected_spec(old(self)@, name@)
                && !can_modify_shard_spec(old(self)@, name@, old(self)@.current_user))
                && entries_contain(old(self)@.active, name@) ==> (r matches Ok(actions) && {
                let e = entry_named(old(self)@.active, name@);
                &&& final(self)@.active =~= old(self)@.active.remove(entry_index(
                    old(self)@.active,
                    name@,
                ))
                &&& if entries_contain(old(self)@.disabled, name@) {
                    final(self)@.disabled =~= old(self)@.disabled.update(
                        entry_index(old(self)@.disabled, name@),
                        e,
                    )
                } else {
                    final(self)@.disabled =~= old(self)@.disabled.push(e)
                }
                &&& final(self)@.backups =~= old(self)@.backups.push(e)
                &&& final(self)@ == (ManagerView {
                    active: final(self)@.active,
                    disabled: final(self)@.disabled,
                    backups: final(self)@.backups,
                    ..old(self)@
                })
                &&& actions@.len() == 2
                &&& actions.deep_view()[0] == (FsActionView::Backup {
                    source: old(self)@.shards_dir + "/"@ + name@ + ".toml"@,
                    name: name@,
                })
                &&& actions.deep_view()[1] == (FsActionView::Rename {
                    from: old(self)@.shards_dir + "/"@ + name@ + ".toml"@,
                    to: old(self)@.disabled_dir + "/"@ + name@ + ".toml"@,
                })
            }),
    {
        if !is_valid_shard_name(name) {
            return Err(ShardError::InvalidName(name.to_owned()));
        }
        if self.shard_is_protected(name) && !self.can_modify_shard(name) {
            return Err(ShardError::Protected(name.to_owned()));
        }
        let idx = match find_entry(&self.active, name) {
            Some(i) => i,
            None => {
                match find_entry(&self.disabled, name) {
                    Some(_) => {
                        let actions: Vec<FsAction> = Vec::new();
                        return Ok(actions);
                    },
                    None => {
                        return Err(ShardError::NotFound(name.to_owned()));
                    },
                }
            },
        };
        proof {
            lemma_entry_found(self@.active, name@, idx as int);
        }
        let entry = self.active.remove(idx);
        let ghost ev = entry@;
        let backup_copy = ShardEntry { name: entry.name.clone(), manifest: entry.manifest.clone() };
        let ghost d_before = self@.disabled;
        let ghost b_before = self@.backups;
        // A leftover disabled copy of the same name is overwritten, as the
        // file move would overwrite it on disk.
        match find_entry(&self.disabled, name) {
            Some(j) => {
                proof {
                    lemma_entry_found(self@.disabled, name@, j as int);
                }
                self.disabled.set(j, entry);
            },
            None => {
                self.disabled.push(entry);
            },
        }
        self.backups.push(backup_copy);
        let source = shard_file_path(self.shards_dir.as_str(), name);
        let dest = shard_file_path(self.disabled_dir.as_str(), name);
        let mut actions: Vec<FsAction> = Vec::new();
        actions.push(FsAction::Backup { source: source.clone(), name: name.to_owned() });
        actions.push(FsAction::Rename { from: source, to: dest });
        proof {
            assert(self@.backups =~= b_before.push(ev));
            assert(entry_names_unique(self@.active)) by {
                assert forall|i: int, j: int|
                    0 <= i < j < self@.active.len() implies #[trigger] self@.active[i].name
                    != #[trigger] self@.active[j].name by {
                    let oa = old(self)@.active;
                    let a = if i < idx as int {
                        i
                    } else {
                        i + 1
                    };
                    let b = if j < idx as int {
                        j
                    } else {
                        j + 1
                    };
                    assert(self@.active[i] == oa[a]);
                    assert(self@.active[j] == oa[b]);
                }
            }
            if entries_contain(d_before, name@) {
                let dj = entry_index(d_before, name@);
                assert(self@.disabled =~= d_before.update(dj, ev));
                assert(entry_names_unique(self@.disabled)) by {
                    assert forall|i: int, j: int|
                        0 <= i < j < self@.disabled.len() implies #[trigger] self@.disabled[
                    i].name != #[trigger] self@.disabled[j].name by {
                        assert(self@.disabled[i].name == d_before[i].name);
                        assert(self@.disabled[j].name == d_before[j].name);
                    }
                }
            } else {
                assert(self@.disabled =~= d_before.push(ev));
                assert(entry_names_unique(self@.disabled)) by {
                    assert forall|i: int, j: int|
                        0 <= i < j < self@.disabled.len() implies #[trigger] self@.disabled[
                    i].name != #[trigger] self@.disabled[j].name by {
                        if j == self@.disabled.len() - 1 {
                            assert(self@.disabled[i] == d_before[i]);
                            assert(entries_contain(d_before, d_before[i].name));
                        } else {
                            assert(self@.disabled[i] == d_before[i]);
                            assert(self@.disabled[j] == d_before[j]);
                        }
                    }
                }
            }
            assert(self@ =~= (ManagerView {
                active: self@.active,
                disabled: self@.disabled,
                backups: self@.backups,
                ..old(self)@
            }));
        }
        Ok(actions)
    }

    /// Enable a disabled shard: the entry moves back to the active
    /// registry, its manifest's modification bookkeeping refreshed, and on
    /// disk the manifest is written at its active path before the disabled
    /// file is removed.  An already-active shard is left as it is.
    pub fn enable_shard(&mut self, name: &str) -> (r: ShardResult<Vec<FsAction>>)
        requires
            manager_wf(old(self)@),
        ensures
            manager_wf(final(self)@),
            r is Err ==> *final(self) == *old(self),
            !valid_shard_name(name@) ==> (r matches Err(e) && e matches ShardError::InvalidName(
                _,
            )),
            valid_shard_name(name@) && !entries_contain(old(self)@.disabled, name@)
                && entries_contain(old(self)@.active, name@) ==> (r matches Ok(actions)
                && actions@.len() == 0 && *final(self) == *old(self)),
            valid_shard_name(name@) && !entries_contain(old(self)@.disabled, name@)
                && !entries_contain(old(self)@.active, name@) ==> (r matches Err(e) && e matches
                ShardError::NotFound(_)),
            valid_shard_name(name@) && entries_contain(old(self)@.disabled, name@) ==> (r matches
                Ok(actions) && {
                let e = entry_named(old(self)@.disabled, name@);
                &&& final(self)@.disabled =~= old(self)@.disabled.remove(entry_index(
                    old(self)@.disabled,
                    name@,
                ))
                &&& if entries_contain(old(self)@.active, name@) {
                    final(self)@.active =~= old(self)@.active.update(
                        entry_index(old(self)@.active, name@),
                        e,
                    )
                } else {
                    final(self)@.active =~= old(self)@.active.push(e)
                }
                &&& final(self)@ == (ManagerView {
                    active: final(self)@.active,
                    disabled: final(self)@.disabled,
                    ..old(self)@
                })
                &&& actions@.len() == 2
                &&& actions.deep_view()[0] == (FsActionView::WriteManifest {
                    path: old(self)@.shards_dir + "/"@ + name@ + ".toml"@,
                    manifest: e.manifest,
                })
                &&& actions.deep_view()[1] == (FsActionView::Remove {
                    path: old(self)@.disabled_dir + "/"@ + name@ + ".toml"@,
                })
            }),
    {
        if !is_valid_shard_name(name) {
            return Err(ShardError::InvalidName(name.to_owned()));
        }
        let idx = match find_entry(&self.disabled, name) {
            Some(i) => i,
            None => {
                match find_entry(&self.active, name) {
                    Some(_) => {
                        let actions: Vec<FsAction> = Vec::new();
                        return Ok(actions);
                    },
                    None => {
                        return Err(ShardError::NotFound(name.to_owned()));
                    },
                }
            },
        };
        proof {
            lemma_entry_found(self@.disabled, name@, idx as int);
        }
        let mut entry = self.disabled.remove(idx);
        entry.manifest.update_modification_info();
        let ghost ev = entry@;
        let written = entry.manifest.clone();
        let ghost a_before = self@.active;
        // A leftover active copy of the same name is overwritten, as the
        // manifest write would overwrite it on disk.
        match find_entry(&self.active, name) {
            Some(j) => {
                proof {
                    lemma_entry_found(self@.active, name@, j as int);
                }
                self.active.set(j, entry);
            },
            None => {
                self.active.push(entry);
            },
        }
        let dest = shard_file_path(self.shards_dir.as_str(), name);
        let source = shard_file_path(self.disabled_dir.as_str(), name);
        let mut actions: Vec<FsAction> = Vec::new();
        actions.push(FsAction::WriteManifest { path: dest, manifest: written });
        actions.push(FsAction::Remove { path: source });
        proof {
            assert(entry_names_unique(self@.disabled)) by {
                assert forall|i: int, j: int|
                    0 <= i < j < self@.disabled.len() implies #[trigger] self@.disabled[i].name
                    != #[trigger] self@.disabled[j].name by {
                    let od = old(self)@.disabled;
                    let a = if i < idx as int {
                        i
                    } else {
                        i + 1
                    };
                    let b = if j < idx as int {
                        j
                    } else {
                        j + 1
                    };
                    assert(self@.disabled[i] == od[a]);
                    assert(self@.disabled[j] == od[b]);
                }
            }
            if entries_contain(a_before, name@) {
                let aj = entry_index(a_before, name@);
                assert(self@.active =~= a_before.update(aj, ev));
                assert(entry_names_unique(self@.active)) by {
                    assert forall|i: int, j: int|
                        0 <= i < j < self@.active.len() implies #[trigger] self@.active[i].name
                        != #[trigger] self@.active[j].name by {
                        assert(self@.active[i].name == a_before[i].name);
                        assert(self@.active[j].name == a_before[j].name);
                    }
                }
            } else {
                assert(self@.active =~= a_before.push(ev));
                assert(entry_names_unique(self@.active)) by {
                    assert forall|i: int, j: int|
                        0 <= i < j < self@.active.len() implies #[trigger] self@.active[i].name
                        != #[trigger] self@.active[j].name by {
                        if j == self@.active.len() - 1 {
                            assert(self@.active[i] == a_before[i]);
                            assert(entries_contain(a_before, a_before[i].name));
                        } else {
                            assert(self@.active[i] == a_before[i]);
                            assert(self@.active[j] == a_before[j]);
                        }
                    }
                }
            }
            assert(self@ =~= (ManagerView {
                active: self@.active,
                disabled: self@.disabled,
                ..old(self)@
            }));
        }
        Ok(actions)
    }

    /// Delete a shard permanently: a protected shard — by its metadata or
    /// by the hard-coded name list — is deleted only with `force` by an
    /// allowed user.  A backup is taken strictly before the file is
    /// removed, wherever the shard stands.
    pub fn shatter_shard(&mut self, name: &str, force: bool) -> (r: ShardResult<Vec<FsAction>>)
        requires
            manager_wf(old(self)@),
        ensures
            manager_wf(final(self)@),
            r is Err ==> *final(self) == *old(self),
            !valid_shard_name(name@) ==> (r matches Err(e) && e matches ShardError::InvalidName(
                _,
            )),
            valid_shard_name(name@) && !entries_contain(old(self)@.active, name@)
                && !entries_contain(old(self)@.disabled, name@) ==> (r matches Err(e) && e matches
                ShardError::NotFound(_)),
            r matches Err(e) ==> (e matches ShardError::Protected(_) ==> is_protected_spec(
                old(self)@,
                name@,
            ) && !(force && can_modify_shard_spec(old(self)@, name@, old(self)@.current_user))),
            valid_shard_name(name@) && (entries_contain(old(self)@.active, name@)
                || entries_contain(old(self)@.disabled, name@)) && is_protected_spec(
                old(self)@,
                name@,
            ) && !(force && can_modify_shard_spec(old(self)@, name@, old(self)@.current_user))
                ==> (r matches Err(e) && e matches ShardError::Protected(_)),
            valid_shard_name(name@) && (entries_contain(old(self)@.active, name@)
                || entries_contain(old(self)@.disabled, name@)) && !(is_protected_spec(
                old(self)@,
                name@,
            ) && !(force && can_modify_shard_spec(old(self)@, name@, old(self)@.current_user)))
                ==> r is Ok,
            r matches Ok(actions) ==> (entries_contain(old(self)@.active, name@) ==> {
                let path = old(self)@.shards_dir + "/"@ + name@ + ".toml"@;
                &&& final(self)@.active =~= old(self)@.active.remove(entry_index(
                    old(self)@.active,
                    name@,
                ))
                &&& final(self)@.backups =~= old(self)@.backups.push(
                    entry_named(old(self)@.active, name@),
                )
                &&& final(self)@ == (ManagerView {
                    active: final(self)@.active,
                    backups: final(self)@.backups,
                    ..old(self)@
                })
                &&& !entries_contain(final(self)@.active, name@)
                &&& actions@.len() == 2
                &&& actions.deep_view()[0] == (FsActionView::Backup { source: path, name: name@ })
                &&& actions.deep_view()[1] == (FsActionView::Remove { path: path })
            }),
            r matches Ok(actions) ==> (!entries_contain(old(self)@.active, name@) ==> {
                let path = old(self)@.disabled_dir + "/"@ + name@ + ".toml"@;
                &&& final(self)@.disabled =~= old(self)@.disabled.remove(entry_index(
                    old(self)@.disabled,
                    name@,
                ))
                &&& final(self)@.backups =~= old(self)@.backups.push(
                    entry_named(old(self)@.disabled, name@),
                )
                &&& final(self)@ == (ManagerView {
                    disabled: final(self)@.disabled,
                    backups: final(self)@.backups,
                    ..old(self)@
                })
                &&& !entries_contain(final(self)@.disabled, name@)
                &&& actions@.len() == 2
                &&& actions.deep_view()[0] == (FsActionView::Backup { source: path, name: name@ })
                &&& actions.deep_view()[1] == (FsActionView::Remove { path: path })
            }),
    {
        if !is_valid_shard_name(name) {
            return Err(ShardError::InvalidName(name.to_owned()));
        }
        if !self.shard_exists(name) {
            return Err(ShardError::NotFound(name.to_owned()));
        }
        if self.shard_is_protected(name) {
            if !(force && self.can_modify_shard(name)) {
                return Err(ShardError::Protected(name.to_owned()));
            }
        }
        // Back up from wherever the shard stands, then remove it.
        match find_entry(&self.active, name) {
            Some(idx) => {
                proof {
                    lemma_entry_found(self@.active, name@, idx as int);
                }
                let entry = self.active.remove(idx);
                let source = shard_file_path(self.shards_dir.as_str(), name);
                let ghost b_before = self@.backups;
                self.backups.push(entry);
                let mut actions: Vec<FsAction> = Vec::new();
                actions.push(
                    FsAction::Backup { source: source.clone(), name: name.to_owned() },
                );
                actions.push(FsAction::Remove { path: source });
                proof {
                    assert(self@.backups =~= b_before.push(
                        entry_named(old(self)@.active, name@),
                    ));
                    assert(entry_names_unique(self@.active)) by {
                        assert forall|i: int, j: int|
                            0 <= i < j < self@.active.len() implies #[trigger] self@.active[
                        i].name != #[trigger] self@.active[j].name by {
                            let oa = old(self)@.active;
                            let a = if i < idx as int {
                                i
                            } else {
                                i + 1
                            };
                            let b = if j < idx as int {
                                j
                            } else {
                                j + 1
                            };
                            assert(self@.active[i] == oa[a]);
                            assert(self@.active[j] == oa[b]);
                        }
                    }
                    assert(!entries_contain(self@.active, name@)) by {
                        if entries_contain(self@.active, name@) {
                            let i = choose|i: int|
                                0 <= i < self@.active.len() && #[trigger] self@.active[i].name
                                    == name@;
                            let oa = old(self)@.active;
                            let a = if i < idx as int {
                                i
                            } else {
                                i + 1
                            };
                            assert(oa[a].name == name@);
                            assert(a != idx as int);
                            assert(oa[idx as int].name == name@);
                            if a < idx as int {
                                assert(oa[a].name != oa[idx as int].name);
                            } else {
                                assert(oa[idx as int].name != oa[a].name);
                            }
                        }
                    }
                }
                Ok(actions)
            },
            None => {
                let idx = match find_entry(&self.disabled, name) {
                    Some(i) => i,
                    None => {
                        proof {
                            assert(entries_contain(old(self)@.active, name@)
                                || entries_contain(old(self)@.disabled, name@));
                        }
                        return Err(ShardError::NotFound(name.to_owned()));
                    },
                };
                proof {
                    lemma_entry_found(self@.disabled, name@, idx as int);
                }
                let entry = self.disabled.remove(idx);
                let source = shard_file_path(self.disabled_dir.as_str(), name);
                let ghost b_before = self@.backups;
                self.backups.push(entry);
                let mut actions: Vec<FsAction> = Vec::new();
                actions.push(
                    FsAction::Backup { source: source.clone(), name: name.to_owned() },
                );
                actions.push(FsAction::Remove { path: source });
                proof {
                    assert(entry_names_unique(self@.disabled)) by {
                        assert forall|i: int, j: int|
                            0 <= i < j < self@.disabled.len() implies #[trigger] self@.disabled[
                        i].name != #[trigger] self@.disabled[j].name by {
                            let od = old(self)@.disabled;
                            let a = if i < idx as int {
                                i
                            } else {
                                i + 1
                            };
                            let b = if j < idx as int {
                                j
                            } else {
                                j + 1
                            };
                            assert(self@.disabled[i] == od[a]);
                            assert(self@.disabled[j] == od[b]);
                        }
                    }
                    assert(!entries_contain(self@.disabled, name@)) by {
                        if entries_contain(self@.disabled, name@) {
                            let i = choose|i: int|
                                0 <= i < self@.disabled.len() && #[trigger] self@.disabled[i].name
                                    == name@;
                            let od = old(self)@.disabled;
                            let a = if i < idx as int {
                                i
                            } else {
                                i + 1
                            };
                            assert(od[a].name == name@);
                            assert(a != idx as int);
                            assert(od[idx as int].name == name@);
                            if a < idx as int {
                                assert(od[a].name != od[idx as int].name);
                            } else {
                                assert(od[idx as int].name != od[a].name);
                            }
                        }
                    }
                }
                Ok(actions)
            },
        }
    }
}

/// With unique names, the index the search found is the one the
/// specification's lookup picks.
proof fn lemma_entry_found(s: Seq<EntryView>, name: Seq<char>, i: int)
    requires
        entry_names_unique(s),
        0 <= i < s.len(),
        s[i].name == name,
    ensures
        entries_contain(s, name),
        entry_index(s, name) == i,
        entry_named(s, name) == s[i],
{
    assert(entries_contain(s, name));
    let k = entry_index(s, name);
    assert(0 <= k < s.len() && s[k].name == name);
    if k != i {
        if k < i {
            assert(s[k].name != s[i].name);
        } else {
            assert(s[i].name != s[k].name);
        }
    }
}

/// Copy a shard entry list.
fn clone_entries(v: &Vec<ShardEntry>) -> (r: Vec<ShardEntry>)
    ensures
        r.deep_view() == v.deep_view(),
{
    let n = v.len();
    let mut r: Vec<ShardEntry> = Vec::new();
    let mut i: usize = 0;
    while i < n
        invariant
            0 <= i <= n,
            n == v@.len(),
            r@.len() == i,
            forall|j: int| 0 <= j < i ==> #[trigger] r@[j]@ == v@[j]@,
        decreases n - i,
    {
        r.push(
            ShardEntry {
                name: v[i].name.clone(),
                manifest: v[i].manifest.clone(),
            },
        );
        i = i + 1;
    }
    proof {
        assert(r.deep_view() =~= v.deep_view());
    }
    r
}

} // verus!
