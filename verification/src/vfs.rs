//! A virtual file system that mounts storage operators onto fixed virtual paths, the way one
//! mounts file systems onto directories.
//!
//! - A path that lies in no mount but has mounts underneath it is a virtual directory: it lists
//!   the next segments of the paths of those mounts.
//! - A path that lies in a mount is that mount's: the request goes to the mount's operator, with
//!   the path made relative to the mount's root.
//! - Any other path is not found.
//!
//! A mount can be read-only, and the bytes written to it can be limited by a quota.
use vstd::prelude::*;

use crate::config::OpenDALConfig;
use crate::error::{VfsError, VfsErrorView};
use crate::mount::{
    denied_at, duplicate_refused, is_virtual_root, refuse_root, root_refused, MountAccess,
};
use crate::path::{
    law_normal_form, law_normal_form_is_one_slash, mountable, normalize, normalized, root,
};

verus! {

/// Configuration for the quota of a mount.
#[derive(Debug, PartialEq, Eq)]
pub enum VfsQuota {
    /// Quota is disabled.
    Disabled,
    /// Quota is enabled.
    Enabled {
        /// The id under which the tracker records.
        id: String,
        /// The byte limit for writing.
        bytes: u64,
    },
}

impl Default for VfsQuota {
    fn default() -> (r: VfsQuota)
        ensures
            r is Disabled,
    {
        VfsQuota::Disabled
    }
}

impl Clone for VfsQuota {
    fn clone(&self) -> (r: VfsQuota)
        ensures
            r == *self,
    {
        match self {
            VfsQuota::Disabled => VfsQuota::Disabled,
            VfsQuota::Enabled { id, bytes } => VfsQuota::Enabled { id: id.clone(), bytes: *bytes },
        }
    }
}

/// Configuration for a single mount point.
#[derive(Debug, PartialEq, Eq)]
pub struct MountEntry {
    /// Virtual path this mount is bound to, such as `/repos/test`. Where the mount is inserted,
    /// the path is brought into its normal form: always absolute, no trailing slash (except the
    /// root, which cannot itself be mounted).
    pub path: String,
    /// Which operator to mount at `path`.
    pub config: OpenDALConfig,
    /// Reject everything that would change the mount.
    pub read_only: bool,
    /// Cap the bytes written to this mount.
    pub quota: VfsQuota,
}

impl MountEntry {
    /// The path that the mount is inserted at.
    pub open spec fn place(self) -> Seq<char> {
        normalized(self.path@)
    }

    /// Whether two entries say the same.
    pub open spec fn same_entry(self, other: MountEntry) -> bool {
        &&& self.path == other.path
        &&& self.config.same_config(other.config)
        &&& self.read_only == other.read_only
        &&& self.quota == other.quota
    }
}

impl Clone for MountEntry {
    fn clone(&self) -> (r: MountEntry)
        ensures
            r.same_entry(*self),
    {
        MountEntry {
            path: self.path.clone(),
            config: self.config.clone(),
            read_only: self.read_only,
            quota: self.quota.clone(),
        }
    }
}

/// Configuration for the whole virtual file system.
#[derive(Debug, PartialEq, Eq)]
pub struct VfsConfig {
    /// All mounts.
    pub mounts: Vec<MountEntry>,
}

impl Default for VfsConfig {
    fn default() -> (r: VfsConfig)
        ensures
            r.mounts@ == Seq::<MountEntry>::empty(),
    {
        VfsConfig { mounts: Vec::new() }
    }
}

impl VfsConfig {
    /// Whether two configurations say the same.
    pub open spec fn same_mounts(self, other: VfsConfig) -> bool {
        &&& self.mounts@.len() == other.mounts@.len()
        &&& forall|i: int|
            0 <= i < self.mounts@.len() ==> (#[trigger] self.mounts@[i]).same_entry(other.mounts@[i])
    }
}

impl Clone for VfsConfig {
    fn clone(&self) -> (r: VfsConfig)
        ensures
            r.same_mounts(*self),
    {
        let n: usize = self.mounts.len();
        let mut mounts: Vec<MountEntry> = Vec::new();
        let mut i: usize = 0;
        while i < n
            invariant
                i <= n,
                n == self.mounts@.len(),
                mounts@.len() == i,
                forall|j: int| 0 <= j < i ==> (#[trigger] mounts@[j]).same_entry(self.mounts@[j]),
            decreases n - i,
        {
            mounts.push(self.mounts[i].clone());
            i = i + 1;
        }
        VfsConfig { mounts }
    }
}

/// Builder for the virtual file system.
#[derive(Debug)]
pub struct VfsBuilder {
    /// The mounts so far.
    pub config: VfsConfig,
}

impl Clone for VfsBuilder {
    fn clone(&self) -> (r: VfsBuilder)
        ensures
            r.config.same_mounts(self.config),
    {
        VfsBuilder { config: self.config.clone() }
    }
}

impl Default for VfsBuilder {
    fn default() -> (r: VfsBuilder)
        ensures
            r.config.mounts@ == Seq::<MountEntry>::empty(),
    {
        VfsBuilder { config: VfsConfig::default() }
    }
}

/// Whether none of the first `n` mounts is at the root and no two of them are at one path.
pub open spec fn distinct_mounts(mounts: Seq<MountEntry>, n: int) -> bool {
    &&& forall|i: int| 0 <= i < n ==> (#[trigger] mounts[i]).place() != root()
    &&& forall|i: int, j: int|
        0 <= i < j < n ==> (#[trigger] mounts[i]).place() != (#[trigger] mounts[j]).place()
}

/// Whether one of the first `n` mounts is at `path`.
pub open spec fn mounted_before(mounts: Seq<MountEntry>, n: int, path: Seq<char>) -> bool {
    exists|i: int| 0 <= i < n && (#[trigger] mounts[i]).place() == path
}

/// Whether building stops with `error` at mount `n`, after the ones before it were mounted.
pub open spec fn stops_at(mounts: Seq<MountEntry>, n: int, error: VfsErrorView) -> bool {
    &&& 0 <= n < mounts.len()
    &&& distinct_mounts(mounts, n)
    &&& if mounts[n].place() == root() {
        error == VfsErrorView::Raised(root_refused())
    } else {
        ||| mounts[n].config.config.refused_with(error)
        ||| mounted_before(mounts, n, mounts[n].place()) && error == VfsErrorView::Raised(
            duplicate_refused(mounts[n].place()),
        )
    }
}

/// Whether the rates of each mount that building can come to can be used.
pub open spec fn usable_mounts(mounts: Seq<MountEntry>) -> bool {
    forall|i: int|
        0 <= i < mounts.len() && distinct_mounts(mounts, i) && mounts[i].place() != root() ==> (
        #[trigger] mounts[i]).config.usable()
}

impl VfsBuilder {
    /// Start an empty builder.
    pub fn new() -> (r: VfsBuilder)
        ensures
            r.config.mounts@ == Seq::<MountEntry>::empty(),
    {
        VfsBuilder::default()
    }

    /// Build from a config you already have. [`VfsBuilder::build`] brings its paths into their
    /// normal form.
    pub fn from_config(config: VfsConfig) -> (r: VfsBuilder)
        ensures
            r.config == config,
    {
        VfsBuilder { config }
    }

    /// Mount an operator for `config` at `path`. Mounting at `/` itself is rejected by
    /// [`VfsBuilder::build`].
    pub fn mount(self, path: &str, config: OpenDALConfig) -> (r: VfsBuilder)
        ensures
            r.config.mounts@.len() == self.config.mounts@.len() + 1,
            r.config.mounts@.drop_last() == self.config.mounts@,
            r.config.mounts@.last().path@ == normalized(path@),
            r.config.mounts@.last().config == config,
            !r.config.mounts@.last().read_only,
            r.config.mounts@.last().quota is Disabled,
    {
        let mut r = self;
        let entry = MountEntry {
            path: normalize(path),
            config,
            read_only: false,
            quota: VfsQuota::Disabled,
        };
        r.config.mounts.push(entry);
        proof {
            assert(r.config.mounts@.drop_last() =~= self.config.mounts@);
        }
        r
    }

    /// Mark the most recently added mount read-only.
    pub fn read_only(self) -> (r: VfsBuilder)
        ensures
            r.config.mounts@ == (if self.config.mounts@.len() == 0 {
                self.config.mounts@
            } else {
                self.config.mounts@.drop_last().push(
                    MountEntry { read_only: true, ..self.config.mounts@.last() },
                )
            }),
    {
        let mut r = self;
        if let Some(last) = r.config.mounts.pop() {
            let mut last = last;
            last.read_only = true;
            r.config.mounts.push(last);
        }
        proof {
            if self.config.mounts@.len() > 0 {
                assert(r.config.mounts@ =~= self.config.mounts@.drop_last().push(
                    MountEntry { read_only: true, ..self.config.mounts@.last() },
                ));
            }
        }
        r
    }

    /// Cap the bytes written to the most recently added mount.
    pub fn quota(self, id: &str, bytes: u64) -> (r: VfsBuilder)
        ensures
            self.config.mounts@.len() == 0 ==> r.config.mounts@ == self.config.mounts@,
            self.config.mounts@.len() > 0 ==> {
                let last = self.config.mounts@.last();
                let now = r.config.mounts@.last();
                &&& r.config.mounts@.len() == self.config.mounts@.len()
                &&& r.config.mounts@.drop_last() == self.config.mounts@.drop_last()
                &&& now.quota matches VfsQuota::Enabled { id: i, bytes: b } && i@ == id@ && b
                    == bytes
                &&& now == MountEntry { quota: now.quota, ..last }
            },
    {
        let mut r = self;
        if let Some(last) = r.config.mounts.pop() {
            let mut last = last;
            last.quota = VfsQuota::Enabled { id: id.to_owned(), bytes };
            r.config.mounts.push(last);
        }
        proof {
            if self.config.mounts@.len() > 0 {
                assert(r.config.mounts@.drop_last() =~= self.config.mounts@.drop_last());
            }
        }
        r
    }

    /// Builds the virtual file system: an operator is created for each mount in turn and inserted
    /// at the normal form of the mount's path, until one is refused.
    pub fn build(self) -> (r: Result<MountAccess, VfsError>)
        requires
            usable_mounts(self.config.mounts@),
        ensures
            match r {
                Ok(access) => {
                    &&& distinct_mounts(self.config.mounts@, self.config.mounts@.len() as int)
                    &&& access.has_mounts(self.config.mounts@)
                    &&& access.well_formed()
                },
                Err(e) => exists|n: int| #[trigger] stops_at(self.config.mounts@, n, e@),
            },
    {
        let mut access = MountAccess::empty();
        let n: usize = self.config.mounts.len();
        let ghost entries = self.config.mounts@;
        let mut i: usize = 0;
        proof {
            assert(entries.take(0) =~= Seq::empty());
        }
        while i < n
            invariant
                i <= n,
                entries == self.config.mounts@,
                n == entries.len(),
                usable_mounts(entries),
                distinct_mounts(entries, i as int),
                access.has_mounts(entries.take(i as int)),
                access.well_formed(),
            decreases n - i,
        {
            let entry = &self.config.mounts[i];
            let ghost here = entries.take(i as int);
            proof {
                assert(entries[i as int] == *entry);
                assert(entries.take(i + 1) =~= here.push(*entry));
            }
            let path = normalize(entry.path.as_str());
            if is_virtual_root(path.as_str()) {
                proof {
                    assert(stops_at(entries, i as int, VfsErrorView::Raised(root_refused())));
                }
                return Err(refuse_root());
            }
            let outcome = entry.config.operator();
            let ghost before = access;
            match access.attach(entry, outcome) {
                Ok(_) => {},
                Err(e) => {
                    proof {
                        if before.mounts@.contains_key(entry.place()) {
                            let k = choose|k: int|
                                0 <= k < here.len() && (#[trigger] here[k]).place() == entry.place();
                            assert(entries[k].place() == entry.place());
                        }
                        assert(stops_at(entries, i as int, e@));
                    }
                    return Err(e);
                },
            }
            proof {
                assert forall|k: int| 0 <= k < i implies (#[trigger] entries[k]).place()
                    != entry.place() by {
                    assert(here[k] == entries[k]);
                    assert(before.mounts@.contains_key(here[k].place()));
                }
                lemma_attached(before, access, here, *entry);
            }
            i = i + 1;
        }
        proof {
            assert(entries.take(n as int) =~= entries);
        }
        Ok(access)
    }
}

/// A table that takes a mount in for an entry at a new path has the mounts of the entry too.
proof fn lemma_attached(
    before: MountAccess,
    after: MountAccess,
    entries: Seq<MountEntry>,
    entry: MountEntry,
)
    requires
        before.has_mounts(entries),
        !before.mounts@.contains_key(entry.place()),
        after.mounts@.contains_key(entry.place()),
        after.mounts@ == before.mounts@.insert(entry.place(), after.mounts@[entry.place()]),
        after.mounts@[entry.place()].configured_by(entry),
    ensures
        after.has_mounts(entries.push(entry)),
{
    let all = entries.push(entry);
    assert forall|i: int| 0 <= i < all.len() implies after.mounts@.contains_key(
        (#[trigger] all[i]).place(),
    ) && after.mounts@[all[i].place()].configured_by(all[i]) by {
        if i < entries.len() {
            assert(all[i] == entries[i]);
            assert(before.mounts@.contains_key(entries[i].place()));
        }
    }
    assert forall|path: Seq<char>| #[trigger] after.mounts@.contains_key(path) implies exists|i: int|
        0 <= i < all.len() && (#[trigger] all[i]).place() == path by {
        if path == entry.place() {
            assert(all[entries.len() as int].place() == path);
        } else {
            assert(before.mounts@.contains_key(path));
            let i = choose|i: int| 0 <= i < entries.len() && (#[trigger] entries[i]).place() == path;
            assert(all[i].place() == path);
        }
    }
}

/// Whatever the paths of a configuration look like, what is built from it is mounted at paths
/// that can be mounted at: absolute, with no trailing slash, and not the root.
pub proof fn law_mounts_are_mountable(access: MountAccess, entries: Seq<MountEntry>)
    requires
        access.has_mounts(entries),
        distinct_mounts(entries, entries.len() as int),
    ensures
        access.well_formed(),
{
    assert forall|mount: Seq<char>| #[trigger] access.mounts@.contains_key(mount) implies mountable(
        mount,
    ) by {
        let i = choose|i: int| 0 <= i < entries.len() && (#[trigger] entries[i]).place() == mount;
        law_normal_form(entries[i].path@);
    }
}

/// A mount that the configuration marks read-only refuses every change, and one that it does not
/// mark lets them pass.
pub proof fn law_configured_protection(
    access: MountAccess,
    entries: Seq<MountEntry>,
    i: int,
    path: Seq<char>,
)
    requires
        access.has_mounts(entries),
        0 <= i < entries.len(),
        access.owner(path) == Some(entries[i].place()),
    ensures
        access.change_refused(path) == (if entries[i].read_only {
            Some(denied_at(path))
        } else {
            None
        }),
{
}

/// An entry is mounted at a slash and its path without the slashes at the two ends, and copies of
/// an entry say the same.
pub proof fn law_entry_is_mounted_at_its_core(
    entry: MountEntry,
    front: Seq<char>,
    own: Seq<char>,
    back: Seq<char>,
    copy: MountEntry,
)
    requires
        entry.path@ == front + own + back,
        forall|i: int| 0 <= i < front.len() ==> #[trigger] front[i] == '/',
        forall|i: int| 0 <= i < back.len() ==> #[trigger] back[i] == '/',
        own.len() > 0 ==> own[0] != '/' && own[own.len() - 1] != '/',
    ensures
        entry.place() == seq!['/'] + own,
        copy.same_entry(entry) ==> copy.path@ == entry.path@ && copy.read_only == entry.read_only
            && copy.quota == entry.quota && copy.config.same_config(entry.config),
{
    law_normal_form_is_one_slash(front, own, back);
}

/// What is built has a mount for each entry, as the entry asks for it, and no other mount.
pub proof fn law_each_entry_is_mounted(
    access: MountAccess,
    entries: Seq<MountEntry>,
    i: int,
    mount: Seq<char>,
)
    requires
        access.has_mounts(entries),
    ensures
        0 <= i < entries.len() ==> access.mounts@.contains_key(normalized(entries[i].path@))
            && access.mounts@[normalized(entries[i].path@)].configured_by(entries[i]),
        access.mounts@.contains_key(mount) ==> exists|k: int|
            0 <= k < entries.len() && normalized((#[trigger] entries[k]).path@) == mount,
{
    if 0 <= i < entries.len() {
        assert(access.mounts@.contains_key(entries[i].place()));
    }
    if access.mounts@.contains_key(mount) {
        let k = choose|k: int| 0 <= k < entries.len() && (#[trigger] entries[k]).place() == mount;
        assert(normalized(entries[k].path@) == mount);
    }
}

/// Mounts are distinct exactly if none is at the root and no two are at one place.
pub proof fn law_distinct_mounts_have_places_of_their_own(mounts: Seq<MountEntry>, n: int)
    ensures
        distinct_mounts(mounts, n) <==> {
            &&& forall|i: int|
                0 <= i < n ==> normalized((#[trigger] mounts[i]).path@) != seq!['/']
            &&& forall|i: int, j: int|
                0 <= i < j < n ==> normalized((#[trigger] mounts[i]).path@) != normalized(
                    (#[trigger] mounts[j]).path@,
                )
        },
{
    if distinct_mounts(mounts, n) {
        assert forall|i: int| 0 <= i < n implies normalized((#[trigger] mounts[i]).path@) != seq![
            '/',
        ] by {
            assert(mounts[i].place() != root());
        }
        assert forall|i: int, j: int| 0 <= i < j < n implies normalized(
            (#[trigger] mounts[i]).path@,
        ) != normalized((#[trigger] mounts[j]).path@) by {
            assert(mounts[i].place() != mounts[j].place());
        }
    }
}

/// Building stops at a mount at the root for that reason, and at any other mount only if OpenDAL
/// refuses its service or an earlier mount is at its place. Of the mounts before it none is at the
/// root, and no two are at one place.
pub proof fn law_building_stops_for_a_reason(
    mounts: Seq<MountEntry>,
    n: int,
    error: VfsErrorView,
)
    requires
        stops_at(mounts, n, error),
    ensures
        0 <= n < mounts.len(),
        distinct_mounts(mounts, n),
        normalized(mounts[n].path@) == seq!['/'] ==> error == VfsErrorView::Raised(root_refused()),
        normalized(mounts[n].path@) != seq!['/'] && error is Backend
            ==> mounts[n].config.config.refused_with(error),
        normalized(mounts[n].path@) != seq!['/'] && error is Raised ==> {
            &&& error == VfsErrorView::Raised(duplicate_refused(normalized(mounts[n].path@)))
            &&& exists|i: int|
                0 <= i < n && normalized((#[trigger] mounts[i]).path@) == normalized(
                    mounts[n].path@,
                )
        },
{
    if mounts[n].place() != root() && error is Raised {
        let i = choose|i: int| 0 <= i < n && (#[trigger] mounts[i]).place() == mounts[n].place();
        assert(normalized(mounts[i].path@) == normalized(mounts[n].path@));
    }
}

/// What can be built: every configuration whose rates can all be used.
pub proof fn law_usable_rates_are_enough(mounts: Seq<MountEntry>)
    requires
        forall|i: int| 0 <= i < mounts.len() ==> (#[trigger] mounts[i]).config.usable(),
    ensures
        usable_mounts(mounts),
{
}

/// A copy of a configuration has the same mounts in the same order.
pub proof fn law_copies_have_the_same_mounts(a: VfsConfig, b: VfsConfig, i: int)
    requires
        a.same_mounts(b),
    ensures
        a.mounts@.len() == b.mounts@.len(),
        0 <= i < a.mounts@.len() ==> a.mounts@[i].same_entry(b.mounts@[i]),
{
}

} // verus!
