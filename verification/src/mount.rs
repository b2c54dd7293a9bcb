//! The mounts of a virtual file system: which one a request goes to, and what is answered where
//! there is none.
use vstd::prelude::*;
use vstd::string::*;

use crate::error::{fails_with, ErrorKind, Failure, FailureView, VfsError, VfsErrorView};
use crate::operator::{operator_layers, requested_options, requested_scheme};
use crate::path::{
    child_name, child_prefix, ends_in_two_slashes, entry_path, is_owner, law_ancestor_lists_mount,
    law_listed_entry_resolves, law_normal_form, law_owner_unique, law_relative_rebases_back,
    law_trailing_slash_is_kept, law_what_can_be_mounted_at, lemma_mountable, mountable, name_under,
    normalize, normalized, owns, rebase, rebased, relative, relative_to, root, virtual_entry,
};
use crate::table::{ascending, lemma_less_irreflexive, listing, same, text_less, Table};
use crate::text::{
    lemma_first_part, lemma_stripped, split, stripped, views, without_leading, without_trailing,
    CharClass,
};
use crate::vfs::{MountEntry, VfsQuota};

verus! {

/// An operator at its place in the virtual file system.
pub struct Mount {
    /// The operator, without the layers for the quota and the write protection.
    pub operator: opendal::Operator,
    /// Whether everything that would change the mount is rejected.
    pub read_only: bool,
    /// The quota on the bytes written to the mount.
    pub quota: VfsQuota,
}

impl Mount {
    /// Whether the mount is the one that `entry` asks for.
    pub open spec fn configured_by(self, entry: MountEntry) -> bool {
        &&& requested_scheme(self.operator) == entry.config.config.name@
        &&& requested_options(self.operator) == listing(entry.config.config.options)
        &&& operator_layers(self.operator) == entry.config.layers()
        &&& self.read_only == entry.read_only
        &&& self.quota == entry.quota
    }
}

/// What an attempt to mount at the virtual root is answered.
pub open spec fn root_refused() -> FailureView {
    FailureView::new(ErrorKind::ConfigInvalid, "cannot mount at the virtual root '/'"@)
}

/// What an attempt to mount twice at `path` is answered.
pub open spec fn duplicate_refused(path: Seq<char>) -> FailureView {
    FailureView::new(ErrorKind::ConfigInvalid, "duplicate mount path"@).with_context("path"@, path)
}

/// Tells whether a mount path is that of the virtual root.
pub(crate) fn is_virtual_root(path: &str) -> (r: bool)
    ensures
        r == (path@ == root()),
{
    proof {
        reveal_strlit("/");
        assert("/"@ =~= root());
    }
    same(path, "/")
}

/// What an attempt to mount at the virtual root is answered.
pub(crate) fn refuse_root() -> (r: VfsError)
    ensures
        r@ == VfsErrorView::Raised(root_refused()),
{
    VfsError::Raised(
        Failure::new(ErrorKind::ConfigInvalid, "cannot mount at the virtual root '/'"),
    )
}

/// The mounts of a virtual file system.
pub struct MountAccess {
    /// The mounts, each under its path.
    pub mounts: Table<Mount>,
}

impl MountAccess {
    /// Whether the mounts are those that `entries` ask for, each at the normal form of its path.
    pub open spec fn has_mounts(self, entries: Seq<MountEntry>) -> bool {
        &&& forall|i: int|
            0 <= i < entries.len() ==> self.mounts@.contains_key((#[trigger] entries[i]).place())
                && self.mounts@[entries[i].place()].configured_by(entries[i])
        &&& forall|path: Seq<char>| #[trigger]
            self.mounts@.contains_key(path) ==> exists|i: int|
                0 <= i < entries.len() && (#[trigger] entries[i]).place() == path
    }

    /// Whether all mounts are at paths that can be mounted at: absolute, with no trailing slash,
    /// and not the root.
    pub open spec fn well_formed(self) -> bool {
        forall|mount: Seq<char>| #[trigger]
            self.mounts@.contains_key(mount) ==> mountable(mount)
    }

    /// No mounts at all.
    pub fn empty() -> (r: MountAccess)
        ensures
            r.mounts@ == Map::<Seq<char>, Mount>::empty(),
            r.well_formed(),
    {
        MountAccess { mounts: Table::new() }
    }

    /// Takes the mount of `entry` in, at the normal form of its path, where `outcome` is what
    /// creating its operator gave. A mount at the root or at a path that is taken is refused.
    pub fn attach(
        &mut self,
        entry: &MountEntry,
        outcome: Result<opendal::Operator, VfsError>,
    ) -> (r: Result<(), VfsError>)
        ensures
            r is Err ==> final(self).mounts@ == old(self).mounts@,
            old(self).well_formed() ==> final(self).well_formed(),
            if entry.place() == root() {
                fails_with(r, root_refused())
            } else {
                match outcome {
                    Err(e) => r == Err::<(), VfsError>(e),
                    Ok(operator) => if old(self).mounts@.contains_key(entry.place()) {
                        fails_with(r, duplicate_refused(entry.place()))
                    } else {
                        &&& r is Ok
                        &&& final(self).mounts@ == old(self).mounts@.insert(
                            entry.place(),
                            Mount { operator, read_only: entry.read_only, quota: entry.quota },
                        )
                    },
                }
            },
    {
        let path = normalize(entry.path.as_str());
        if is_virtual_root(path.as_str()) {
            return Err(refuse_root());
        }
        proof {
            law_normal_form(entry.path@);
        }
        match outcome {
            Err(e) => Err(e),
            Ok(operator) => {
                if self.mounts.get(path.as_str()).is_some() {
                    return Err(
                        VfsError::Raised(
                            Failure::new(
                                ErrorKind::ConfigInvalid,
                                "duplicate mount path",
                            ).with_context("path", path.as_str()),
                        ),
                    );
                }
                let mount = Mount {
                    operator,
                    read_only: entry.read_only,
                    quota: entry.quota.clone(),
                };
                self.mounts.insert(path, mount);
                Ok(())
            },
        }
    }
}

/// What a request on a path that no mount covers is answered.
pub open spec fn not_found_at(path: Seq<char>) -> FailureView {
    FailureView::new(ErrorKind::NotFound, "no mount covers this path"@).with_context("path"@, path)
}

/// What a request that would change a read-only mount is answered.
pub open spec fn denied_at(path: Seq<char>) -> FailureView {
    FailureView::new(ErrorKind::PermissionDenied, "mount is read-only"@).with_context(
        "path"@,
        path,
    )
}

/// What a request for an operation that no mount offers is answered.
pub open spec fn unsupported() -> FailureView {
    FailureView::new(ErrorKind::Unsupported, "operation is not supported"@)
}

/// What a request on a path that no mount covers is answered.
fn not_found(path: &str) -> (r: VfsError)
    ensures
        r@ == VfsErrorView::Raised(not_found_at(path@)),
{
    VfsError::Raised(
        Failure::new(ErrorKind::NotFound, "no mount covers this path").with_context("path", path),
    )
}

/// What a request that would change a read-only mount is answered.
fn permission_denied(path: &str) -> (r: VfsError)
    ensures
        r@ == VfsErrorView::Raised(denied_at(path@)),
{
    VfsError::Raised(
        Failure::new(ErrorKind::PermissionDenied, "mount is read-only").with_context("path", path),
    )
}

/// The operations of a storage operator.
#[derive(Clone, Copy, Debug, PartialEq, Eq, Structural)]
pub enum Operation {
    /// Create a directory.
    CreateDir,
    /// Ask what stands at a path.
    Stat,
    /// Read a file.
    Read,
    /// Write a file.
    Write,
    /// Delete what stands at a path.
    Delete,
    /// List a directory.
    List,
    /// Rename a file.
    Rename,
    /// Copy a file.
    Copy,
}

/// Where a request goes: to the operator of a mount, under a path of its own.
#[derive(Debug)]
pub struct Target {
    /// The position of the mount among the mounts, which are in the order of their paths.
    pub mount: usize,
    /// The path, relative to the root of the mount.
    pub path: String,
}

/// How to find out what stands at a path.
#[derive(Debug)]
pub enum StatPlan {
    /// A directory stands there.
    Directory,
    /// The operator of a mount knows.
    Ask(Target),
}

/// The listing of a directory.
#[derive(Debug)]
pub enum MountLister {
    /// A directory in a mount.
    Real {
        /// The directory, which the operator of its mount lists.
        target: Target,
        /// The path of the mount.
        mount_path: String,
    },
    /// A virtual directory.
    Virtual {
        /// The paths of the entries that are still to come, the next one last.
        entries: Vec<String>,
    },
}

impl MountLister {
    /// The next entry of the listing. In a mount, `event` is what the operator's own listing
    /// gave next: the path of an entry, an error, or its end.
    pub fn next(&mut self, event: Option<Result<String, VfsError>>) -> (r: Result<
        Option<String>,
        VfsError,
    >)
        ensures
            match *old(self) {
                MountLister::Real { target, mount_path } => {
                    &&& *final(self) == *old(self)
                    &&& match event {
                        Some(Ok(path)) => r matches Ok(Some(entry)) && entry@ == rebased(
                            mount_path@,
                            path@,
                        ),
                        Some(Err(e)) => r == Err::<Option<String>, VfsError>(e),
                        None => r == Ok::<Option<String>, VfsError>(None),
                    }
                },
                MountLister::Virtual { entries } => *final(self) matches MountLister::Virtual {
                    entries: left,
                } && if entries@.len() == 0 {
                    &&& left@ == entries@
                    &&& r == Ok::<Option<String>, VfsError>(None)
                } else {
                    &&& left@ == entries@.drop_last()
                    &&& r == Ok::<Option<String>, VfsError>(Some(entries@.last()))
                },
            },
    {
        match self {
            MountLister::Real { mount_path, .. } => match event {
                Some(Ok(path)) => Ok(Some(rebase(mount_path.as_str(), path.as_str()))),
                Some(Err(e)) => Err(e),
                None => Ok(None),
            },
            MountLister::Virtual { entries } => Ok(entries.pop()),
        }
    }
}

impl MountAccess {
    /// Whether some mount owns `path`.
    pub open spec fn covered(self, path: Seq<char>) -> bool {
        exists|mount: Seq<char>| #[trigger]
            self.mounts@.contains_key(mount) && owns(mount, normalized(path))
    }

    /// Whether the mount at `mount` is the longest one that owns `path`.
    pub open spec fn routes(self, path: Seq<char>, mount: Seq<char>) -> bool {
        &&& self.mounts@.contains_key(mount)
        &&& owns(mount, normalized(path))
        &&& forall|other: Seq<char>| #[trigger]
            self.mounts@.contains_key(other) && owns(other, normalized(path)) ==> other.len()
                <= mount.len()
    }

    /// The path of the mount that requests on `path` go to, if some mount owns it.
    pub open spec fn owner(self, path: Seq<char>) -> Option<Seq<char>> {
        if self.covered(path) {
            Some(choose|mount: Seq<char>| self.routes(path, mount))
        } else {
            None
        }
    }

    /// Whether `target` is where requests on `path` go if the mount at `mount` owns it.
    pub open spec fn reaches(self, target: Target, mount: Seq<char>, path: Seq<char>) -> bool {
        &&& target.mount < self.mounts.keys().len()
        &&& self.mounts.keys()[target.mount as int] == mount
        &&& target.path@ == relative(mount, path)
    }

    /// The mount that is the longest owner is the one that requests go to.
    proof fn lemma_owner(self, path: Seq<char>, mount: Seq<char>)
        requires
            self.routes(path, mount),
        ensures
            self.owner(path) == Some(mount),
    {
        let chosen = choose|m: Seq<char>| self.routes(path, m);
        assert(self.routes(path, chosen));
        assert(self.covered(path));
        law_owner_unique(mount, chosen, normalized(path));
    }

    /// Find the mount that owns `path`, and the path made relative to that mount's root. If
    /// several mounts own it, the longest (most specific) one wins.
    pub fn resolve(&self, path: &str) -> (r: Option<Target>)
        ensures
            match r {
                Some(target) => {
                    let mount = self.mounts.keys()[target.mount as int];
                    &&& self.routes(path@, mount)
                    &&& self.owner(path@) == Some(mount)
                    &&& self.reaches(target, mount, path@)
                },
                None => self.owner(path@) is None,
            },
    {
        let normal = normalize(path);
        let n: usize = self.mounts.len();
        let mut best: Option<usize> = None;
        let mut i: usize = 0;
        while i < n
            invariant
                i <= n,
                n == self.mounts.keys().len(),
                self.mounts.consistent(),
                normal@ == normalized(path@),
                match best {
                    Some(b) => {
                        &&& b < i
                        &&& owns(self.mounts.keys()[b as int], normal@)
                        &&& forall|j: int|
                            0 <= j < i && owns(#[trigger] self.mounts.keys()[j], normal@) ==> (
                            self.mounts.keys()[j].len() <= self.mounts.keys()[b as int].len())
                    },
                    None => forall|j: int|
                        0 <= j < i ==> !owns(#[trigger] self.mounts.keys()[j], normal@),
                },
            decreases n - i,
        {
            let mount = self.mounts.key_at(i);
            if is_owner(mount.as_str(), normal.as_str()) {
                match best {
                    Some(b) => {
                        if self.mounts.key_at(b).as_str().unicode_len()
                            <= mount.as_str().unicode_len() {
                            best = Some(i);
                        }
                    },
                    None => {
                        best = Some(i);
                    },
                }
            }
            i = i + 1;
        }
        proof {
            assert forall|mount: Seq<char>| #[trigger]
                self.mounts@.contains_key(mount) implies self.mounts.keys().contains(mount) by {
                assert(self.mounts@.dom().contains(mount));
            }
        }
        match best {
            Some(b) => {
                let mount = self.mounts.key_at(b);
                proof {
                    assert(self.routes(path@, mount@));
                    self.lemma_owner(path@, mount@);
                }
                Some(Target { mount: b, path: relative_to(mount.as_str(), path) })
            },
            None => None,
        }
    }

    /// Whether the virtual directory at `path` lists `name`: some mount lies under it there.
    pub open spec fn lists(self, path: Seq<char>, name: Seq<char>) -> bool {
        exists|mount: Seq<char>| #[trigger]
            self.mounts@.contains_key(mount) && child_name(mount, path) == Some(name)
    }

    /// Whether `path` is a virtual directory: the root, or one with a mount under it.
    pub open spec fn virtual_directory(self, path: Seq<char>) -> bool {
        normalized(path) == root() || exists|name: Seq<char>| #[trigger] self.lists(path, name)
    }

    /// Whether `names` are the names that the virtual directory at `path` lists, in order.
    pub open spec fn children(self, path: Seq<char>, names: Seq<Seq<char>>) -> bool {
        &&& ascending(names)
        &&& forall|name: Seq<char>| #[trigger] names.contains(name) <==> self.lists(path, name)
    }

    /// The names that the virtual directory at `path` lists, if it is one.
    pub fn virtual_children(&self, path: &str) -> (r: Option<Vec<String>>)
        ensures
            match r {
                Some(names) => self.virtual_directory(path@) && self.children(
                    path@,
                    views(names@),
                ),
                None => !self.virtual_directory(path@),
            },
    {
        let normal = normalize(path);
        let n: usize = self.mounts.len();
        let mut found: Table<()> = Table::new();
        let mut i: usize = 0;
        while i < n
            invariant
                i <= n,
                n == self.mounts.keys().len(),
                self.mounts.consistent(),
                forall|name: Seq<char>| #[trigger]
                    found@.contains_key(name) <==> exists|j: int|
                        0 <= j < i && child_name(#[trigger] self.mounts.keys()[j], path@) == Some(
                            name,
                        ),
            decreases n - i,
        {
            let mount = self.mounts.key_at(i);
            let ghost before = found@;
            match name_under(mount.as_str(), path) {
                Some(name) => {
                    let ghost key = name@;
                    found.insert(name, ());
                    proof {
                        assert forall|other: Seq<char>| #[trigger]
                            found@.contains_key(other) <==> exists|j: int|
                                0 <= j < i + 1 && child_name(
                                    #[trigger] self.mounts.keys()[j],
                                    path@,
                                ) == Some(other) by {
                            if other == key {
                                assert(child_name(self.mounts.keys()[i as int], path@) == Some(
                                    other,
                                ));
                            } else {
                                assert(found@.contains_key(other) == before.contains_key(other));
                            }
                        }
                    }
                },
                None => {},
            }
            i = i + 1;
        }
        let names = found.key_texts();
        proof {
            assert forall|name: Seq<char>| #[trigger]
                views(names@).contains(name) <==> self.lists(path@, name) by {
                assert(views(names@).contains(name) == found@.contains_key(name)) by {
                    assert(found@.dom().contains(name) == found.keys().to_set().contains(name));
                }
                if found@.contains_key(name) {
                    let j = choose|j: int|
                        0 <= j < n && child_name(#[trigger] self.mounts.keys()[j], path@) == Some(
                            name,
                        );
                    assert(self.mounts.keys().to_set().contains(self.mounts.keys()[j]));
                    assert(self.mounts@.contains_key(self.mounts.keys()[j]));
                }
                if self.lists(path@, name) {
                    let mount = choose|mount: Seq<char>| #[trigger]
                        self.mounts@.contains_key(mount) && child_name(mount, path@) == Some(name);
                    assert(self.mounts@.dom().contains(mount));
                    let j = self.mounts.keys().index_of(mount);
                    assert(self.mounts.keys()[j] == mount);
                }
            }
        }
        if names.len() == 0 && !is_virtual_root(normal.as_str()) {
            proof {
                assert forall|name: Seq<char>| !#[trigger] self.lists(path@, name) by {
                    assert(!views(names@).contains(name));
                }
            }
            None
        } else {
            proof {
                if names@.len() > 0 {
                    assert(views(names@).contains(views(names@)[0]));
                    assert(self.lists(path@, views(names@)[0]));
                }
            }
            Some(names)
        }
    }
}

impl MountAccess {
    /// Why a request that would change what stands at `path` is refused, if it is.
    pub open spec fn change_refused(self, path: Seq<char>) -> Option<FailureView> {
        match self.owner(path) {
            None => Some(not_found_at(path)),
            Some(mount) => if self.mounts@[mount].read_only {
                Some(denied_at(path))
            } else {
                None
            },
        }
    }

    /// Whether `r` answers a request that would change what stands at `path`: it goes to the
    /// mount that owns the path, unless that is read-only or there is none.
    pub open spec fn answers_change(self, path: Seq<char>, r: Result<Target, VfsError>) -> bool {
        match self.change_refused(path) {
            Some(failure) => fails_with(r, failure),
            None => r matches Ok(target) && self.reaches(target, self.owner(path)->0, path),
        }
    }

    /// Whether `r` answers the question what stands at `path`: a mount and a virtual directory
    /// are directories, and what lies in a mount its operator knows.
    pub open spec fn answers_stat(self, path: Seq<char>, r: Result<StatPlan, VfsError>) -> bool {
        match self.owner(path) {
            Some(mount) => if normalized(path) == mount {
                r matches Ok(StatPlan::Directory)
            } else {
                r matches Ok(StatPlan::Ask(target)) && self.reaches(target, mount, path)
            },
            None => if self.virtual_directory(path) {
                r matches Ok(StatPlan::Directory)
            } else {
                fails_with(r, not_found_at(path))
            },
        }
    }

    /// Whether `r` answers a request to list `path`: a directory in a mount its operator lists,
    /// and a virtual directory lists the names under it.
    pub open spec fn answers_list(self, path: Seq<char>, r: Result<MountLister, VfsError>) -> bool {
        match self.owner(path) {
            Some(mount) => r matches Ok(MountLister::Real { target, mount_path }) && mount_path@
                == mount && self.reaches(target, mount, path),
            None => if self.virtual_directory(path) {
                r matches Ok(MountLister::Virtual { entries }) && self.virtual_listing(
                    path,
                    views(entries@),
                )
            } else {
                fails_with(r, not_found_at(path))
            },
        }
    }

    /// Whether `entries` are the paths of what the virtual directory at `path` lists.
    pub open spec fn virtual_listing(self, path: Seq<char>, entries: Seq<Seq<char>>) -> bool {
        exists|names: Seq<Seq<char>>| #[trigger]
            self.children(path, names) && entries == names.map_values(
                |name: Seq<char>| virtual_entry(path, name),
            )
    }

    /// Decides on a request that would change what stands at `path`.
    fn change(&self, path: &str) -> (r: Result<Target, VfsError>)
        ensures
            self.answers_change(path@, r),
            self.owner(path@) matches Some(mount) ==> self.routes(path@, mount),
    {
        match self.resolve(path) {
            Some(target) => {
                if self.mounts.value_at(target.mount).read_only {
                    Err(permission_denied(path))
                } else {
                    Ok(target)
                }
            },
            None => Err(not_found(path)),
        }
    }

    /// Decides on a request to create a directory.
    pub fn create_dir(&self, path: &str) -> (r: Result<Target, VfsError>)
        ensures
            self.answers_change(path@, r),
            self.owner(path@) matches Some(mount) ==> self.routes(path@, mount),
    {
        self.change(path)
    }

    /// Decides on a request to write a file.
    pub fn write(&self, path: &str) -> (r: Result<Target, VfsError>)
        ensures
            self.answers_change(path@, r),
            self.owner(path@) matches Some(mount) ==> self.routes(path@, mount),
    {
        self.change(path)
    }

    /// Decides on a request to delete what stands at `path`. Each path of a batch is decided on
    /// by itself, since a batch can span several mounts.
    pub fn delete(&self, path: &str) -> (r: Result<Target, VfsError>)
        ensures
            self.answers_change(path@, r),
            self.owner(path@) matches Some(mount) ==> self.routes(path@, mount),
    {
        self.change(path)
    }

    /// Why a request to rename or to copy is refused on account of one of its paths, if it is. A
    /// path that no mount owns is found nonetheless where it is a virtual directory.
    pub open spec fn transfer_refused(self, path: Seq<char>) -> Option<FailureView> {
        if self.owner(path) is None && self.virtual_directory(path) {
            None
        } else {
            self.change_refused(path)
        }
    }

    /// Finds out why a request to rename or to copy is refused on account of `path`, if it is.
    fn refuse_transfer(&self, path: &str) -> (r: Option<VfsError>)
        ensures
            match self.transfer_refused(path@) {
                Some(failure) => r matches Some(e) && e@ == VfsErrorView::Raised(failure),
                None => r is None,
            },
    {
        match self.resolve(path) {
            Some(target) => {
                if self.mounts.value_at(target.mount).read_only {
                    Some(permission_denied(path))
                } else {
                    None
                }
            },
            None => {
                if self.virtual_children(path).is_some() {
                    None
                } else {
                    Some(not_found(path))
                }
            },
        }
    }

    /// Decides on a request to rename or to copy `from` to `to`, which no mount offers. That a
    /// path is not found or lies in a read-only mount is said first.
    pub fn transfer(&self, from: &str, to: &str) -> (r: VfsError)
        ensures
            r@ == VfsErrorView::Raised(
                match self.transfer_refused(from@) {
                    Some(failure) => failure,
                    None => match self.transfer_refused(to@) {
                        Some(failure) => failure,
                        None => unsupported(),
                    },
                },
            ),
    {
        match self.refuse_transfer(from) {
            Some(e) => e,
            None => match self.refuse_transfer(to) {
                Some(e) => e,
                None => VfsError::Raised(
                    Failure::new(ErrorKind::Unsupported, "operation is not supported"),
                ),
            },
        }
    }

    /// Decides how to find out what stands at `path`.
    pub fn metadata(&self, path: &str) -> (r: Result<StatPlan, VfsError>)
        ensures
            self.answers_stat(path@, r),
            self.owner(path@) matches Some(mount) ==> self.routes(path@, mount),
    {
        if let Some(target) = self.resolve(path) {
            let normal = normalize(path);
            let mount_path = self.mounts.key_at(target.mount);
            if same(normal.as_str(), mount_path.as_str()) && target.path.as_str().is_empty() {
                return Ok(StatPlan::Directory);
            }
            proof {
                lemma_owner_relative_to_itself(mount_path@, path@);
            }
            return Ok(StatPlan::Ask(target));
        }
        if self.virtual_children(path).is_some() {
            return Ok(StatPlan::Directory);
        }
        Err(not_found(path))
    }

    /// Decides on a request to read: what stands at the path is asked for first, then the
    /// operator of the mount reads it.
    pub fn read(&self, path: &str) -> (r: Result<(StatPlan, Target), VfsError>)
        ensures
            match self.owner(path@) {
                Some(mount) => r matches Ok((plan, target)) && self.answers_stat(
                    path@,
                    Ok(plan),
                ) && self.reaches(target, mount, path@),
                None => fails_with(r, not_found_at(path@)),
            },
            self.owner(path@) matches Some(mount) ==> self.routes(path@, mount),
    {
        let plan = match self.metadata(path) {
            Ok(plan) => plan,
            Err(e) => {
                return Err(e);
            },
        };
        match self.resolve(path) {
            Some(target) => Ok((plan, target)),
            None => Err(not_found(path)),
        }
    }

    /// Decides on a request to list a directory.
    pub fn list(&self, path: &str) -> (r: Result<MountLister, VfsError>)
        ensures
            self.answers_list(path@, r),
            self.owner(path@) matches Some(mount) ==> self.routes(path@, mount),
    {
        if let Some(target) = self.resolve(path) {
            let mount_path = self.mounts.key_at(target.mount).clone();
            return Ok(MountLister::Real { target, mount_path });
        }
        match self.virtual_children(path) {
            Some(names) => {
                let ghost all = views(names@);
                let n: usize = names.len();
                let mut entries: Vec<String> = Vec::new();
                let mut i: usize = 0;
                while i < n
                    invariant
                        i <= n,
                        n == names@.len(),
                        all == views(names@),
                        views(entries@) == all.take(i as int).map_values(
                            |name: Seq<char>| virtual_entry(path@, name),
                        ),
                    decreases n - i,
                {
                    let ghost before = entries@;
                    let entry = entry_path(path, names[i].as_str());
                    entries.push(entry);
                    proof {
                        assert(views(entries@) =~= views(before).push(entry@));
                        assert(all.take(i + 1) =~= all.take(i as int).push(all[i as int]));
                        assert(all[i as int] == names@[i as int]@);
                        assert(views(entries@) =~= all.take(i + 1).map_values(
                            |name: Seq<char>| virtual_entry(path@, name),
                        ));
                    }
                    i = i + 1;
                }
                proof {
                    assert(all.take(n as int) =~= all);
                    assert(self.virtual_listing(path@, views(entries@)));
                }
                Ok(MountLister::Virtual { entries })
            },
            None => Err(not_found(path)),
        }
    }

    /// Whether the virtual file system offers an operation.
    pub open spec fn offers(op: Operation) -> bool {
        !(op is Rename) && !(op is Copy)
    }

    /// Tells whether the virtual file system offers an operation.
    pub fn supports(op: Operation) -> (r: bool)
        ensures
            r == MountAccess::offers(op),
    {
        match op {
            Operation::Rename => false,
            Operation::Copy => false,
            _ => true,
        }
    }
}

/// The path of a mount is the root of that mount.
proof fn lemma_owner_relative_to_itself(mount: Seq<char>, path: Seq<char>)
    ensures
        normalized(path) == mount ==> relative(mount, path).len() == 0,
{
    if normalized(path) == mount {
        assert(normalized(path).skip(mount.len() as int) =~= Seq::<char>::empty());
    }
}

/// Of the first `n` mounts that own a path, one is at least as long as the others.
proof fn lemma_longest_owner(keys: Seq<Seq<char>>, path: Seq<char>, n: int) -> (best: int)
    requires
        0 <= n <= keys.len(),
        exists|i: int| 0 <= i < n && owns(#[trigger] keys[i], path),
    ensures
        0 <= best < n,
        owns(keys[best], path),
        forall|i: int|
            0 <= i < n && owns(#[trigger] keys[i], path) ==> keys[i].len() <= keys[best].len(),
    decreases n,
{
    if exists|i: int| 0 <= i < n - 1 && owns(#[trigger] keys[i], path) {
        let best = lemma_longest_owner(keys, path, n - 1);
        if owns(keys[n - 1], path) && keys[n - 1].len() > keys[best].len() {
            n - 1
        } else {
            best
        }
    } else {
        n - 1
    }
}

/// Requests on a path that some mount owns go to the longest such mount.
pub proof fn law_longest_mount_wins(access: MountAccess, path: Seq<char>)
    requires
        access.mounts.consistent(),
        access.covered(path),
    ensures
        access.owner(path) matches Some(mount) && access.routes(path, mount),
        forall|mount: Seq<char>|
            access.routes(path, mount) ==> access.owner(path) == Some(mount),
{
    let keys = access.mounts.keys();
    let n = normalized(path);
    let mount = choose|mount: Seq<char>| #[trigger]
        access.mounts@.contains_key(mount) && owns(mount, n);
    assert(access.mounts@.dom().contains(mount));
    assert(keys[keys.index_of(mount)] == mount);
    let best = lemma_longest_owner(keys, n, keys.len() as int);
    assert(keys.to_set().contains(keys[best]));
    assert(access.mounts@.dom().contains(keys[best]));
    assert forall|other: Seq<char>| #[trigger]
        access.mounts@.contains_key(other) && owns(other, n) implies other.len()
        <= keys[best].len() by {
        assert(access.mounts@.dom().contains(other));
        assert(keys[keys.index_of(other)] == other);
    }
    assert(access.routes(path, keys[best]));
    assert forall|mount: Seq<char>| access.routes(path, mount) implies access.owner(path) == Some(
        mount,
    ) by {
        access.lemma_owner(path, mount);
    }
}

/// Whatever is asked of a path, the request goes to one place: what was written under a path is
/// read, listed and deleted under it.
pub proof fn law_requests_agree(access: MountAccess, path: Seq<char>, a: Target, b: Target)
    requires
        access.mounts.consistent(),
        access.answers_change(path, Ok(a)),
        access.reaches(b, access.owner(path)->0, path),
    ensures
        a.mount == b.mount,
        a.path@ == b.path@,
{
    let keys = access.mounts.keys();
    assert(keys[a.mount as int] == keys[b.mount as int]);
}

/// Two paths that reach one place are the same path: nothing that is written under one path
/// shows up under another. Paths with a second slash right behind the mount are left out: it is
/// dropped.
pub proof fn law_paths_do_not_collide(
    access: MountAccess,
    mount: Seq<char>,
    p: Seq<char>,
    q: Seq<char>,
)
    requires
        access.well_formed(),
        access.routes(p, mount),
        access.routes(q, mount),
        normalized(p).len() > mount.len() + 1 ==> normalized(p)[mount.len() as int + 1] != '/',
        normalized(q).len() > mount.len() + 1 ==> normalized(q)[mount.len() as int + 1] != '/',
        relative(mount, p) == relative(mount, q),
    ensures
        normalized(p) == normalized(q),
{
    law_relative_rebases_back(mount, p);
    law_relative_rebases_back(mount, q);
}

/// A read-only mount refuses every request that would change it.
pub proof fn law_read_only_refuses_changes(access: MountAccess, path: Seq<char>, mount: Seq<char>)
    requires
        access.owner(path) == Some(mount),
        access.mounts@[mount].read_only,
    ensures
        forall|r: Result<Target, VfsError>| #[trigger]
            access.answers_change(path, r) ==> fails_with(r, denied_at(path)),
        access.transfer_refused(path) == Some(denied_at(path)),
{
}

/// Whether a mount is read-only makes no difference to what can be asked of it.
pub proof fn law_read_only_allows_reads(a: MountAccess, b: MountAccess, path: Seq<char>)
    requires
        a.mounts.consistent(),
        b.mounts.consistent(),
        a.mounts.keys() == b.mounts.keys(),
    ensures
        a.owner(path) == b.owner(path),
        forall|r: Result<StatPlan, VfsError>|
            #![trigger a.answers_stat(path, r)]
            #![trigger b.answers_stat(path, r)]
            a.answers_stat(path, r) == b.answers_stat(path, r),
        forall|r: Result<MountLister, VfsError>|
            #![trigger a.answers_list(path, r)]
            #![trigger b.answers_list(path, r)]
            a.answers_list(path, r) == b.answers_list(path, r),
{
    assert(a.mounts@.dom() == b.mounts@.dom());
    assert forall|mount: Seq<char>| #[trigger]
        a.mounts@.contains_key(mount) == b.mounts@.contains_key(mount) by {
        assert(a.mounts@.dom().contains(mount) == b.mounts@.dom().contains(mount));
    }
    assert forall|mount: Seq<char>| #[trigger]
        a.routes(path, mount) == b.routes(path, mount) by {}
    if a.covered(path) {
        law_longest_mount_wins(a, path);
        assert(b.covered(path));
        law_longest_mount_wins(b, path);
    } else {
        assert(!b.covered(path));
    }
    assert forall|name: Seq<char>| #[trigger] a.lists(path, name) == b.lists(path, name) by {}
    assert forall|names: Seq<Seq<char>>| #[trigger]
        a.children(path, names) == b.children(path, names) by {}
    assert forall|entries: Seq<Seq<char>>| #[trigger]
        a.virtual_listing(path, entries) == b.virtual_listing(path, entries) by {
        let entry = |name: Seq<char>| virtual_entry(path, name);
        if a.virtual_listing(path, entries) {
            let names = choose|names: Seq<Seq<char>>| #[trigger]
                a.children(path, names) && entries == names.map_values(entry);
            assert(b.children(path, names));
        }
        if b.virtual_listing(path, entries) {
            let names = choose|names: Seq<Seq<char>>| #[trigger]
                b.children(path, names) && entries == names.map_values(entry);
            assert(a.children(path, names));
        }
    }
    assert(a.virtual_directory(path) == b.virtual_directory(path)) by {
        if a.virtual_directory(path) && normalized(path) != root() {
            let name = choose|name: Seq<char>| #[trigger] a.lists(path, name);
            assert(b.lists(path, name));
        }
        if b.virtual_directory(path) && normalized(path) != root() {
            let name = choose|name: Seq<char>| #[trigger] b.lists(path, name);
            assert(a.lists(path, name));
        }
    }
}

/// A path that no mount owns and that is no virtual directory is not found, whatever is asked.
pub proof fn law_elsewhere_is_not_found(access: MountAccess, path: Seq<char>)
    requires
        !access.covered(path),
        !access.virtual_directory(path),
    ensures
        forall|r: Result<Target, VfsError>| #[trigger]
            access.answers_change(path, r) ==> fails_with(r, not_found_at(path)),
        forall|r: Result<StatPlan, VfsError>| #[trigger]
            access.answers_stat(path, r) ==> fails_with(r, not_found_at(path)),
        forall|r: Result<MountLister, VfsError>| #[trigger]
            access.answers_list(path, r) ==> fails_with(r, not_found_at(path)),
        access.transfer_refused(path) == Some(not_found_at(path)),
{
}

/// The directory above a mount is a virtual directory that lists the mount's next segment.
pub proof fn law_mount_is_listed_above(
    access: MountAccess,
    path: Seq<char>,
    segment: Seq<char>,
    rest: Seq<char>,
)
    requires
        access.mounts@.contains_key(child_prefix(path) + (segment + rest)),
        segment.len() > 0,
        !segment.contains('/'),
        rest.len() > 0 ==> rest.first() == '/',
    ensures
        access.lists(path, segment),
        access.virtual_directory(path),
{
    law_ancestor_lists_mount(path, segment, rest);
    assert(access.lists(path, segment));
}

/// What a mount lists can be asked for again under the path it is listed with: the request goes
/// to the same mount, under the entry's own path. Entries that a longer mount hides are left
/// out, and so are those that end in two slashes.
pub proof fn law_listed_entry_comes_back(access: MountAccess, mount: Seq<char>, entry: Seq<char>)
    requires
        access.well_formed(),
        access.mounts@.contains_key(mount),
        !ends_in_two_slashes(without_leading(entry, CharClass::Slash)),
        forall|other: Seq<char>| #[trigger]
            access.mounts@.contains_key(other) && owns(other, normalized(rebased(mount, entry)))
                ==> other.len() <= mount.len(),
    ensures
        access.owner(rebased(mount, entry)) == Some(mount),
        relative(mount, rebased(mount, entry)) == without_leading(entry, CharClass::Slash),
{
    law_listed_entry_resolves(mount, entry);
    access.lemma_owner(rebased(mount, entry), mount);
}

/// What a virtual directory lists stands there: each entry lies in a mount or is a virtual
/// directory itself. Empty names, which two slashes in a row make, are left out.
pub proof fn law_virtual_entry_stands(access: MountAccess, path: Seq<char>, name: Seq<char>)
    requires
        access.lists(path, name),
        name.len() > 0,
        access.well_formed(),
    ensures
        access.covered(virtual_entry(path, name)) || access.virtual_directory(
            virtual_entry(path, name),
        ),
{
    let mount = choose|mount: Seq<char>| #[trigger]
        access.mounts@.contains_key(mount) && child_name(mount, path) == Some(name);
    let prefix = child_prefix(path);
    let rest = mount.skip(prefix.len() as int);
    let entry = virtual_entry(path, name);
    lemma_first_part(rest, '/');
    lemma_entry_normal_form(path, name);
    assert(mount =~= prefix + rest);
    if name == rest {
        assert(normalized(entry) == mount);
        assert(owns(mount, normalized(entry)));
    } else {
        let deeper = normalized(entry).push('/');
        assert(normalized(entry) != root()) by {
            assert(normalized(entry).len() > 1);
        }
        assert(child_prefix(entry) == deeper);
        assert(name == rest.subrange(0, name.len() as int));
        assert(rest.len() > name.len()) by {
            if rest.len() == name.len() {
                assert(rest.subrange(0, name.len() as int) =~= rest);
            }
        }
        assert forall|i: int| 0 <= i < deeper.len() implies deeper[i] == mount[i] by {
            if prefix.len() <= i < prefix.len() + name.len() {
                assert(name[i - prefix.len()] == rest[i - prefix.len()]);
            }
        }
        assert(deeper =~= mount.subrange(0, deeper.len() as int));
        lemma_mountable(mount);
        assert(mount.len() > deeper.len()) by {
            if mount.len() == deeper.len() {
                assert(mount =~= deeper);
                assert(mount.last() == '/');
            }
        }
        let next = split(mount.skip(deeper.len() as int), '/')[0];
        assert(child_name(mount, entry) == Some(next));
        assert(access.lists(entry, next));
    }
}

/// The normal form of an entry of a virtual directory is the directory's path and the name.
proof fn lemma_entry_normal_form(path: Seq<char>, name: Seq<char>)
    requires
        name.len() > 0,
        !name.contains('/'),
    ensures
        normalized(virtual_entry(path, name)) == child_prefix(path) + name,
{
    let n = normalized(path);
    let entry = virtual_entry(path, name);
    law_normal_form(path);
    assert(name.contains(name.first()) && name.contains(name.last())) by {
        assert(name[0] == name.first() && name[name.len() - 1] == name.last());
    }
    reveal_with_fuel(without_leading, 2);
    reveal_with_fuel(without_trailing, 2);
    if n == root() {
        assert(entry.first() == name.first());
        assert(entry.drop_last() =~= name);
        assert(stripped(entry, CharClass::Slash) == name);
    } else {
        let t = stripped(path, CharClass::Slash);
        lemma_stripped(path, CharClass::Slash);
        assert(n.drop_first() =~= t);
        assert(t.len() > 0) by {
            if t.len() == 0 {
                assert(n =~= root());
            }
        }
        assert(without_leading(n, CharClass::Slash) == t);
        assert(entry == t.push('/') + name.push('/'));
        assert(entry.first() == t.first());
        assert(entry.drop_last() =~= t.push('/') + name);
        assert(entry.drop_last().last() == name.last());
        assert(stripped(entry, CharClass::Slash) == t.push('/') + name);
        assert(normalized(entry) =~= n.push('/') + name);
    }
}

/// What a refused request is answered: the kind of error, why, and the path that was asked for.
pub proof fn law_refusals_say_why(path: Seq<char>)
    ensures
        not_found_at(path).kind == ErrorKind::NotFound,
        not_found_at(path).message == "no mount covers this path"@,
        not_found_at(path).context == seq![("path"@, path)],
        not_found_at(path).source is None,
        denied_at(path).kind == ErrorKind::PermissionDenied,
        denied_at(path).message == "mount is read-only"@,
        denied_at(path).context == seq![("path"@, path)],
        denied_at(path).source is None,
        duplicate_refused(path).kind == ErrorKind::ConfigInvalid,
        duplicate_refused(path).message == "duplicate mount path"@,
        duplicate_refused(path).context == seq![("path"@, path)],
        duplicate_refused(path).source is None,
        root_refused().kind == ErrorKind::ConfigInvalid,
        root_refused().message == "cannot mount at the virtual root '/'"@,
        root_refused().context.len() == 0,
        root_refused().source is None,
        unsupported().kind == ErrorKind::Unsupported,
        unsupported().message == "operation is not supported"@,
        unsupported().context.len() == 0,
        unsupported().source is None,
{
    assert(Seq::<(Seq<char>, Seq<char>)>::empty().push(("path"@, path)) =~= seq![("path"@, path)]);
}

/// All requests on a path go to the longest mount that owns it, under the path relative to that
/// mount, and a listing is put back under that mount. Requests that would change it are refused
/// if it is read-only, and only then; the mount itself is a directory.
pub proof fn law_requests_go_to_the_longest_mount(
    access: MountAccess,
    path: Seq<char>,
    mount: Seq<char>,
    change: Result<Target, VfsError>,
    stat: Result<StatPlan, VfsError>,
    list: Result<MountLister, VfsError>,
    target: Target,
)
    requires
        access.mounts.consistent(),
        access.mounts@.contains_key(mount),
        owns(mount, normalized(path)),
        forall|other: Seq<char>| #[trigger]
            access.mounts@.contains_key(other) && owns(other, normalized(path)) ==> other.len()
                <= mount.len(),
        access.answers_change(path, change),
        access.answers_stat(path, stat),
        access.answers_list(path, list),
    ensures
        access.owner(path) == Some(mount),
        access.routes(path, mount),
        access.reaches(target, mount, path) <==> target.mount < access.mounts.keys().len()
            && access.mounts.keys()[target.mount as int] == mount && target.path@ == relative(
            mount,
            path,
        ),
        access.mounts@[mount].read_only ==> fails_with(change, denied_at(path))
            && access.transfer_refused(path) == Some(denied_at(path)),
        !access.mounts@[mount].read_only ==> {
            &&& change is Ok
            &&& change->Ok_0.mount < access.mounts.keys().len()
            &&& access.mounts.keys()[change->Ok_0.mount as int] == mount
            &&& change->Ok_0.path@ == relative(mount, path)
            &&& access.transfer_refused(path) is None
        },
        normalized(path) == mount ==> stat is Ok && stat->Ok_0 is Directory,
        normalized(path) != mount ==> {
            &&& stat is Ok && stat->Ok_0 is Ask
            &&& stat->Ok_0->Ask_0.mount < access.mounts.keys().len()
            &&& access.mounts.keys()[stat->Ok_0->Ask_0.mount as int] == mount
            &&& stat->Ok_0->Ask_0.path@ == relative(mount, path)
        },
        list is Ok && list->Ok_0 is Real,
        list->Ok_0->mount_path@ == mount,
        list->Ok_0->target.mount < access.mounts.keys().len(),
        access.mounts.keys()[list->Ok_0->target.mount as int] == mount,
        list->Ok_0->target.path@ == relative(mount, path),
{
    assert(access.routes(path, mount));
    access.lemma_owner(path, mount);
}

/// A listing asks the mount for the path that every other request on it goes to. A request for a
/// directory, which ends in a slash, stays one: the mount is asked for a path that ends in one.
pub proof fn law_listing_asks_for_the_directory(
    access: MountAccess,
    path: Seq<char>,
    listed: Target,
    mount_path: String,
    resolved: Target,
)
    requires
        access.mounts.consistent(),
        access.well_formed(),
        access.covered(path),
        access.answers_list(path, Ok(MountLister::Real { target: listed, mount_path })),
        access.reaches(resolved, access.owner(path)->0, path),
    ensures
        listed.mount == resolved.mount,
        listed.path@ == resolved.path@,
        listed.path@.len() > 0 ==> (listed.path@[listed.path@.len() - 1] == '/' <==> path.len() > 0
            && path[path.len() - 1] == '/'),
        listed.path@.len() == 0 <==> normalized(path) == mount_path@,
{
    law_longest_mount_wins(access, path);
    let mount = access.owner(path)->0;
    law_what_can_be_mounted_at(mount);
    law_trailing_slash_is_kept(mount, path);
    let keys = access.mounts.keys();
    assert(keys[listed.mount as int] == keys[resolved.mount as int]);
}

/// A path is a virtual directory exactly if it is the root or some mount's path goes on behind it
/// with a slash.
pub proof fn law_virtual_directories_are_ancestors(access: MountAccess, path: Seq<char>)
    ensures
        access.virtual_directory(path) <==> normalized(path) == seq!['/'] || exists|mount: Seq<char>|
            #[trigger]
            access.mounts@.contains_key(mount) && mount.len() > normalized(path).len() + 1
                && mount.take(normalized(path).len() as int) == normalized(path) && mount[normalized(
                path,
            ).len() as int] == '/',
{
    let n = normalized(path);
    if n != root() {
        let prefix = n.push('/');
        assert(child_prefix(path) == prefix);
        assert forall|mount: Seq<char>| #[trigger]
            access.mounts@.contains_key(mount) && mount.len() > n.len() + 1 && mount.take(
                n.len() as int,
            ) == n && mount[n.len() as int] == '/' implies access.virtual_directory(path) by {
            assert forall|i: int| 0 <= i < prefix.len() implies prefix[i] == mount[i] by {
                if i < n.len() {
                    assert(mount.take(n.len() as int)[i] == mount[i]);
                }
            }
            assert(prefix =~= mount.subrange(0, prefix.len() as int));
            assert(access.lists(path, child_name(mount, path)->0));
        }
        if exists|name: Seq<char>| #[trigger] access.lists(path, name) {
            let name = choose|name: Seq<char>| #[trigger] access.lists(path, name);
            let mount = choose|mount: Seq<char>| #[trigger]
                access.mounts@.contains_key(mount) && child_name(mount, path) == Some(name);
            assert(prefix == mount.subrange(0, prefix.len() as int));
            assert(prefix[n.len() as int] == mount.subrange(0, prefix.len() as int)[n.len() as int]);
            assert forall|i: int| 0 <= i < n.len() implies n[i] == mount[i] by {
                assert(prefix[i] == mount.subrange(0, prefix.len() as int)[i]);
            }
            assert(mount.take(n.len() as int) =~= n);
        }
    }
}

/// Where no mount owns a path, nothing can be changed at it. It is a directory if it is the root
/// or some mount's path goes on behind it with a slash, and else it is not found, whatever is
/// asked and however the path is spelled.
pub proof fn law_only_ancestors_of_mounts_stand(
    access: MountAccess,
    path: Seq<char>,
    change: Result<Target, VfsError>,
    stat: Result<StatPlan, VfsError>,
    list: Result<MountLister, VfsError>,
)
    requires
        forall|mount: Seq<char>| #[trigger]
            access.mounts@.contains_key(mount) ==> !owns(mount, normalized(path)),
        access.answers_change(path, change),
        access.answers_stat(path, stat),
        access.answers_list(path, list),
    ensures
        access.owner(path) is None,
        fails_with(change, not_found_at(path)),
        ({
            let n = normalized(path);
            let ancestor = exists|mount: Seq<char>| #[trigger]
                access.mounts@.contains_key(mount) && mount.len() > n.len() + 1 && mount.take(
                    n.len() as int,
                ) == n && mount[n.len() as int] == '/';
            &&& n == seq!['/'] || ancestor ==> {
                &&& stat is Ok && stat->Ok_0 is Directory
                &&& list is Ok && list->Ok_0 is Virtual
                &&& access.transfer_refused(path) is None
                &&& access.virtual_directory(path)
            }
            &&& n != seq!['/'] && !ancestor ==> {
                &&& fails_with(stat, not_found_at(path))
                &&& fails_with(list, not_found_at(path))
                &&& access.transfer_refused(path) == Some(not_found_at(path))
                &&& !access.virtual_directory(path)
            }
        }),
{
    assert(!access.covered(path));
    law_virtual_directories_are_ancestors(access, path);
}

/// The names of a virtual directory are the segments that follow it in the paths of the mounts,
/// all of them, each once and in the order of texts.
pub proof fn law_names_are_the_next_segments(
    access: MountAccess,
    path: Seq<char>,
    names: Seq<Seq<char>>,
    i: int,
    j: int,
    mount: Seq<char>,
)
    requires
        access.children(path, names),
    ensures
        access.mounts@.contains_key(mount) && child_name(mount, path) is Some ==> names.contains(
            child_name(mount, path)->0,
        ),
        0 <= i < names.len() ==> exists|under: Seq<char>| #[trigger]
            access.mounts@.contains_key(under) && child_name(under, path) == Some(names[i]),
        0 <= i < j < names.len() ==> text_less(names[i], names[j]) && names[i] != names[j],
{
    if access.mounts@.contains_key(mount) && child_name(mount, path) is Some {
        assert(access.lists(path, child_name(mount, path)->0));
    }
    if 0 <= i < names.len() {
        assert(names.contains(names[i]));
        lemma_less_irreflexive(names[i]);
    }
}

/// The listing of a virtual directory has an entry for each name and for nothing else, in the
/// order of the names.
pub proof fn law_virtual_listing_has_each_name(
    access: MountAccess,
    path: Seq<char>,
    entries: Seq<Seq<char>>,
    i: int,
    j: int,
    mount: Seq<char>,
)
    requires
        access.virtual_listing(path, entries),
    ensures
        access.mounts@.contains_key(mount) && child_name(mount, path) is Some ==> entries.contains(
            virtual_entry(path, child_name(mount, path)->0),
        ),
        0 <= i < entries.len() ==> exists|under: Seq<char>| #[trigger]
            access.mounts@.contains_key(under) && child_name(under, path) is Some && entries[i]
                == virtual_entry(path, child_name(under, path)->0),
        0 <= i < j < entries.len() ==> exists|a: Seq<char>, b: Seq<char>| #[trigger]
            text_less(a, b) && entries[i] == virtual_entry(path, a) && entries[j] == virtual_entry(
                path,
                b,
            ),
{
    let names = choose|names: Seq<Seq<char>>| #[trigger]
        access.children(path, names) && entries == names.map_values(
            |name: Seq<char>| virtual_entry(path, name),
        );
    law_names_are_the_next_segments(access, path, names, i, j, mount);
    if access.mounts@.contains_key(mount) && child_name(mount, path) is Some {
        let k = names.index_of(child_name(mount, path)->0);
        assert(entries[k] == virtual_entry(path, names[k]));
    }
    if 0 <= i < entries.len() {
        let under = choose|under: Seq<char>| #[trigger]
            access.mounts@.contains_key(under) && child_name(under, path) == Some(names[i]);
        assert(access.mounts@.contains_key(under) && entries[i] == virtual_entry(path, names[i]));
    }
    if 0 <= i < j < entries.len() {
        assert(text_less(names[i], names[j]));
        assert(entries[i] == virtual_entry(path, names[i]));
        assert(entries[j] == virtual_entry(path, names[j]));
    }
}

/// A virtual directory that is listed gives its virtual listing, in the order in which it stands.
pub proof fn law_virtual_directory_lists_itself(
    access: MountAccess,
    path: Seq<char>,
    entries: Vec<String>,
    i: int,
)
    requires
        access.answers_list(path, Ok(MountLister::Virtual { entries })),
    ensures
        access.owner(path) is None,
        access.virtual_directory(path),
        access.virtual_listing(path, views(entries@)),
        views(entries@).len() == entries@.len(),
        0 <= i < entries@.len() ==> views(entries@)[i] == entries@[i]@,
{
}

/// Everything but renaming and copying is offered.
pub proof fn law_what_is_offered(op: Operation)
    ensures
        MountAccess::offers(op) <==> op != Operation::Rename && op != Operation::Copy,
{
}

/// A mount is the one that its entry asks for in every respect: the service and each of its
/// settings, the layers, the write protection and the quota.
pub proof fn law_mount_is_as_configured(mount: Mount, entry: MountEntry, i: int)
    requires
        mount.configured_by(entry),
    ensures
        requested_scheme(mount.operator) == entry.config.config.name@,
        requested_options(mount.operator).len() == entry.config.config.options.keys().len(),
        0 <= i < entry.config.config.options.keys().len() ==> requested_options(mount.operator)[i]
            == (
            entry.config.config.options.keys()[i],
            entry.config.config.options@[entry.config.config.options.keys()[i]]@,
        ),
        operator_layers(mount.operator) == entry.config.layers(),
        mount.read_only == entry.read_only,
        mount.quota == entry.quota,
{
}

/// Mounts are well formed exactly if each is at a slash before text with a slash at neither end.
pub proof fn law_well_formed_mounts(access: MountAccess)
    ensures
        access.well_formed() <==> forall|mount: Seq<char>| #[trigger]
            access.mounts@.contains_key(mount) ==> mount.len() >= 2 && mount[0] == '/' && mount[1]
                != '/' && mount[mount.len() - 1] != '/',
{
    assert forall|mount: Seq<char>| #[trigger]
        access.mounts@.contains_key(mount) implies mountable(mount) == (mount.len() >= 2
        && mount[0] == '/' && mount[1] != '/' && mount[mount.len() - 1] != '/') by {
        law_what_can_be_mounted_at(mount);
    }
}

} // verus!
