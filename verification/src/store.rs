//! The blob store: put/get/delete over logical paths, backed by one of two
//! interchangeable strategies chosen once at startup. Under the filesystem
//! strategy every stored blob lives below a media root in
//! `media/<user>/[<community>/]<file>`, parent directories are created on
//! demand, and deleting a blob removes every ancestor directory that became
//! empty, up to (not including) the media root. Under the object-store
//! strategy the logical path is the flat object key and no directories exist.
//!
//! This type is the store's state and decision logic; the backends that move
//! real bytes perform what these operations decide.

use vstd::prelude::*;

use crate::errors::StorageError;
use crate::paths::{PathKey, StoredPath};

verus! {

/// Which strategy backs the store.
#[derive(Debug, PartialEq, Eq, Structural, Clone, Copy)]
pub enum StorageBackend {
    FileSystem,
    ObjectStore,
}

/// How a caller obtains a locally seekable file for a stored blob.
#[derive(Debug, PartialEq, Eq, Structural, Clone, Copy)]
pub enum ReadPlan {
    /// Filesystem strategy: the blob already is a local file at its path.
    Direct,
    /// Object-store strategy: the object must first be downloaded into a
    /// scratch area mirroring the key's directory structure.
    MaterializeToScratch,
}

/// A directory below the media root: `(user, None)` is `media/<user>`,
/// `(user, Some(c))` is `media/<user>/<c>`.
pub type MediaDir = (u64, Option<u64>);

pub open spec fn spec_entry_key(e: (StoredPath, Vec<u8>)) -> PathKey {
    e.0@
}

/// The mapping a sequence of file entries denotes.
pub open spec fn spec_contents_of(files: Seq<(StoredPath, Vec<u8>)>) -> Map<PathKey, Seq<u8>>
    decreases files.len(),
{
    if files.len() == 0 {
        Map::empty()
    } else {
        spec_contents_of(files.drop_last()).insert(
            spec_entry_key(files.last()),
            files.last().1@,
        )
    }
}

/// The directories a blob at `k` lives in: its user directory, and its
/// community directory when it has one.
pub open spec fn spec_file_induces(k: PathKey, d: MediaDir) -> bool {
    (d.0 == k.0 && d.1 is None) || (k.1 is Some && d.0 == k.0 && d.1 == k.1)
}

/// Whether any stored blob lies below `media/<user_id>`.
pub open spec fn spec_user_occupied(c: Map<PathKey, Seq<u8>>, user_id: u64) -> bool {
    exists|k: PathKey| #[trigger] c.dom().contains(k) && k.0 == user_id
}

/// Whether any stored blob lies in the directory `d`.
pub open spec fn spec_dir_occupied(c: Map<PathKey, Seq<u8>>, d: MediaDir) -> bool {
    match d.1 {
        None => spec_user_occupied(c, d.0),
        Some(community) => exists|k: PathKey|
            #[trigger] c.dom().contains(k) && k.0 == d.0 && k.1 == Some(community),
    }
}

/// The directories existing after a blob is stored at `k`: under the
/// filesystem strategy the blob's ancestors are created, otherwise nothing
/// changes.
pub open spec fn spec_dirs_after_put(dirs: Set<MediaDir>, mode: StorageBackend, k: PathKey) -> Set<MediaDir> {
    if mode == StorageBackend::FileSystem {
        dirs.insert((k.0, None)).union(
            if k.1 is Some {
                Set::<MediaDir>::empty().insert((k.0, k.1))
            } else {
                Set::<MediaDir>::empty()
            },
        )
    } else {
        dirs
    }
}

/// The uniform storage abstraction over the two strategies.
pub struct BlobStore {
    backend: StorageBackend,
    files: Vec<(StoredPath, Vec<u8>)>,
    dirs: Vec<MediaDir>,
}

impl BlobStore {
    /// The blobs this store holds, by logical path.
    pub closed spec fn contents(self) -> Map<PathKey, Seq<u8>> {
        spec_contents_of(self.files@)
    }

    /// The directories existing below the media root (always empty under the
    /// object-store strategy).
    pub closed spec fn dir_set(self) -> Set<MediaDir> {
        Set::new(|d: MediaDir| self.dirs@.contains(d))
    }

    /// The strategy this store was configured with.
    pub closed spec fn mode(self) -> StorageBackend {
        self.backend
    }

    /// Well-formed: unique keys, usable paths, and — under the filesystem
    /// strategy — exactly the ancestor directories of stored blobs exist and
    /// none of them is empty.
    pub closed spec fn wf(self) -> bool {
        &&& forall|i: int, j: int|
            0 <= i < j < self.files@.len() ==> spec_entry_key(self.files@[i]) != spec_entry_key(
                self.files@[j],
            )
        &&& forall|i: int| 0 <= i < self.files@.len() ==> (#[trigger] self.files@[i].0).wf()
        &&& forall|i: int, j: int| 0 <= i < j < self.dirs@.len() ==> self.dirs@[i] != self.dirs@[j]
        &&& match self.backend {
            StorageBackend::ObjectStore => self.dirs@.len() == 0,
            StorageBackend::FileSystem => {
                &&& forall|k: PathKey|
                    #[trigger] self.contents().dom().contains(k) ==> self.dir_set().contains(
                        (k.0, None),
                    ) && (k.1 is Some ==> self.dir_set().contains((k.0, k.1)))
                &&& forall|i: int|
                    0 <= i < self.dirs@.len() ==> spec_dir_occupied(
                        self.contents(),
                        #[trigger] self.dirs@[i],
                    )
            },
        }
    }

    /// An empty store under the given strategy.
    pub fn new(backend: StorageBackend) -> (r: BlobStore)
        ensures
            r.wf(),
            r.mode() == backend,
            r.contents() == Map::<PathKey, Seq<u8>>::empty(),
            r.dir_set() =~= Set::<MediaDir>::empty(),
    {
        BlobStore { backend, files: Vec::new(), dirs: Vec::new() }
    }

    /// The strategy this store was configured with.
    pub fn backend(&self) -> (r: StorageBackend)
        ensures
            r == self.mode(),
    {
        self.backend
    }

    /// The index of the entry stored at `path`, if any.
    fn find_file(&self, path: &StoredPath) -> (r: Option<usize>)
        ensures
            match r {
                Some(i) => i < self.files@.len() && spec_entry_key(self.files@[i as int]) == path@,
                None => forall|i: int|
                    0 <= i < self.files@.len() ==> spec_entry_key(self.files@[i]) != path@,
            },
    {
        let n = self.files.len();
        for i in 0..n
            invariant
                n == self.files@.len(),
                forall|j: int| 0 <= j < i ==> spec_entry_key(self.files@[j]) != path@,
        {
            if self.files[i].0.same_path(path) {
                return Some(i);
            }
        }
        None
    }

    /// The index of `d` in the directory list, if present.
    fn find_dir(&self, d: MediaDir) -> (r: Option<usize>)
        ensures
            match r {
                Some(i) => i < self.dirs@.len() && self.dirs@[i as int] == d,
                None => !self.dirs@.contains(d),
            },
    {
        let n = self.dirs.len();
        for i in 0..n
            invariant
                n == self.dirs@.len(),
                forall|j: int| 0 <= j < i ==> self.dirs@[j] != d,
        {
            let (u, c) = self.dirs[i];
            let scope_matches = match (c, d.1) {
                (Some(a), Some(b)) => a == b,
                (None, None) => true,
                _ => false,
            };
            if u == d.0 && scope_matches {
                return Some(i);
            }
        }
        None
    }

    /// Add `d` to the directory list if it is not there yet.
    fn ensure_dir(&mut self, d: MediaDir)
        requires
            forall|i: int, j: int|
                0 <= i < j < old(self).dirs@.len() ==> old(self).dirs@[i] != old(self).dirs@[j],
        ensures
            final(self).backend == old(self).backend,
            final(self).files == old(self).files,
            forall|i: int, j: int|
                0 <= i < j < final(self).dirs@.len() ==> final(self).dirs@[i]
                    != final(self).dirs@[j],
            final(self).dir_set() =~= old(self).dir_set().insert(d),
    {
        match self.find_dir(d) {
            Some(_) => {
                proof {
                    assert(self.dirs@.contains(d));
                    assert(self.dir_set() =~= self.dir_set().insert(d));
                }
            },
            None => {
                let ghost dirs0 = self.dirs@;
                self.dirs.push(d);
                proof {
                    assert forall|x: MediaDir| #[trigger] self.dirs@.contains(x) implies (
                    dirs0.contains(x) || x == d) by {
                        let k = choose|k: int| 0 <= k < self.dirs@.len() && self.dirs@[k] == x;
                        if k < dirs0.len() {
                            assert(dirs0[k] == x);
                        }
                    }
                    assert forall|x: MediaDir| dirs0.contains(x)
                        || x == d implies #[trigger] self.dirs@.contains(x) by {
                        if dirs0.contains(x) {
                            let k = choose|k: int| 0 <= k < dirs0.len() && dirs0[k] == x;
                            assert(self.dirs@[k] == x);
                        } else {
                            assert(self.dirs@[dirs0.len() as int] == x);
                        }
                    }
                    assert forall|i: int, j: int|
                        0 <= i < j < self.dirs@.len() implies self.dirs@[i] != self.dirs@[j] by {
                        if j == self.dirs@.len() - 1 {
                            assert(self.dirs@[i] == dirs0[i]);
                            assert(dirs0.contains(dirs0[i]));
                        }
                    }
                }
            },
        }
    }

    /// Remove `d` from the directory list if it is there.
    fn drop_dir(&mut self, d: MediaDir)
        requires
            forall|i: int, j: int|
                0 <= i < j < old(self).dirs@.len() ==> old(self).dirs@[i] != old(self).dirs@[j],
        ensures
            final(self).backend == old(self).backend,
            final(self).files == old(self).files,
            forall|i: int, j: int|
                0 <= i < j < final(self).dirs@.len() ==> final(self).dirs@[i]
                    != final(self).dirs@[j],
            final(self).dir_set() =~= old(self).dir_set().remove(d),
    {
        match self.find_dir(d) {
            Some(i) => {
                let ghost dirs0 = self.dirs@;
                self.dirs.remove(i);
                proof {
                    assert(self.dirs@ == dirs0.remove(i as int));
                    assert forall|x: MediaDir| #[trigger] self.dirs@.contains(x) implies (
                    dirs0.contains(x) && x != d) by {
                        let k = choose|k: int| 0 <= k < self.dirs@.len() && self.dirs@[k] == x;
                        if k < i {
                            assert(dirs0[k] == x);
                        } else {
                            assert(dirs0[k + 1] == x);
                        }
                    }
                    assert forall|x: MediaDir| dirs0.contains(x)
                        && x != d implies #[trigger] self.dirs@.contains(x) by {
                        let k = choose|k: int| 0 <= k < dirs0.len() && dirs0[k] == x;
                        if k < i {
                            assert(self.dirs@[k] == x);
                        } else {
                            assert(k != i);
                            assert(self.dirs@[k - 1] == x);
                        }
                    }
                }
            },
            None => {
                proof {
                    assert(self.dir_set() =~= self.dir_set().remove(d));
                }
            },
        }
    }

    /// Store `bytes` at `path`, overwriting any prior content there; under
    /// the filesystem strategy the ancestor directories are created as
    /// needed. The store itself never refuses a put.
    pub fn put(&mut self, path: &StoredPath, bytes: Vec<u8>) -> (r: Result<(), StorageError>)
        requires
            old(self).wf(),
            path.wf(),
        ensures
            r is Ok,
            final(self).wf(),
            final(self).mode() == old(self).mode(),
            final(self).contents() == old(self).contents().insert(path@, bytes@),
            final(self).dir_set() =~= spec_dirs_after_put(
                old(self).dir_set(),
                old(self).mode(),
                path@,
            ),
    {
        let ghost files0 = self.files@;
        match self.find_file(path) {
            Some(i) => {
                proof {
                    lemma_contents_at(self.files@, i as int);
                }
                let entry = &mut self.files[i];
                entry.1 = bytes;
                proof {
                    assert(self.files@ == files0.update(
                        i as int,
                        (files0[i as int].0, self.files@[i as int].1),
                    ));
                    lemma_contents_update(files0, i as int, self.files@[i as int]);
                    assert(self.contents() == spec_contents_of(files0).insert(
                        path@,
                        self.files@[i as int].1@,
                    ));
                }
            },
            None => {
                proof {
                    lemma_contents_complete(files0, path@);
                }
                self.files.push((path.clone(), bytes));
                proof {
                    assert(self.files@.drop_last() == files0);
                    assert(spec_entry_key(self.files@.last()) == path@);
                }
            },
        }
        proof {
            lemma_contents_complete(self.files@, path@);
        }
        match self.backend {
            StorageBackend::FileSystem => {
                self.ensure_dir((path.user_id, None));
                match path.community_id {
                    Some(c) => self.ensure_dir((path.user_id, Some(c))),
                    None => (),
                }
                proof {
                    self.lemma_put_preserves_wf(*old(self), path@);
                }
            },
            StorageBackend::ObjectStore => {},
        }
        Ok(())
    }

    /// Keeping `wf` across a put under the filesystem strategy.
    proof fn lemma_put_preserves_wf(self, prev: BlobStore, k: PathKey)
        requires
            prev.wf(),
            prev.backend == StorageBackend::FileSystem,
            self.backend == StorageBackend::FileSystem,
            forall|i: int, j: int|
                0 <= i < j < self.files@.len() ==> spec_entry_key(self.files@[i])
                    != spec_entry_key(self.files@[j]),
            forall|i: int| 0 <= i < self.files@.len() ==> (#[trigger] self.files@[i].0).wf(),
            forall|i: int, j: int|
                0 <= i < j < self.dirs@.len() ==> self.dirs@[i] != self.dirs@[j],
            self.contents().dom() =~= prev.contents().dom().insert(k),
            self.dir_set() =~= prev.dir_set().insert((k.0, None)).union(
                if k.1 is Some {
                    Set::<MediaDir>::empty().insert((k.0, k.1))
                } else {
                    Set::<MediaDir>::empty()
                },
            ),
        ensures
            self.wf(),
    {
        assert forall|p: PathKey|
            #[trigger] self.contents().dom().contains(p) implies self.dir_set().contains(
            (p.0, None),
        ) && (p.1 is Some ==> self.dir_set().contains((p.0, p.1))) by {
            if p != k {
                assert(prev.contents().dom().contains(p));
            }
        }
        assert forall|i: int|
            0 <= i < self.dirs@.len() implies spec_dir_occupied(
            self.contents(),
            #[trigger] self.dirs@[i],
        ) by {
            let d = self.dirs@[i];
            assert(self.dir_set().contains(d));
            let user_dir: MediaDir = (k.0, None);
            let scope_dir: MediaDir = (k.0, k.1);
            if d == user_dir || (k.1 is Some && d == scope_dir) {
                assert(self.contents().dom().contains(k));
            } else {
                assert(prev.dir_set().contains(d));
                let j = choose|j: int| 0 <= j < prev.dirs@.len() && prev.dirs@[j] == d;
                assert(spec_dir_occupied(prev.contents(), d));
                match d.1 {
                    None => {
                        let w = choose|w: PathKey|
                            #[trigger] prev.contents().dom().contains(w) && w.0 == d.0;
                        assert(self.contents().dom().contains(w));
                    },
                    Some(community) => {
                        let w = choose|w: PathKey|
                            #[trigger] prev.contents().dom().contains(w) && w.0 == d.0 && w.1
                                == Some(community);
                        assert(self.contents().dom().contains(w));
                    },
                }
            }
        }
    }

    /// The bytes stored at `path`.
    pub fn get(&self, path: &StoredPath) -> (r: Result<&Vec<u8>, StorageError>)
        requires
            self.wf(),
        ensures
            match r {
                Ok(bytes) => self.contents().dom().contains(path@) && bytes@ == self.contents()[
                    path@
                ],
                Err(e) => e == StorageError::NotFound && !self.contents().dom().contains(path@),
            },
    {
        proof {
            lemma_contents_complete(self.files@, path@);
        }
        match self.find_file(path) {
            Some(i) => {
                proof {
                    lemma_contents_at(self.files@, i as int);
                }
                Ok(&self.files[i].1)
            },
            None => Err(StorageError::NotFound),
        }
    }

    /// How to obtain a locally seekable file for the blob at `path`: direct
    /// under the filesystem strategy, via a scratch download under the
    /// object-store strategy; a missing blob is reported as not found.
    pub fn resolve_local_readable(&self, path: &StoredPath) -> (r: Result<ReadPlan, StorageError>)
        requires
            self.wf(),
        ensures
            match r {
                Ok(plan) => self.contents().dom().contains(path@) && plan == (
                if self.mode() == StorageBackend::FileSystem {
                    ReadPlan::Direct
                } else {
                    ReadPlan::MaterializeToScratch
                }),
                Err(e) => e == StorageError::NotFound && !self.contents().dom().contains(path@),
            },
    {
        proof {
            lemma_contents_complete(self.files@, path@);
        }
        match self.find_file(path) {
            Some(i) => {
                proof {
                    lemma_contents_at(self.files@, i as int);
                }
                match self.backend {
                    StorageBackend::FileSystem => Ok(ReadPlan::Direct),
                    StorageBackend::ObjectStore => Ok(ReadPlan::MaterializeToScratch),
                }
            },
            None => Err(StorageError::NotFound),
        }
    }

    /// Delete the blob at `path`. Under the filesystem strategy, the blob's
    /// ancestor directories are then removed while they are empty: afterwards
    /// exactly those prior directories survive that still hold a blob.
    pub fn delete(&mut self, path: &StoredPath) -> (r: Result<(), StorageError>)
        requires
            old(self).wf(),
        ensures
            final(self).wf(),
            final(self).mode() == old(self).mode(),
            match r {
                Ok(()) => {
                    &&& old(self).contents().dom().contains(path@)
                    &&& final(self).contents() == old(self).contents().remove(path@)
                    &&& final(self).dir_set() =~= Set::new(
                        |d: MediaDir|
                            old(self).dir_set().contains(d) && spec_dir_occupied(
                                final(self).contents(),
                                d,
                            ),
                    )
                },
                Err(e) => {
                    &&& e == StorageError::NotFound
                    &&& !old(self).contents().dom().contains(path@)
                    &&& *final(self) == *old(self)
                },
            },
    {
        proof {
            lemma_contents_complete(self.files@, path@);
        }
        let i = match self.find_file(path) {
            Some(i) => i,
            None => {
                return Err(StorageError::NotFound);
            },
        };
        proof {
            lemma_contents_at(self.files@, i as int);
            lemma_contents_removed(self.files@, i as int);
        }
        let ghost files0 = self.files@;
        let ghost k = path@;
        let (stored, _bytes) = self.files.remove(i);
        let user_id = stored.user_id;
        proof {
            assert(self.files@ == files0.remove(i as int));
            assert forall|a: int| 0 <= a < self.files@.len() implies self.files@[a] == (
            if a < i as int {
                files0[a]
            } else {
                files0[a + 1]
            }) by {}
            assert forall|a: int, b: int|
                0 <= a < b < self.files@.len() implies spec_entry_key(self.files@[a])
                != spec_entry_key(self.files@[b]) by {}
            assert forall|a: int|
                0 <= a < self.files@.len() implies (#[trigger] self.files@[a].0).wf() by {}
            assert(spec_entry_key(files0[i as int]) == k);
        }
        match self.backend {
            StorageBackend::FileSystem => {
                match stored.community_id {
                    Some(community) => {
                        if !self.some_file_in_community(user_id, community) {
                            self.drop_dir((user_id, Some(community)));
                        }
                    },
                    None => {},
                }
                if !self.some_file_of_user(user_id) {
                    self.drop_dir((user_id, None));
                }
                proof {
                    let prev = *old(self);
                    let cprime = self.contents();
                    assert(cprime == prev.contents().remove(k));
                    // The surviving directories are exactly the prior ones
                    // that still hold a blob.
                    assert forall|d: MediaDir|
                        self.dir_set().contains(d) implies prev.dir_set().contains(d)
                        && spec_dir_occupied(cprime, d) by {
                        lemma_occupied_witness(self.files@, cprime, d);
                        assert(prev.dir_set().contains(d));
                        if !spec_dir_occupied(cprime, d) {
                            let j = choose|j: int|
                                0 <= j < prev.dirs@.len() && prev.dirs@[j] == d;
                            assert(spec_dir_occupied(prev.contents(), d));
                            match d.1 {
                                None => {
                                    if d.0 == k.0 {
                                        // the user-directory check saw no file
                                        // left, so this directory was dropped
                                        assert(!self.dir_set().contains(d));
                                    } else {
                                        let w = choose|w: PathKey|
                                            #[trigger] prev.contents().dom().contains(w) && w.0
                                                == d.0;
                                        assert(cprime.dom().contains(w));
                                    }
                                },
                                Some(community) => {
                                    if d.0 == k.0 && Some(community) == k.1 {
                                        assert(!self.dir_set().contains(d));
                                    } else {
                                        let w = choose|w: PathKey|
                                            #[trigger] prev.contents().dom().contains(w) && w.0
                                                == d.0 && w.1 == Some(community);
                                        assert(w != k);
                                        assert(cprime.dom().contains(w));
                                    }
                                },
                            }
                        }
                    }
                    assert forall|d: MediaDir|
                        prev.dir_set().contains(d) && spec_dir_occupied(
                            cprime,
                            d,
                        ) implies self.dir_set().contains(d) by {
                        lemma_occupied_witness(self.files@, cprime, d);
                    }
                    // Well-formedness: every blob still has its directories,
                    // and every directory still holds a blob.
                    assert forall|p: PathKey|
                        #[trigger] cprime.dom().contains(p) implies self.dir_set().contains(
                        (p.0, None),
                    ) && (p.1 is Some ==> self.dir_set().contains((p.0, p.1))) by {
                        assert(prev.contents().dom().contains(p));
                        assert(spec_dir_occupied(cprime, (p.0, None)));
                        if p.1 is Some {
                            assert(spec_dir_occupied(cprime, (p.0, p.1)));
                        }
                    }
                    assert forall|a: int|
                        0 <= a < self.dirs@.len() implies spec_dir_occupied(
                        cprime,
                        #[trigger] self.dirs@[a],
                    ) by {
                        assert(self.dir_set().contains(self.dirs@[a]));
                    }
                }
            },
            StorageBackend::ObjectStore => {},
        }
        Ok(())
    }

    /// Whether any directory of this user exists below the media root
    /// (always false under the object-store strategy).
    pub fn user_directory_exists(&self, user_id: u64) -> (r: bool)
        ensures
            r == exists|d: MediaDir| #[trigger] self.dir_set().contains(d) && d.0 == user_id,
    {
        let n = self.dirs.len();
        for i in 0..n
            invariant
                n == self.dirs@.len(),
                forall|j: int| 0 <= j < i ==> (#[trigger] self.dirs@[j]).0 != user_id,
        {
            if self.dirs[i].0 == user_id {
                proof {
                    assert(self.dir_set().contains(self.dirs@[i as int]));
                }
                return true;
            }
        }
        proof {
            if exists|d: MediaDir| #[trigger] self.dir_set().contains(d) && d.0 == user_id {
                let d = choose|d: MediaDir| #[trigger] self.dir_set().contains(d) && d.0 == user_id;
                let j = choose|j: int| 0 <= j < self.dirs@.len() && self.dirs@[j] == d;
                assert(self.dirs@[j].0 == user_id);
            }
        }
        false
    }

    /// Move the store's contents to the other strategy: every blob keeps its
    /// logical path, and the directory structure is rebuilt as the target
    /// strategy wants it — the occupied ancestors under the filesystem, no
    /// directories at all under the object store. The backends perform the
    /// byte copies this decides.
    pub fn relocate(&mut self, target: StorageBackend)
        requires
            old(self).wf(),
        ensures
            final(self).wf(),
            final(self).mode() == target,
            final(self).contents() == old(self).contents(),
            target == StorageBackend::ObjectStore ==> final(self).dir_set()
                =~= Set::<MediaDir>::empty(),
            target == StorageBackend::FileSystem ==> final(self).dir_set() =~= Set::new(
                (|d: MediaDir| spec_dir_occupied(old(self).contents(), d)),
            ),
    {
        self.backend = target;
        self.dirs = Vec::new();
        match target {
            StorageBackend::ObjectStore => {},
            StorageBackend::FileSystem => {
                let n = self.files.len();
                for i in 0..n
                    invariant
                        n == self.files@.len(),
                        self.backend == StorageBackend::FileSystem,
                        self.files == old(self).files,
                        forall|a: int, b: int|
                            0 <= a < b < self.dirs@.len() ==> self.dirs@[a] != self.dirs@[b],
                        forall|d: MediaDir|
                            #[trigger] self.dir_set().contains(d) <==> exists|j: int|
                                0 <= j < i && spec_file_induces(
                                    spec_entry_key(self.files@[j]),
                                    d,
                                ),
                {
                    let user_id = self.files[i].0.user_id;
                    let community_id = self.files[i].0.community_id;
                    let ghost dirs_before = self.dir_set();
                    self.ensure_dir((user_id, None));
                    match community_id {
                        Some(c) => {
                            self.ensure_dir((user_id, Some(c)));
                        },
                        None => {},
                    }
                    proof {
                        let k = spec_entry_key(self.files@[i as int]);
                        assert forall|d: MediaDir| #[trigger] self.dir_set().contains(d) implies (
                        exists|j: int|
                            0 <= j < i + 1 && spec_file_induces(
                                spec_entry_key(self.files@[j]),
                                d,
                            )) by {
                            if dirs_before.contains(d) {
                                let j = choose|j: int|
                                    0 <= j < i && spec_file_induces(
                                        spec_entry_key(self.files@[j]),
                                        d,
                                    );
                                assert(spec_file_induces(spec_entry_key(self.files@[j]), d));
                            } else {
                                assert(spec_file_induces(k, d));
                                assert(0 <= i < i + 1);
                            }
                        }
                        assert forall|d: MediaDir|
                            (exists|j: int|
                                0 <= j < i + 1 && spec_file_induces(
                                    spec_entry_key(self.files@[j]),
                                    d,
                                )) implies #[trigger] self.dir_set().contains(d) by {
                            let j = choose|j: int|
                                0 <= j < i + 1 && spec_file_induces(
                                    spec_entry_key(self.files@[j]),
                                    d,
                                );
                            if j < i {
                                assert(dirs_before.contains(d));
                            }
                        }
                    }
                }
                proof {
                    assert forall|d: MediaDir| #[trigger] self.dir_set().contains(d)
                        <==> spec_dir_occupied(self.contents(), d) by {
                        if self.dir_set().contains(d) {
                            let j = choose|j: int|
                                0 <= j < n && spec_file_induces(spec_entry_key(self.files@[j]), d);
                            lemma_contents_complete(self.files@, spec_entry_key(self.files@[j]));
                        }
                        if spec_dir_occupied(self.contents(), d) {
                            match d.1 {
                                None => {
                                    let w = choose|w: PathKey|
                                        #[trigger] self.contents().dom().contains(w) && w.0 == d.0;
                                    lemma_contents_complete(self.files@, w);
                                    let j = choose|j: int|
                                        0 <= j < self.files@.len() && spec_entry_key(
                                            self.files@[j],
                                        ) == w;
                                    assert(spec_file_induces(spec_entry_key(self.files@[j]), d));
                                },
                                Some(community) => {
                                    let w = choose|w: PathKey|
                                        #[trigger] self.contents().dom().contains(w) && w.0 == d.0
                                            && w.1 == Some(community);
                                    lemma_contents_complete(self.files@, w);
                                    let j = choose|j: int|
                                        0 <= j < self.files@.len() && spec_entry_key(
                                            self.files@[j],
                                        ) == w;
                                    assert(spec_file_induces(spec_entry_key(self.files@[j]), d));
                                },
                            }
                        }
                    }
                    assert forall|k: PathKey|
                        #[trigger] self.contents().dom().contains(k) implies self.dir_set()
                        .contains((k.0, None)) && (k.1 is Some ==> self.dir_set().contains(
                        (k.0, k.1),
                    )) by {
                        assert(spec_dir_occupied(self.contents(), (k.0, None)));
                        if k.1 is Some {
                            assert(spec_dir_occupied(self.contents(), (k.0, k.1)));
                        }
                    }
                    assert forall|a: int|
                        0 <= a < self.dirs@.len() implies spec_dir_occupied(
                        self.contents(),
                        #[trigger] self.dirs@[a],
                    ) by {
                        assert(self.dir_set().contains(self.dirs@[a]));
                    }
                }
            },
        }
    }

    /// Whether some stored blob lies in `media/<user_id>/<community>`.
    fn some_file_in_community(&self, user_id: u64, community: u64) -> (r: bool)
        ensures
            r == exists|i: int|
                0 <= i < self.files@.len() && (#[trigger] spec_entry_key(self.files@[i])).0
                    == user_id && spec_entry_key(self.files@[i]).1 == Some(community),
    {
        let n = self.files.len();
        for i in 0..n
            invariant
                n == self.files@.len(),
                forall|j: int|
                    0 <= j < i ==> !((#[trigger] spec_entry_key(self.files@[j])).0 == user_id
                        && spec_entry_key(self.files@[j]).1 == Some(community)),
        {
            let p = &self.files[i].0;
            let in_community = match p.community_id {
                Some(c) => c == community,
                None => false,
            };
            if p.user_id == user_id && in_community {
                proof {
                    assert(spec_entry_key(self.files@[i as int]).0 == user_id);
                }
                return true;
            }
        }
        false
    }

    /// Whether some stored blob lies below `media/<user_id>`.
    fn some_file_of_user(&self, user_id: u64) -> (r: bool)
        ensures
            r == exists|i: int|
                0 <= i < self.files@.len() && (#[trigger] spec_entry_key(self.files@[i])).0
                    == user_id,
    {
        let n = self.files.len();
        for i in 0..n
            invariant
                n == self.files@.len(),
                forall|j: int|
                    0 <= j < i ==> (#[trigger] spec_entry_key(self.files@[j])).0 != user_id,
        {
            if self.files[i].0.user_id == user_id {
                proof {
                    assert(spec_entry_key(self.files@[i as int]).0 == user_id);
                }
                return true;
            }
        }
        false
    }
}

/// Under the filesystem strategy the blobs determine the directories: a
/// well-formed store holds exactly the directories that some blob lies in —
/// never an empty one, never a missing ancestor.
pub proof fn lemma_wf_determines_dirs(s: BlobStore)
    requires
        s.wf(),
        s.mode() == StorageBackend::FileSystem,
    ensures
        s.dir_set() =~= Set::new((|d: MediaDir| spec_dir_occupied(s.contents(), d))),
{
    assert forall|d: MediaDir| s.dir_set().contains(d) implies spec_dir_occupied(
        s.contents(),
        d,
    ) by {
        let i = choose|i: int| 0 <= i < s.dirs@.len() && s.dirs@[i] == d;
    }
    assert forall|d: MediaDir| spec_dir_occupied(s.contents(), d) implies s.dir_set().contains(
        d,
    ) by {
        match d.1 {
            None => {
                let w = choose|w: PathKey|
                    #[trigger] s.contents().dom().contains(w) && w.0 == d.0;
                assert(s.dir_set().contains((w.0, None)));
            },
            Some(community) => {
                let w = choose|w: PathKey|
                    #[trigger] s.contents().dom().contains(w) && w.0 == d.0 && w.1 == Some(
                        community,
                    );
                assert(s.dir_set().contains((w.0, w.1)));
            },
        }
    }
}

/// A user whose last blob is gone leaves no directories behind: in a
/// well-formed store no directory below the media root is empty, so once no
/// blob of a user remains, none of that user's directories exists either.
pub proof fn lemma_no_blobs_no_dirs(s: BlobStore, user_id: u64)
    requires
        s.wf(),
        !spec_user_occupied(s.contents(), user_id),
    ensures
        forall|d: MediaDir| s.dir_set().contains(d) ==> d.0 != user_id,
{
    assert forall|d: MediaDir| s.dir_set().contains(d) implies d.0 != user_id by {
        let i = choose|i: int| 0 <= i < s.dirs@.len() && s.dirs@[i] == d;
        match s.backend {
            StorageBackend::ObjectStore => {},
            StorageBackend::FileSystem => {
                assert(spec_dir_occupied(s.contents(), d));
                if d.0 == user_id {
                    match d.1 {
                        None => {},
                        Some(community) => {
                            let w = choose|w: PathKey|
                                #[trigger] s.contents().dom().contains(w) && w.0 == d.0 && w.1
                                    == Some(community);
                            assert(spec_user_occupied(s.contents(), user_id));
                        },
                    }
                }
            },
        }
    }
}

/// A directory holds a blob exactly when some file entry lies in it.
proof fn lemma_occupied_witness(files: Seq<(StoredPath, Vec<u8>)>, c: Map<PathKey, Seq<u8>>, d: MediaDir)
    requires
        c == spec_contents_of(files),
    ensures
        spec_dir_occupied(c, d) <==> match d.1 {
            None => exists|i: int|
                0 <= i < files.len() && (#[trigger] spec_entry_key(files[i])).0 == d.0,
            Some(community) => exists|i: int|
                0 <= i < files.len() && (#[trigger] spec_entry_key(files[i])).0 == d.0
                    && spec_entry_key(files[i]).1 == Some(community),
        },
{
    match d.1 {
        None => {
            if spec_user_occupied(c, d.0) {
                let w = choose|w: PathKey| #[trigger] c.dom().contains(w) && w.0 == d.0;
                lemma_contents_complete(files, w);
            }
            if exists|i: int|
                0 <= i < files.len() && (#[trigger] spec_entry_key(files[i])).0 == d.0 {
                let i = choose|i: int|
                    0 <= i < files.len() && (#[trigger] spec_entry_key(files[i])).0 == d.0;
                lemma_contents_complete(files, spec_entry_key(files[i]));
            }
        },
        Some(community) => {
            if spec_dir_occupied(c, d) {
                let w = choose|w: PathKey|
                    #[trigger] c.dom().contains(w) && w.0 == d.0 && w.1 == Some(community);
                lemma_contents_complete(files, w);
            }
            if exists|i: int|
                0 <= i < files.len() && (#[trigger] spec_entry_key(files[i])).0 == d.0
                    && spec_entry_key(files[i]).1 == Some(community) {
                let i = choose|i: int|
                    0 <= i < files.len() && (#[trigger] spec_entry_key(files[i])).0 == d.0
                        && spec_entry_key(files[i]).1 == Some(community);
                lemma_contents_complete(files, spec_entry_key(files[i]));
            }
        },
    }
}

/// A key is in the contents exactly when some entry carries it.
proof fn lemma_contents_complete(files: Seq<(StoredPath, Vec<u8>)>, k: PathKey)
    ensures
        spec_contents_of(files).dom().contains(k) <==> exists|i: int|
            0 <= i < files.len() && spec_entry_key(files[i]) == k,
    decreases files.len(),
{
    if files.len() > 0 {
        lemma_contents_complete(files.drop_last(), k);
        if spec_entry_key(files.last()) == k {
            assert(spec_entry_key(files[files.len() - 1]) == k);
        } else if spec_contents_of(files).dom().contains(k) {
            let i = choose|i: int|
                0 <= i < files.len() - 1 && spec_entry_key(files.drop_last()[i]) == k;
            assert(spec_entry_key(files[i]) == k);
        } else if exists|i: int| 0 <= i < files.len() && spec_entry_key(files[i]) == k {
            let i = choose|i: int| 0 <= i < files.len() && spec_entry_key(files[i]) == k;
            assert(spec_entry_key(files.drop_last()[i]) == k);
        }
    }
}

/// With unique keys, the contents map each entry's key to its bytes.
proof fn lemma_contents_at(files: Seq<(StoredPath, Vec<u8>)>, i: int)
    requires
        forall|a: int, b: int|
            0 <= a < b < files.len() ==> spec_entry_key(files[a]) != spec_entry_key(files[b]),
        0 <= i < files.len(),
    ensures
        spec_contents_of(files).dom().contains(spec_entry_key(files[i])),
        spec_contents_of(files)[spec_entry_key(files[i])] == files[i].1@,
    decreases files.len(),
{
    if i == files.len() - 1 {
    } else {
        lemma_contents_at(files.drop_last(), i);
        assert(spec_entry_key(files[files.len() - 1]) != spec_entry_key(files[i]));
    }
}

/// Replacing entry `i` by one with the same key updates the contents there.
proof fn lemma_contents_update(files: Seq<(StoredPath, Vec<u8>)>, i: int, e: (StoredPath, Vec<u8>))
    requires
        forall|a: int, b: int|
            0 <= a < b < files.len() ==> spec_entry_key(files[a]) != spec_entry_key(files[b]),
        0 <= i < files.len(),
        spec_entry_key(e) == spec_entry_key(files[i]),
    ensures
        spec_contents_of(files.update(i, e)) == spec_contents_of(files).insert(
            spec_entry_key(e),
            e.1@,
        ),
    decreases files.len(),
{
    let updated = files.update(i, e);
    if i == files.len() - 1 {
        assert(updated.drop_last() =~= files.drop_last());
        assert(updated.last() == e);
        assert(spec_contents_of(updated) =~= spec_contents_of(files).insert(
            spec_entry_key(e),
            e.1@,
        ));
    } else {
        assert(updated.drop_last() =~= files.drop_last().update(i, e));
        assert(updated.last() == files.last());
        lemma_contents_update(files.drop_last(), i, e);
        assert(spec_entry_key(files.last()) != spec_entry_key(e));
        assert(spec_contents_of(updated) =~= spec_contents_of(files).insert(
            spec_entry_key(e),
            e.1@,
        ));
    }
}

/// Removing entry `i` removes exactly its key from the contents.
proof fn lemma_contents_removed(files: Seq<(StoredPath, Vec<u8>)>, i: int)
    requires
        forall|a: int, b: int|
            0 <= a < b < files.len() ==> spec_entry_key(files[a]) != spec_entry_key(files[b]),
        0 <= i < files.len(),
    ensures
        spec_contents_of(files.remove(i)) == spec_contents_of(files).remove(spec_entry_key(files[i])),
    decreases files.len(),
{
    let shorter = files.remove(i);
    if i == files.len() - 1 {
        assert(shorter =~= files.drop_last());
        lemma_contents_complete(files.drop_last(), spec_entry_key(files[i]));
        assert(!spec_contents_of(files.drop_last()).dom().contains(spec_entry_key(files[i])));
        assert(spec_contents_of(shorter) =~= spec_contents_of(files).remove(
            spec_entry_key(files[i]),
        ));
    } else {
        assert(shorter.drop_last() =~= files.drop_last().remove(i));
        assert(shorter.last() == files.last());
        lemma_contents_removed(files.drop_last(), i);
        assert(spec_entry_key(files.last()) != spec_entry_key(files[i]));
        assert(spec_contents_of(shorter) =~= spec_contents_of(files).remove(
            spec_entry_key(files[i]),
        ));
    }
}

} // verus!
