//! The slots in which metadata arrives.
//!
//! Metadata is slow to get, so a file does not hold it: it holds the number of
//! a slot. Whoever fetches the metadata fills the slot, and every copy of the
//! file finds it there.

use vstd::prelude::*;
use std::path::PathBuf;
use crate::file::File;
use crate::pathname::{paths_equal, same_path};

verus! {

/// What the library reads of a file's metadata.
#[derive(Debug, Copy, Clone, PartialEq, Eq, Structural)]
pub struct Meta {
    /// The size in bytes.
    pub size: u64,
    /// The time of the last change, in seconds since 1970.
    pub mtime: i64,
    /// The kind and permission bits.
    pub mode: u32,
    pub uid: u32,
    pub gid: u32,
}

/// The number of entries of a directory, once it has been counted.
#[derive(Debug, Copy, Clone, PartialEq, Eq, Structural)]
pub struct DirSize {
    pub ready: bool,
    pub size: usize,
}

/// The number of a slot for metadata.
#[derive(Debug, Copy, Clone, PartialEq, Eq, Structural)]
pub struct MetaSlot(pub usize);

/// The number of a slot for a directory's size.
#[derive(Debug, Copy, Clone, PartialEq, Eq, Structural)]
pub struct DirSlot(pub usize);

/// All slots, and the directories that have one.
#[derive(Debug)]
pub struct FsCache {
    pub metas: Vec<Option<Meta>>,
    pub dirsizes: Vec<DirSize>,
    pub dirs: Vec<(PathBuf, DirSlot)>,
}

/// An [`FsCache`] as sequences.
#[verifier::ext_equal]
pub struct CacheView {
    pub metas: Seq<Option<Meta>>,
    pub dirsizes: Seq<DirSize>,
    pub dirs: Seq<(PathBuf, DirSlot)>,
}

impl View for FsCache {
    type V = CacheView;

    open spec fn view(&self) -> CacheView {
        CacheView { metas: self.metas@, dirsizes: self.dirsizes@, dirs: self.dirs@ }
    }
}

impl CacheView {
    /// Every directory's slot exists.
    pub open spec fn wf(self) -> bool {
        forall|i: int| 0 <= i < self.dirs.len() ==> #[trigger] self.dirs[i].1.0
            < self.dirsizes.len()
    }

    /// What a slot for metadata holds.
    pub open spec fn meta_at(self, slot: MetaSlot) -> Option<Meta> {
        if slot.0 < self.metas.len() {
            self.metas[slot.0 as int]
        } else {
            None
        }
    }

    /// What a slot for a directory's size holds.
    pub open spec fn dirsize_at(self, slot: DirSlot) -> DirSize {
        if slot.0 < self.dirsizes.len() {
            self.dirsizes[slot.0 as int]
        } else {
            DirSize { ready: false, size: 0 }
        }
    }

    /// The cache with a slot's metadata replaced.
    pub open spec fn with_meta(self, slot: MetaSlot, meta: Option<Meta>) -> CacheView {
        if slot.0 < self.metas.len() {
            CacheView { metas: self.metas.update(slot.0 as int, meta), ..self }
        } else {
            self
        }
    }

    /// The cache with a directory's size filled in.
    pub open spec fn with_dirsize(self, slot: DirSlot, size: usize) -> CacheView {
        if slot.0 < self.dirsizes.len() {
            CacheView {
                dirsizes: self.dirsizes.update(slot.0 as int, DirSize { ready: true, size }),
                ..self
            }
        } else {
            self
        }
    }

    /// The slot that the next call for one gets.
    pub open spec fn next_meta(self) -> MetaSlot {
        MetaSlot(self.metas.len() as usize)
    }

    /// The cache with one more, empty slot for metadata.
    pub open spec fn with_new_meta(self) -> CacheView {
        CacheView { metas: self.metas.push(None), ..self }
    }

    /// The slot of a directory, looked for from the entry `start` on.
    pub open spec fn dir_slot_from(self, path: PathBuf, start: int) -> Option<DirSlot>
        decreases self.dirs.len() - start,
    {
        if start < 0 || start >= self.dirs.len() {
            None
        } else if same_path(self.dirs[start].0, path) {
            Some(self.dirs[start].1)
        } else {
            self.dir_slot_from(path, start + 1)
        }
    }

    /// The slot of a directory, if it has one.
    pub open spec fn dir_slot(self, path: PathBuf) -> Option<DirSlot> {
        self.dir_slot_from(path, 0)
    }

    /// The slot that the next directory gets.
    pub open spec fn next_dir(self) -> DirSlot {
        DirSlot(self.dirsizes.len() as usize)
    }

    /// The cache with a slot, not counted yet, for one more directory.
    pub open spec fn with_new_dir(self, path: PathBuf) -> CacheView {
        CacheView {
            dirsizes: self.dirsizes.push(DirSize { ready: false, size: 0 }),
            dirs: self.dirs.push((path, self.next_dir())),
            ..self
        }
    }
}

impl Default for FsCache {
    fn default() -> (res: FsCache)
        ensures
            res@ == (CacheView { metas: seq![], dirsizes: seq![], dirs: seq![] }),
            res@.wf(),
    {
        FsCache { metas: Vec::new(), dirsizes: Vec::new(), dirs: Vec::new() }
    }
}

impl FsCache {
    /// What a slot for metadata holds; nothing where there is no such slot.
    pub fn meta_at(&self, slot: MetaSlot) -> (res: Option<Meta>)
        ensures
            res == self@.meta_at(slot),
    {
        if slot.0 < self.metas.len() {
            self.metas[slot.0]
        } else {
            None
        }
    }

    /// What a slot for a directory's size holds; where there is no such slot,
    /// a size that is not counted yet.
    pub fn dirsize_at(&self, slot: DirSlot) -> (res: DirSize)
        ensures
            res == self@.dirsize_at(slot),
    {
        if slot.0 < self.dirsizes.len() {
            self.dirsizes[slot.0]
        } else {
            DirSize { ready: false, size: 0 }
        }
    }

    /// Makes an empty slot for metadata.
    pub fn make_meta(&mut self) -> (res: MetaSlot)
        ensures
            res == old(self)@.next_meta(),
            final(self)@ == old(self)@.with_new_meta(),
            old(self)@.wf() ==> final(self)@.wf(),
    {
        let slot = MetaSlot(self.metas.len());
        self.metas.push(None);
        slot
    }

    /// Fills or empties a slot for metadata.
    pub fn set_meta(&mut self, slot: MetaSlot, meta: Option<Meta>)
        ensures
            final(self)@ == old(self)@.with_meta(slot, meta),
            old(self)@.wf() ==> final(self)@.wf(),
    {
        if slot.0 < self.metas.len() {
            self.metas[slot.0] = meta;
        }
    }

    /// Notes how many entries a directory has.
    pub fn fill_dirsize(&mut self, slot: DirSlot, size: usize)
        ensures
            final(self)@ == old(self)@.with_dirsize(slot, size),
            old(self)@.wf() ==> final(self)@.wf(),
    {
        if slot.0 < self.dirsizes.len() {
            self.dirsizes[slot.0] = DirSize { ready: true, size };
        }
    }

    /// The slot for the size of a directory, if it has one already.
    pub fn get_dirsize(&self, dir: &File) -> (res: Option<DirSlot>)
        ensures
            res == self@.dir_slot(dir.path),
    {
        for i in 0..self.dirs.len()
            invariant
                self@.dir_slot(dir.path) == self@.dir_slot_from(dir.path, i as int),
        {
            if paths_equal(&self.dirs[i].0, &dir.path) {
                return Some(self.dirs[i].1);
            }
        }
        None
    }

    /// Makes a slot for the size of a directory.
    pub fn make_dirsize(&mut self, dir: &File) -> (res: DirSlot)
        ensures
            res == old(self)@.next_dir(),
            final(self)@ == old(self)@.with_new_dir(dir.path),
            old(self)@.wf() ==> final(self)@.wf(),
    {
        let slot = DirSlot(self.dirsizes.len());
        self.dirsizes.push(DirSize { ready: false, size: 0 });
        self.dirs.push((dir.path.clone(), slot));
        slot
    }
}

/// What is put into a slot is found there, and no other slot changes.
pub proof fn slots_hold_what_was_put_there(
    cache: CacheView,
    slot: MetaSlot,
    meta: Option<Meta>,
    dir: DirSlot,
    size: usize,
)
    ensures
        slot.0 < cache.metas.len() ==> cache.with_meta(slot, meta).meta_at(slot) == meta,
        forall|other: MetaSlot|
            other != slot ==> #[trigger] cache.with_meta(slot, meta).meta_at(other)
                == cache.meta_at(other),
        forall|other: DirSlot| #[trigger]
            cache.with_meta(slot, meta).dirsize_at(other) == cache.dirsize_at(other),
        cache.with_meta(slot, meta).dirs == cache.dirs,
        dir.0 < cache.dirsizes.len() ==> cache.with_dirsize(dir, size).dirsize_at(dir).ready
            && cache.with_dirsize(dir, size).dirsize_at(dir).size == size,
        forall|other: DirSlot|
            other != dir ==> #[trigger] cache.with_dirsize(dir, size).dirsize_at(other)
                == cache.dirsize_at(other),
        forall|other: MetaSlot| #[trigger]
            cache.with_dirsize(dir, size).meta_at(other) == cache.meta_at(other),
        cache.with_dirsize(dir, size).dirs == cache.dirs,
{
}

/// A new slot is empty and was not there before; what the others hold stays.
pub proof fn new_slots_are_empty(cache: CacheView, path: PathBuf)
    requires
        cache.metas.len() < usize::MAX,
        cache.dirsizes.len() < usize::MAX,
    ensures
        cache.next_meta().0 >= cache.metas.len(),
        cache.next_meta().0 < cache.with_new_meta().metas.len(),
        cache.with_new_meta().meta_at(cache.next_meta()) is None,
        forall|other: MetaSlot| #[trigger]
            cache.with_new_meta().meta_at(other) == cache.meta_at(other),
        cache.with_new_meta().dirsizes == cache.dirsizes,
        cache.with_new_meta().dirs == cache.dirs,
        cache.next_dir().0 >= cache.dirsizes.len(),
        cache.next_dir().0 < cache.with_new_dir(path).dirsizes.len(),
        !cache.with_new_dir(path).dirsize_at(cache.next_dir()).ready,
        forall|other: DirSlot| #[trigger]
            cache.with_new_dir(path).dirsize_at(other) == cache.dirsize_at(other),
        cache.with_new_dir(path).metas == cache.metas,
{
}

/// A directory has a slot exactly where some directory of the same path was
/// given one, and then it has that of the first.
pub proof fn directories_are_found_by_path(cache: CacheView, path: PathBuf)
    ensures
        cache.dir_slot(path) is None <==> forall|i: int|
            0 <= i < cache.dirs.len() ==> !same_path(#[trigger] cache.dirs[i].0, path),
        forall|i: int|
            #![trigger cache.dirs[i]]
            0 <= i < cache.dirs.len() && same_path(cache.dirs[i].0, path) && (forall|j: int|
                0 <= j < i ==> !same_path(#[trigger] cache.dirs[j].0, path)) ==> cache.dir_slot(
                path,
            ) == Some(cache.dirs[i].1),
{
    lemma_dir_slot_from(cache, path, 0);
}

proof fn lemma_dir_slot_from(cache: CacheView, path: PathBuf, start: int)
    requires
        0 <= start <= cache.dirs.len(),
    ensures
        cache.dir_slot_from(path, start) is None <==> forall|i: int|
            start <= i < cache.dirs.len() ==> !same_path(#[trigger] cache.dirs[i].0, path),
        forall|i: int|
            #![trigger cache.dirs[i]]
            start <= i < cache.dirs.len() && same_path(cache.dirs[i].0, path) && (forall|j: int|
                start <= j < i ==> !same_path(#[trigger] cache.dirs[j].0, path))
                ==> cache.dir_slot_from(path, start) == Some(cache.dirs[i].1),
    decreases cache.dirs.len() - start,
{
    if start < cache.dirs.len() {
        if !same_path(cache.dirs[start].0, path) {
            lemma_dir_slot_from(cache, path, start + 1);
        }
    }
}

} // verus!
