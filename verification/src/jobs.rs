//! Jobs: what has to be fetched for a file, and where to put it.

use vstd::prelude::*;
use std::path::PathBuf;
use crate::file::{File, FileView, Kind};
use crate::fscache::{CacheView, DirSlot, FsCache, Meta, MetaSlot};
use crate::pathname::same_path;

verus! {

/// A path, the slot for its metadata and the slot for its size as a
/// directory. Without a slot nothing is fetched for it.
pub type Job = (PathBuf, Option<MetaSlot>, Option<DirSlot>);

/// What is left of a file, a job and the cache when the file has been given
/// the slots that it lacked.
#[verifier::ext_equal]
pub struct Prepared {
    pub file: FileView,
    pub job: Option<Job>,
    pub cache: CacheView,
}

/// The slot for metadata that a file still needs.
pub open spec fn meta_slot_for(file: FileView, cache: CacheView) -> Option<MetaSlot> {
    if file.meta is None {
        Some(cache.next_meta())
    } else {
        None
    }
}

/// The slot for a directory's size that a file still needs: the one that its
/// path has already, or else a new one.
pub open spec fn dir_slot_for(file: FileView, cache: CacheView) -> Option<DirSlot> {
    if file.dirsize is None && file.kind == Kind::Directory {
        match cache.dir_slot(file.path) {
            Some(slot) => Some(slot),
            None => Some(cache.next_dir()),
        }
    } else {
        None
    }
}

/// Gives a file the slots that it lacks. There is a job if it lacked one.
pub open spec fn prepared(file: FileView, cache: CacheView) -> Prepared {
    let mslot = meta_slot_for(file, cache);
    let dslot = dir_slot_for(file, cache);
    let with_meta = if mslot is Some {
        cache.with_new_meta()
    } else {
        cache
    };
    Prepared {
        file: FileView {
            meta: if mslot is Some {
                mslot
            } else {
                file.meta
            },
            dirsize: if dslot is Some {
                dslot
            } else {
                file.dirsize
            },
            ..file
        },
        job: if mslot is Some || dslot is Some {
            Some((file.path, mslot, dslot))
        } else {
            None
        },
        cache: if dslot is Some && cache.dir_slot(file.path) is None {
            with_meta.with_new_dir(file.path)
        } else {
            with_meta
        },
    }
}

/// The job that fetches a file's metadata again. A file without a slot gets
/// none from it: what is fetched goes to a slot of its own.
pub open spec fn refetch_job(file: FileView, cache: CacheView) -> Job {
    match file.meta {
        Some(slot) => (file.path, Some(slot), None),
        None => (file.path, Some(cache.next_meta()), None),
    }
}

/// The cache when a file's metadata is to be fetched again: its slot is empty.
pub open spec fn refetch_cache(file: FileView, cache: CacheView) -> CacheView {
    match file.meta {
        Some(slot) => cache.with_meta(slot, None),
        None => cache.with_new_meta(),
    }
}

/// The metadata that a file finds in its slot.
pub open spec fn meta_of(file: FileView, cache: CacheView) -> Option<Meta> {
    match file.meta {
        Some(slot) => cache.meta_at(slot),
        None => None,
    }
}

proof fn lemma_dir_slot_ignores_metas(a: CacheView, b: CacheView, path: PathBuf, start: int)
    requires
        a.dirs == b.dirs,
    ensures
        a.dir_slot_from(path, start) == b.dir_slot_from(path, start),
    decreases a.dirs.len() - start,
{
    if 0 <= start < a.dirs.len() && !same_path(a.dirs[start].0, path) {
        lemma_dir_slot_ignores_metas(a, b, path, start + 1);
    }
}

impl File {
    /// Says where the size of the directory is to be found.
    pub fn set_dirsize(&mut self, dirsize: DirSlot)
        ensures
            *final(self) == (File { dirsize: Some(dirsize), ..*old(self) }),
    {
        self.dirsize = Some(dirsize);
    }

    /// Empties the slot of the file's metadata and asks for it again.
    pub fn refresh_meta_job(&mut self, cache: &mut FsCache) -> (res: Job)
        ensures
            res == refetch_job(old(self)@, old(cache)@),
            *final(self) == *old(self),
            final(cache)@ == refetch_cache(old(self)@, old(cache)@),
            old(cache)@.wf() ==> final(cache)@.wf(),
    {
        let meta = match self.meta {
            Some(slot) => {
                cache.set_meta(slot, None);
                slot
            },
            None => cache.make_meta(),
        };
        (self.path.clone(), Some(meta), None)
    }

    /// Gives the file the slots that it lacks, and the job that fills them.
    pub fn prepare_meta_job(&mut self, cache: &mut FsCache) -> (res: Option<Job>)
        ensures
            final(self)@ == prepared(old(self)@, old(cache)@).file,
            res == prepared(old(self)@, old(cache)@).job,
            final(cache)@ == prepared(old(self)@, old(cache)@).cache,
            old(cache)@.wf() ==> final(cache)@.wf(),
    {
        let ghost before = cache@;
        let mslot = match self.meta {
            Some(_) => None,
            None => {
                let slot = cache.make_meta();
                self.meta = Some(slot);
                Some(slot)
            },
        };
        proof {
            lemma_dir_slot_ignores_metas(cache@, before, self.path, 0);
        }
        let dslot = if self.dirsize.is_none() && self.is_dir() {
            let slot = match cache.get_dirsize(self) {
                Some(slot) => slot,
                None => cache.make_dirsize(self),
            };
            self.set_dirsize(slot);
            Some(slot)
        } else {
            None
        };
        if mslot.is_some() || dslot.is_some() {
            Some((self.path.clone(), mslot, dslot))
        } else {
            None
        }
    }

    /// The file's metadata, if it has arrived.
    pub fn meta(&self, cache: &FsCache) -> (res: Option<Meta>)
        ensures
            res == meta_of(self@, cache@),
    {
        match self.meta {
            Some(slot) => cache.meta_at(slot),
            None => None,
        }
    }
}

/// A file that has been prepared needs nothing more: preparing it again gives
/// no job and changes nothing.
pub proof fn preparing_twice_is_preparing_once(file: FileView, cache: CacheView)
    ensures
        ({
            let once = prepared(file, cache);
            let twice = prepared(once.file, once.cache);
            &&& twice.job is None
            &&& twice.file == once.file
            &&& twice.cache == once.cache
        }),
{
}

/// When a file's metadata is to be fetched again, the old one is gone.
pub proof fn refetched_metadata_is_pending(file: FileView, cache: CacheView)
    ensures
        meta_of(file, refetch_cache(file, cache)) is None,
{
}

/// Files with the same slot find the same metadata, whichever of them it was
/// fetched for.
pub proof fn slots_are_shared(a: FileView, b: FileView, cache: CacheView)
    requires
        a.meta == b.meta,
    ensures
        meta_of(a, cache) == meta_of(b, cache),
{
}

/// Two directories of the same path are given the same slot for their size,
/// whichever is prepared first.
pub proof fn equal_directories_share_their_size(a: FileView, b: FileView, cache: CacheView)
    requires
        a.kind == Kind::Directory,
        b.kind == Kind::Directory,
        a.dirsize is None,
        b.dirsize is None,
        same_path(a.path, b.path),
    ensures
        ({
            let first = prepared(a, cache);
            prepared(b, first.cache).file.dirsize == first.file.dirsize
        }),
{
    let first = prepared(a, cache);
    lemma_new_dir_is_found(cache, first.cache, a.path, b.path, 0);
}

/// The slot of a directory is found under each of its equal paths.
proof fn lemma_new_dir_is_found(
    before: CacheView,
    after: CacheView,
    a: PathBuf,
    b: PathBuf,
    start: int,
)
    requires
        same_path(a, b),
        0 <= start <= before.dirs.len(),
        after.dirs == before.dirs || after.dirs == before.dirs.push((a, before.next_dir())),
    ensures
        before.dir_slot_from(a, start) is Some ==> after.dir_slot_from(b, start)
            == before.dir_slot_from(a, start),
        before.dir_slot_from(a, start) is None && after.dirs != before.dirs
            ==> after.dir_slot_from(b, start) == Some(before.next_dir()),
    decreases before.dirs.len() - start,
{
    if start < before.dirs.len() {
        assert(after.dirs[start] == before.dirs[start]);
        if !same_path(before.dirs[start].0, a) {
            lemma_new_dir_is_found(before, after, a, b, start + 1);
        }
    } else if after.dirs != before.dirs {
        assert(after.dirs[start] == (a, before.next_dir()));
    }
}

/// The slot that a directory has exists.
pub proof fn lemma_dir_slot_exists(cache: CacheView, path: PathBuf, start: int)
    requires
        cache.wf(),
    ensures
        cache.dir_slot_from(path, start) matches Some(slot) ==> slot.0 < cache.dirsizes.len(),
    decreases cache.dirs.len() - start,
{
    if 0 <= start < cache.dirs.len() && !same_path(cache.dirs[start].0, path) {
        lemma_dir_slot_exists(cache, path, start + 1);
    }
}

/// A file that has been prepared has a slot for its metadata and, if it is a
/// directory, one for its size. The slots that it had stay, and it is as it was
/// otherwise.
pub proof fn prepared_files_have_their_slots(file: FileView, cache: CacheView)
    ensures
        ({
            let after = prepared(file, cache).file;
            &&& after.meta is Some
            &&& file.kind == Kind::Directory ==> after.dirsize is Some
            &&& file.meta is Some ==> after.meta == file.meta
            &&& file.dirsize is Some || file.kind != Kind::Directory ==> after.dirsize
                == file.dirsize
            &&& after.name == file.name
            &&& after.path == file.path
            &&& after.hidden == file.hidden
            &&& after.kind == file.kind
            &&& after.target == file.target
            &&& after.selected == file.selected
            &&& after.tag == file.tag
        }),
{
}

/// There is a job exactly where a slot was missing. It has the file's path and
/// asks for what goes into the slots that the file was given, and no other.
pub proof fn jobs_ask_for_what_was_missing(file: FileView, cache: CacheView)
    ensures
        ({
            let lacks_meta = file.meta is None;
            let lacks_size = file.kind == Kind::Directory && file.dirsize is None;
            let after = prepared(file, cache).file;
            &&& !lacks_meta && !lacks_size <==> prepared(file, cache).job is None
            &&& prepared(file, cache).job matches Some(job) ==> {
                &&& job.0 == file.path
                &&& lacks_meta ==> job.1 == after.meta
                &&& !lacks_meta ==> job.1 is None
                &&& lacks_size ==> job.2 == after.dirsize
                &&& !lacks_size ==> job.2 is None
            }
        }),
{
}

/// Preparing a file disturbs no slot: what was in one still is, and the slot for
/// metadata that the file gets is a new and empty one.
pub proof fn preparing_disturbs_no_slot(file: FileView, cache: CacheView)
    requires
        cache.metas.len() < usize::MAX,
        cache.dirsizes.len() < usize::MAX,
    ensures
        ({
            let ready = prepared(file, cache);
            &&& forall|slot: MetaSlot| #[trigger]
                ready.cache.meta_at(slot) == cache.meta_at(slot)
            &&& forall|slot: DirSlot| #[trigger]
                ready.cache.dirsize_at(slot) == cache.dirsize_at(slot)
            &&& file.meta is None ==> (ready.file.meta matches Some(slot) && cache.metas.len()
                <= slot.0 < ready.cache.metas.len())
        }),
{
}

/// Asking for metadata again empties the file's own slot and no other. The job
/// has the file's path, and what comes of it goes to the file's slot, if it has
/// one; a directory is not counted again.
pub proof fn refetching_empties_one_slot(file: FileView, cache: CacheView)
    ensures
        ({
            let job = refetch_job(file, cache);
            let after = refetch_cache(file, cache);
            &&& job.0 == file.path
            &&& job.1 is Some
            &&& file.meta is Some ==> job.1 == file.meta
            &&& job.2 is None
            &&& forall|slot: MetaSlot|
                Some(slot) != file.meta ==> #[trigger] after.meta_at(slot) == cache.meta_at(slot)
            &&& after.dirsizes == cache.dirsizes
            &&& after.dirs == cache.dirs
        }),
{
}

} // verus!
