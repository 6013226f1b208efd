//! Asking for the metadata of the shown files.

use vstd::prelude::*;
use crate::file::{FileView, Kind};
use crate::files::Files;
use crate::fscache::{CacheView, FsCache};
use crate::jobs::{jobs_ask_for_what_was_missing, prepared, prepared_files_have_their_slots, Job};
use crate::viewing::{lemma_filter_step, Viewing};

verus! {

/// Where [`Files::enqueue_jobs`] stands after some files.
#[verifier::ext_equal]
pub struct Enqueued {
    pub files: Seq<FileView>,
    pub jobs: Seq<Job>,
    pub cache: CacheView,
    /// How many of the files were shown.
    pub seen: nat,
}

/// Prepares, among the first `n` files, the shown ones from the `from`-th up
/// to the `upto`-th.
pub open spec fn enqueued(
    files: Seq<FileView>,
    view: Viewing,
    cache: CacheView,
    from: int,
    upto: int,
    n: nat,
) -> Enqueued
    decreases n,
{
    if n == 0 {
        Enqueued { files, jobs: seq![], cache, seen: 0 }
    } else {
        let so_far = enqueued(files, view, cache, from, upto, (n - 1) as nat);
        let file = files[n - 1];
        if !view.shows(file) {
            so_far
        } else if from <= so_far.seen < upto {
            let step = prepared(file, so_far.cache);
            Enqueued {
                files: so_far.files.update(n - 1, step.file),
                jobs: match step.job {
                    Some(job) => so_far.jobs.push(job),
                    None => so_far.jobs,
                },
                cache: step.cache,
                seen: so_far.seen + 1,
            }
        } else {
            Enqueued { seen: so_far.seen + 1, ..so_far }
        }
    }
}

impl Files {
    /// `after` and `then` are the listing and the cache when
    /// [`Files::enqueue_jobs`] has been called.
    pub open spec fn enqueues(&self, n: usize, cache: FsCache, after: &Files, then: FsCache) -> bool {
        let from = self.meta_upto.unwrap_or(0);
        let done = enqueued(
            self.entries(),
            self.viewing(),
            cache@,
            from as int,
            from + n,
            self.files@.len(),
        );
        &&& *after == (Files {
            files: after.files,
            jobs: after.jobs,
            meta_upto: Some((from + n) as usize),
            ..*self
        })
        &&& self.has_cache ==> {
            &&& after.entries() == done.files
            &&& after.jobs@ == self.jobs@ + done.jobs
            &&& then@ == done.cache
        }
        &&& !self.has_cache ==> {
            &&& after.files == self.files
            &&& after.jobs == self.jobs
            &&& then == cache
        }
    }

    /// Asks for the metadata of the next `n` shown files.
    pub fn enqueue_jobs(&mut self, n: usize, cache: &mut FsCache)
        requires
            old(self).meta_upto.unwrap_or(0) + n <= usize::MAX,
        ensures
            old(self).enqueues(n, *old(cache), final(self), *final(cache)),
    {
        let from: usize = match self.meta_upto {
            Some(from) => from,
            None => 0,
        };
        let upto: usize = from + n;
        self.meta_upto = Some(upto);
        if !self.has_cache {
            return;
        }
        let mut seen: usize = 0;
        let mut jobs: Vec<Job> = Vec::new();
        let ghost all = self.entries();
        let ghost view = self.viewing();
        let ghost start = cache@;
        let count = self.files.len();
        for i in 0..count
            invariant
                count == all.len(),
                *self == (Files { files: self.files, meta_upto: Some(upto), ..*old(self) }),
                all == old(self).entries(),
                view == old(self).viewing(),
                view == self.viewing(),
                self.files@.len() == all.len(),
                forall|j: int| i <= j < all.len() ==> #[trigger] self.files@[j]@ == all[j],
                ({
                    let done = enqueued(all, view, start, from as int, upto as int, i as nat);
                    &&& self.entries() == done.files
                    &&& jobs@ == done.jobs
                    &&& cache@ == done.cache
                    &&& seen == done.seen
                }),
                seen <= i,
        {
            if self.shows(&self.files[i]) {
                if from <= seen && seen < upto {
                    let ghost before = self.entries();
                    let file = &mut self.files[i];
                    if let Some(job) = file.prepare_meta_job(cache) {
                        jobs.push(job);
                    }
                    assert(self.entries() =~= before.update(i as int, self.files@[i as int]@));
                }
                seen = seen + 1;
            }
        }
        self.jobs.append(&mut jobs);
    }
}

/// Preparing a file does not change whether it is shown.
proof fn lemma_prepared_shows(file: FileView, cache: CacheView, view: Viewing)
    ensures
        view.shows(prepared(file, cache).file) == view.shows(file),
{
}

/// The files behind the first `n` are untouched, all are shown as before, and
/// no more than `n` were seen.
proof fn lemma_enqueued_frame(
    files: Seq<FileView>,
    view: Viewing,
    cache: CacheView,
    from: int,
    upto: int,
    n: nat,
)
    requires
        n <= files.len(),
    ensures
        ({
            let done = enqueued(files, view, cache, from, upto, n);
            &&& done.files.len() == files.len()
            &&& forall|i: int| n <= i < files.len() ==> #[trigger] done.files[i] == files[i]
            &&& forall|i: int|
                0 <= i < files.len() ==> view.shows(#[trigger] done.files[i]) == view.shows(
                    files[i],
                )
            &&& done.seen <= n
        }),
    decreases n,
{
    if n > 0 {
        lemma_enqueued_frame(files, view, cache, from, upto, (n - 1) as nat);
        let so_far = enqueued(files, view, cache, from, upto, (n - 1) as nat);
        lemma_prepared_shows(files[n - 1], so_far.cache, view);
    }
}

/// How many files are seen does not depend on the range nor on what has been
/// prepared.
proof fn lemma_seen(
    a: Seq<FileView>,
    b: Seq<FileView>,
    view: Viewing,
    ca: CacheView,
    cb: CacheView,
    fa: int,
    ua: int,
    fb: int,
    ub: int,
    n: nat,
)
    requires
        n <= a.len(),
        a.len() == b.len(),
        forall|i: int| 0 <= i < a.len() ==> view.shows(#[trigger] a[i]) == view.shows(b[i]),
    ensures
        enqueued(a, view, ca, fa, ua, n).seen == enqueued(b, view, cb, fb, ub, n).seen,
    decreases n,
{
    if n > 0 {
        lemma_seen(a, b, view, ca, cb, fa, ua, fb, ub, (n - 1) as nat);
        assert(view.shows(a[n - 1]) == view.shows(b[n - 1]));
    }
}

/// Asking for two ranges, one after the other, is asking for both at once: the
/// files, the jobs and the cache are the same in the end.
pub proof fn ranges_add_up(
    files: Seq<FileView>,
    view: Viewing,
    cache: CacheView,
    from: int,
    middle: int,
    upto: int,
)
    requires
        from <= middle <= upto,
    ensures
        ({
            let n = files.len();
            let first = enqueued(files, view, cache, from, middle, n);
            let second = enqueued(first.files, view, first.cache, middle, upto, n);
            let both = enqueued(files, view, cache, from, upto, n);
            &&& second.files == both.files
            &&& first.jobs + second.jobs == both.jobs
            &&& second.cache == both.cache
        }),
{
    let n = files.len();
    lemma_ranges(files, view, cache, from, middle, upto, n);
}

/// The same for the first `n` files: as long as the first range lasts, the
/// second has nothing to do; from then on the first is done.
proof fn lemma_ranges(
    files: Seq<FileView>,
    view: Viewing,
    cache: CacheView,
    from: int,
    middle: int,
    upto: int,
    n: nat,
)
    requires
        n <= files.len(),
        from <= middle <= upto,
    ensures
        ({
            let all = enqueued(files, view, cache, from, middle, files.len());
            let first = enqueued(files, view, cache, from, middle, n);
            let second = enqueued(all.files, view, all.cache, middle, upto, n);
            let both = enqueued(files, view, cache, from, upto, n);
            &&& first.seen == both.seen
            &&& second.seen == both.seen
            &&& both.seen <= middle ==> {
                &&& both == first
                &&& second.files == all.files
                &&& second.jobs == Seq::<Job>::empty()
                &&& second.cache == all.cache
            }
            &&& both.seen >= middle ==> {
                &&& first.jobs == all.jobs
                &&& first.cache == all.cache
                &&& first.files == all.files
                &&& both.files == second.files
                &&& both.jobs == all.jobs + second.jobs
                &&& both.cache == second.cache
            }
        }),
    decreases n,
{
    let all = enqueued(files, view, cache, from, middle, files.len());
    lemma_enqueued_frame(files, view, cache, from, middle, files.len());
    lemma_enqueued_frame(files, view, cache, from, middle, n);
    lemma_enqueued_frame(files, view, cache, from, upto, n);
    lemma_seen(files, files, view, cache, cache, from, middle, from, upto, n);
    lemma_seen(files, all.files, view, cache, all.cache, from, upto, middle, upto, n);
    if enqueued(files, view, cache, from, middle, n).seen >= middle {
        lemma_range_is_done(files, view, cache, from, middle, n, files.len());
    }
    if n > 0 {
        let m = (n - 1) as nat;
        lemma_ranges(files, view, cache, from, middle, upto, m);
        lemma_enqueued_frame(files, view, cache, from, middle, m);
        let first = enqueued(files, view, cache, from, middle, m);
        if view.shows(files[m as int]) && first.seen >= middle {
            assert(first.files[m as int] == files[m as int]);
            assert(all.files[m as int] == files[m as int]);
        }
    }
    let both = enqueued(files, view, cache, from, upto, n);
    let second = enqueued(all.files, view, all.cache, middle, upto, n);
    if both.seen >= middle {
        assert(both.jobs =~= all.jobs + second.jobs);
    }
}

/// Once a range has been seen, the files that follow change nothing.
proof fn lemma_range_is_done(
    files: Seq<FileView>,
    view: Viewing,
    cache: CacheView,
    from: int,
    upto: int,
    m: nat,
    n: nat,
)
    requires
        m <= n <= files.len(),
        enqueued(files, view, cache, from, upto, m).seen >= upto,
    ensures
        ({
            let early = enqueued(files, view, cache, from, upto, m);
            let late = enqueued(files, view, cache, from, upto, n);
            &&& late.files == early.files
            &&& late.jobs == early.jobs
            &&& late.cache == early.cache
            &&& late.seen >= upto
        }),
    decreases n,
{
    if m < n {
        lemma_range_is_done(files, view, cache, from, upto, m, (n - 1) as nat);
    }
}

/// Among the first `n` files, each shown one from the `from`-th up to the
/// `upto`-th, directory or not, has a slot for its metadata afterwards, and a
/// directory one for its size; the slots that it had stay, and it is as it was
/// otherwise. All other files are as they were. For each of those files that
/// lacked a slot there is one job, in the order of the listing, with the file's
/// path and the slots that it lacked, and there is no other job.
pub proof fn shown_files_get_their_jobs(
    files: Seq<FileView>,
    view: Viewing,
    cache: CacheView,
    from: int,
    upto: int,
    n: nat,
)
    requires
        n <= files.len(),
    ensures
        ({
            let done = enqueued(files, view, cache, from, upto, n);
            &&& done.files.len() == files.len()
            &&& done.seen == files.take(n as int).filter(view.shown()).len()
            &&& forall|i: int|
                #![trigger done.files[i]]
                0 <= i < files.len() ==> {
                    let (before, after) = (files[i], done.files[i]);
                    if i < n && view.shows(before) && from <= files.take(i).filter(
                        view.shown(),
                    ).len() < upto {
                        &&& after.meta is Some
                        &&& before.kind == Kind::Directory ==> after.dirsize is Some
                        &&& before.meta is Some ==> after.meta == before.meta
                        &&& before.dirsize is Some || before.kind != Kind::Directory
                            ==> after.dirsize == before.dirsize
                        &&& after == (FileView {
                            meta: after.meta,
                            dirsize: after.dirsize,
                            ..before
                        })
                    } else {
                        after == before
                    }
                }
        }),
        exists|at: Seq<int>|
            #![trigger at.len()]
            {
                let done = enqueued(files, view, cache, from, upto, n);
                &&& at.len() == done.jobs.len()
                &&& forall|j: int, k: int| 0 <= j < k < at.len() ==> at[j] < at[k]
                &&& forall|k: int|
                    #![trigger at[k]]
                    0 <= k < at.len() ==> {
                        let (before, after) = (files[at[k]], done.files[at[k]]);
                        &&& 0 <= at[k] < n
                        &&& done.jobs[k].0 == before.path
                        &&& done.jobs[k].1 == if before.meta is None {
                            after.meta
                        } else {
                            None
                        }
                        &&& done.jobs[k].2 == if before.kind == Kind::Directory
                            && before.dirsize is None {
                            after.dirsize
                        } else {
                            None
                        }
                    }
                &&& forall|i: int|
                    #![trigger files[i]]
                    0 <= i < n ==> (at.contains(i) <==> view.shows(files[i]) && from <= files.take(
                        i,
                    ).filter(view.shown()).len() < upto && (files[i].meta is None || files[i].kind
                        == Kind::Directory && files[i].dirsize is None))
            },
{
    lemma_shown_files(files, view, cache, from, upto, n);
    let at = asked_for(files, view, from, upto, n);
    assert forall|i: int| #![trigger files[i]] 0 <= i < n implies (at.contains(i) <==> view.shows(
        files[i],
    ) && from <= files.take(i).filter(view.shown()).len() < upto && (files[i].meta is None
        || files[i].kind == Kind::Directory && files[i].dirsize is None)) by {
        assert(at.contains(i) <==> lacks_slots(files, view, from, upto, i));
    }
    assert(at.len() == enqueued(files, view, cache, from, upto, n).jobs.len());
}

/// A file is shown, from the `from`-th up to the `upto`-th.
spec fn in_range(files: Seq<FileView>, view: Viewing, from: int, upto: int, i: int) -> bool {
    view.shows(files[i]) && from <= files.take(i).filter(view.shown()).len() < upto
}

/// Such a file lacks a slot.
spec fn lacks_slots(files: Seq<FileView>, view: Viewing, from: int, upto: int, i: int) -> bool {
    in_range(files, view, from, upto, i) && (files[i].meta is None || files[i].kind
        == Kind::Directory && files[i].dirsize is None)
}

/// The positions of such files among the first `n`.
spec fn asked_for(files: Seq<FileView>, view: Viewing, from: int, upto: int, n: nat) -> Seq<int>
    decreases n,
{
    if n == 0 {
        seq![]
    } else if lacks_slots(files, view, from, upto, n - 1) {
        asked_for(files, view, from, upto, (n - 1) as nat).push(n - 1)
    } else {
        asked_for(files, view, from, upto, (n - 1) as nat)
    }
}

/// What a job asks for a file.
spec fn is_job_for(job: Job, before: FileView, after: FileView) -> bool {
    &&& job.0 == before.path
    &&& job.1 == if before.meta is None {
        after.meta
    } else {
        None
    }
    &&& job.2 == if before.kind == Kind::Directory && before.dirsize is None {
        after.dirsize
    } else {
        None
    }
}

/// A file that has been given its slots.
spec fn has_slots(before: FileView, after: FileView) -> bool {
    &&& after.meta is Some
    &&& before.kind == Kind::Directory ==> after.dirsize is Some
    &&& before.meta is Some ==> after.meta == before.meta
    &&& before.dirsize is Some || before.kind != Kind::Directory ==> after.dirsize
        == before.dirsize
    &&& after == (FileView { meta: after.meta, dirsize: after.dirsize, ..before })
}

proof fn lemma_shown_files(
    files: Seq<FileView>,
    view: Viewing,
    cache: CacheView,
    from: int,
    upto: int,
    n: nat,
)
    requires
        n <= files.len(),
    ensures
        ({
            let done = enqueued(files, view, cache, from, upto, n);
            let at = asked_for(files, view, from, upto, n);
            &&& done.files.len() == files.len()
            &&& done.seen == files.take(n as int).filter(view.shown()).len()
            &&& forall|i: int|
                #![trigger done.files[i]]
                0 <= i < files.len() ==> if i < n && in_range(files, view, from, upto, i) {
                    has_slots(files[i], done.files[i])
                } else {
                    done.files[i] == files[i]
                }
            &&& at.len() == done.jobs.len()
            &&& forall|j: int, k: int| 0 <= j < k < at.len() ==> at[j] < at[k]
            &&& forall|k: int|
                #![trigger at[k]]
                0 <= k < at.len() ==> 0 <= at[k] < n && is_job_for(
                    done.jobs[k],
                    files[at[k]],
                    done.files[at[k]],
                )
            &&& forall|i: int|
                0 <= i < n ==> (#[trigger] at.contains(i) <==> lacks_slots(
                    files,
                    view,
                    from,
                    upto,
                    i,
                ))
        }),
    decreases n,
{
    if n > 0 {
        let m = (n - 1) as nat;
        lemma_shown_files(files, view, cache, from, upto, m);
        lemma_filter_step(files, view.shown(), m as int);
        let before = enqueued(files, view, cache, from, upto, m);
        let done = enqueued(files, view, cache, from, upto, n);
        let file = files[m as int];
        let (at, at_front) = (
            asked_for(files, view, from, upto, n),
            asked_for(files, view, from, upto, m),
        );
        prepared_files_have_their_slots(file, before.cache);
        jobs_ask_for_what_was_missing(file, before.cache);
        assert(before.files[m as int] == file);
        assert forall|k: int| #![trigger at[k]] 0 <= k < at.len() implies 0 <= at[k] < n
            && is_job_for(done.jobs[k], files[at[k]], done.files[at[k]]) by {
            if k < at_front.len() {
                assert(at[k] == at_front[k]);
                assert(done.jobs[k] == before.jobs[k]);
                assert(done.files[at[k]] == before.files[at[k]]);
            }
        }
        assert forall|i: int| 0 <= i < n implies (#[trigger] at.contains(i) <==> lacks_slots(
            files,
            view,
            from,
            upto,
            i,
        )) by {
            if i < m {
                assert(at_front.contains(i) <==> lacks_slots(files, view, from, upto, i));
                if at_front.contains(i) {
                    let k = choose|k: int| 0 <= k < at_front.len() && at_front[k] == i;
                    assert(at[k] == i);
                }
                if at.contains(i) {
                    let k = choose|k: int| 0 <= k < at.len() && at[k] == i;
                    assert(at_front[k] == i);
                }
            } else {
                if lacks_slots(files, view, from, upto, i) {
                    assert(at[at.len() - 1] == i);
                }
                if at.contains(i) {
                    let k = choose|k: int| 0 <= k < at.len() && at[k] == i;
                    if k < at_front.len() {
                        assert(at_front[k] == i);
                    }
                }
            }
        }
    } else {
        reveal(Seq::filter);
        assert(files.take(0).filter(view.shown()).len() == 0);
    }
}

/// Each call asks for the shown files that follow those of the calls before, and
/// as many of them as it was told; the first one begins with the first. The jobs
/// come behind those that were there. Without a cache nothing is asked for, but
/// the files count as asked for all the same. No setting changes.
pub proof fn calls_follow_each_other(
    a: Files,
    n: usize,
    cache: FsCache,
    b: Files,
    then: FsCache,
)
    requires
        a.meta_upto.unwrap_or(0) + n <= usize::MAX,
        a.enqueues(n, cache, &b, then),
    ensures
        a.meta_upto is None ==> b.meta_upto == Some(n),
        a.meta_upto matches Some(from) ==> b.meta_upto is Some && b.meta_upto->0 == from + n,
        a.jobs@.is_prefix_of(b.jobs@),
        a.has_cache ==> {
            let from = a.meta_upto.unwrap_or(0);
            let done = enqueued(
                a.entries(),
                a.viewing(),
                cache@,
                from as int,
                from + n,
                a.files@.len(),
            );
            b.entries() == done.files && then@ == done.cache && b.jobs@ == a.jobs@ + done.jobs
        },
        !a.has_cache ==> b.files == a.files && b.jobs == a.jobs && then == cache,
        b == (Files { files: b.files, jobs: b.jobs, meta_upto: b.meta_upto, ..a }),
{
}

} // verus!
