//! Fetching metadata: the jobs of a run, and the ticker that keeps the screen
//! alive meanwhile.

use vstd::prelude::*;
use vstd::string::StringExecFns;
use async_value::Stale;
use crate::display::size_of;
use crate::file::{FileView, Kind};
use crate::files::Files;
use crate::fscache::{CacheView, DirSlot, FsCache, Meta, MetaSlot};
use crate::jobs::{lemma_dir_slot_exists, meta_of, prepared, refetch_cache, refetch_job, Job};
use crate::text::{decimal, decimal_text};

verus! {

/// How many threads fetch metadata.
pub const THREAD_NUM: usize = 8;

/// After how many milliseconds the screen is first drawn again.
pub const FIRST_COOLDOWN: u64 = 10;

/// By how many milliseconds the time until the next drawing grows.
pub const BACKOFF: u64 = 10;

/// How many milliseconds there are between two drawings at most.
pub const LAST_COOLDOWN: u64 = 1000;

/// The state of the sign that something is going on.
#[derive(Debug, Copy, Clone, PartialEq, Eq, Structural)]
pub struct Ticks {
    pub count: usize,
    /// Some ticker is at work.
    pub ticking: bool,
}

/// The name of one of the threads that fetch metadata.
pub fn thread_name(i: usize) -> (res: String)
    ensures
        res@ == "hunter_iothread_"@ + decimal(i as nat),
{
    "hunter_iothread_".to_owned().concat(decimal_text(i as u64).as_str())
}

/// One tick later. The count starts again behind the largest number.
pub open spec fn next_count(count: usize) -> usize {
    if count == usize::MAX {
        0
    } else {
        (count + 1) as usize
    }
}

/// Counts one tick.
pub fn tick(ticks: &mut Ticks)
    ensures
        *final(ticks) == (Ticks { count: next_count(old(ticks).count), ..*old(ticks) }),
{
    ticks.count = if ticks.count == usize::MAX {
        0
    } else {
        ticks.count + 1
    };
}

/// The number of ticks.
pub fn get_tick(ticks: &Ticks) -> (res: usize)
    ensures
        res == ticks.count,
{
    ticks.count
}

/// The sign that something is going on, at a number of ticks.
pub open spec fn sign(count: usize) -> Seq<char> {
    if count % 5 == 0 {
        "   "@
    } else if count % 5 == 1 {
        ".  "@
    } else if count % 5 == 2 {
        ".. "@
    } else {
        "..."@
    }
}

/// The sign that something is going on: one to three dots, or none. It stands
/// still on three dots for two ticks out of five.
pub fn tick_str(ticks: &Ticks) -> (res: &'static str)
    ensures
        res@ == sign(ticks.count),
{
    match get_tick(ticks) % 5 {
        0 => "   ",
        1 => ".  ",
        2 => ".. ",
        _ => "...",
    }
}

/// Whether some ticker is at work.
pub fn is_ticking(ticks: &Ticks) -> (res: bool)
    ensures
        res == ticks.ticking,
{
    ticks.ticking
}

/// Notes whether some ticker is at work.
pub fn set_ticking(ticks: &mut Ticks, val: bool)
    ensures
        *final(ticks) == (Ticks { ticking: val, ..*old(ticks) }),
{
    ticks.ticking = val;
}

/// `after` is the state when [`claim_ticker`] has returned `res`.
pub open spec fn claims(before: Ticks, after: Ticks, res: bool) -> bool {
    &&& after == (Ticks { ticking: true, ..before })
    &&& res == !before.ticking
}

/// Whether a run may start its ticker now: it may if no other is at work. From
/// then on one counts as at work.
pub fn claim_ticker(ticks: &mut Ticks) -> (res: bool)
    ensures
        claims(*old(ticks), *final(ticks), res),
{
    if is_ticking(ticks) {
        false
    } else {
        set_ticking(ticks, true);
        true
    }
}

/// The pause that follows another.
pub open spec fn next_pause(cooldown: u64) -> u64 {
    if cooldown < LAST_COOLDOWN {
        (cooldown + BACKOFF) as u64
    } else {
        cooldown
    }
}

/// A ticker goes on as long as there are jobs left.
pub open spec fn goes_on(jobs_left: usize) -> bool {
    jobs_left != 0
}

/// The state when a ticker has slept.
pub open spec fn ticked(ticks: Ticks, jobs_left: usize) -> Ticks {
    if goes_on(jobs_left) {
        Ticks { count: next_count(ticks.count), ..ticks }
    } else {
        Ticks { ticking: false, ..ticks }
    }
}

/// What a ticker does when it has slept: it sleeps longer next time, and ticks
/// on as long as there are jobs left. Returns whether it goes on; if not, the
/// screen is drawn once more.
pub fn ticker_step(ticks: &mut Ticks, cooldown: &mut u64, jobs_left: usize) -> (res: bool)
    ensures
        *final(cooldown) == next_pause(*old(cooldown)),
        res == goes_on(jobs_left),
        *final(ticks) == ticked(*old(ticks), jobs_left),
{
    if *cooldown < LAST_COOLDOWN {
        *cooldown = *cooldown + BACKOFF;
    }
    if jobs_left == 0 {
        set_ticking(ticks, false);
        false
    } else {
        tick(ticks);
        true
    }
}

/// Jobs to be done.
#[derive(Debug)]
pub struct JobRun {
    pub jobs: Vec<Job>,
    /// How many are left, as the ticker counts them.
    pub left: usize,
    /// Calls off the jobs that have not been begun.
    pub stale: Stale,
}

/// The cache when a job is done. Metadata that could not be had leaves its
/// slot as it was; a directory that could not be counted counts as empty.
pub open spec fn with_results(
    cache: CacheView,
    job: Job,
    meta: Option<Meta>,
    entries: Option<usize>,
) -> CacheView {
    let with_meta = match (job.1, meta) {
        (Some(slot), Some(meta)) => cache.with_meta(slot, Some(meta)),
        _ => cache,
    };
    match job.2 {
        Some(slot) => with_meta.with_dirsize(
            slot,
            match entries {
                Some(size) => size,
                None => 0,
            },
        ),
        None => with_meta,
    }
}

/// How many jobs are left when some are over, be it that they are done or that
/// they were called off.
pub open spec fn left_after(left: usize, over: nat) -> usize {
    if over < left {
        (left - over) as usize
    } else {
        0
    }
}

/// How many jobs are left when those that have not been begun are called off.
pub fn call_off_jobs(left: usize, unbegun: usize) -> (res: usize)
    ensures
        res == left_after(left, unbegun as nat),
{
    if unbegun < left {
        left - unbegun
    } else {
        0
    }
}

/// Puts the results of a job where they belong: the metadata of its path, and
/// the number of its entries, if they could be had. Returns how many jobs are
/// left when this one is counted off.
pub fn finish_job(
    cache: &mut FsCache,
    job: &Job,
    meta: Option<Meta>,
    entries: Option<usize>,
    left: usize,
) -> (res: usize)
    ensures
        final(cache)@ == with_results(old(cache)@, *job, meta, entries),
        old(cache)@.wf() ==> final(cache)@.wf(),
        res == left_after(left, 1),
{
    if let Some(slot) = job.1 {
        if meta.is_some() {
            cache.set_meta(slot, meta);
        }
    }
    if let Some(slot) = job.2 {
        let size = match entries {
            Some(size) => size,
            None => 0,
        };
        cache.fill_dirsize(slot, size);
    }
    if left == 0 {
        0
    } else {
        left - 1
    }
}

impl Files {
    /// `after` is the listing when [`Files::run_jobs`] has returned `res`.
    pub open spec fn starts_run(&self, after: &Files, res: Option<JobRun>) -> bool {
        match res {
            Some(run) => {
                &&& self.jobs@.len() > 0
                &&& run.jobs == self.jobs
                &&& run.left == self.jobs@.len()
                &&& self.stale matches Some(stale) ==> run.stale == stale
                &&& after.jobs@.len() == 0
                &&& *after == (Files { jobs: after.jobs, ..*self })
            },
            None => self.jobs@.len() == 0 && *after == *self,
        }
    }

    /// Hands out the jobs of the listing, if it has any.
    pub fn run_jobs(&mut self) -> (res: Option<JobRun>)
        ensures
            old(self).starts_run(final(self), res),
    {
        if self.jobs.len() == 0 {
            return None;
        }
        let mut jobs: Vec<Job> = Vec::new();
        core::mem::swap(&mut jobs, &mut self.jobs);
        let stale = match &self.stale {
            Some(stale) => stale.clone(),
            None => Stale::new(),
        };
        let left = jobs.len();
        Some(JobRun { jobs, left, stale })
    }
}

/// Metadata that was fetched is found: when a file has been given its slots
/// and the job for them is done, the file has the metadata, and a directory
/// its size.
pub proof fn fetched_results_are_found(
    file: FileView,
    cache: CacheView,
    meta: Meta,
    entries: usize,
)
    requires
        cache.wf(),
        cache.metas.len() < usize::MAX,
        cache.dirsizes.len() < usize::MAX,
    ensures
        ({
            let ready = prepared(file, cache);
            let done = with_results(ready.cache, ready.job->0, Some(meta), Some(entries));
            &&& file.meta is None ==> ready.job is Some && meta_of(ready.file, done) == Some(meta)
            &&& file.kind == Kind::Directory && file.dirsize is None ==> ready.job is Some
                && size_of(ready.file, done) == Some((entries as nat, ""@))
        }),
{
    lemma_dir_slot_exists(cache, file.path, 0);
}

/// What has been asked for again is found again when the job is done.
pub proof fn refetched_metadata_is_found(file: FileView, cache: CacheView, meta: Meta)
    requires
        file.meta matches Some(slot) && slot.0 < cache.metas.len(),
    ensures
        meta_of(
            file,
            with_results(
                refetch_cache(file, cache),
                refetch_job(file, cache),
                Some(meta),
                None,
            ),
        ) == Some(meta),
{
}

/// How many jobs are left when some are done, one after the other.
pub open spec fn left_after_each(left: usize, done: nat) -> usize
    decreases done,
{
    if done == 0 {
        left
    } else {
        left_after(left_after_each(left, (done - 1) as nat), 1)
    }
}

/// A ticker stops when all jobs of its run are over, and not before: those that
/// were done are counted off one by one, and those that were not begun are
/// called off at once.
pub proof fn tickers_stop_when_all_jobs_are_over(run: JobRun, done: nat, called_off: nat)
    requires
        run.left == run.jobs@.len(),
        done + called_off <= run.jobs@.len(),
    ensures
        goes_on(left_after(left_after_each(run.left, done), called_off)) == (done + called_off
            < run.jobs@.len()),
{
    lemma_left_after_each(run.left, done);
}

/// Counting off one by one comes to the same as counting off at once.
proof fn lemma_left_after_each(left: usize, done: nat)
    ensures
        left_after_each(left, done) == left_after(left, done),
    decreases done,
{
    if done > 0 {
        lemma_left_after_each(left, (done - 1) as nat);
    }
}

/// A ticker that begins with the first pause never sleeps longer than the
/// last, and never less than before: each pause is longer than the one before by
/// the same time, until it is the last.
pub proof fn pauses_grow_up_to_the_last(cooldown: u64)
    requires
        FIRST_COOLDOWN <= cooldown <= LAST_COOLDOWN,
        cooldown % BACKOFF == 0,
    ensures
        cooldown <= next_pause(cooldown) <= LAST_COOLDOWN,
        next_pause(cooldown) % BACKOFF == 0,
        cooldown < LAST_COOLDOWN ==> next_pause(cooldown) - cooldown == FIRST_COOLDOWN,
        cooldown == LAST_COOLDOWN ==> next_pause(cooldown) == cooldown,
{
}

/// The sign repeats every five ticks, as long as the count does not start
/// again.
pub proof fn five_ticks_later_the_sign_is_the_same(count: usize)
    requires
        count + 5 <= usize::MAX,
    ensures
        next_count(next_count(next_count(next_count(next_count(count))))) % 5 == count % 5,
        sign(next_count(next_count(next_count(next_count(next_count(count)))))) == sign(count),
        next_count(count) == count + 1,
{
}

/// The sign is three characters wide: as many dots as ticks have passed since it
/// was empty, but three at most, and blanks behind them.
pub proof fn the_sign_fills_with_dots(count: usize, i: int)
    requires
        0 <= i < 3,
    ensures
        sign(count).len() == 3,
        i < count % 5 ==> sign(count)[i] == '.',
        i >= count % 5 ==> sign(count)[i] == ' ',
{
    reveal_strlit("   ");
    reveal_strlit(".  ");
    reveal_strlit(".. ");
    reveal_strlit("...");
}

/// A job that is done fills the slots that it has, and no other. Metadata that
/// could not be had leaves its slot as it was, while a directory that could not
/// be counted counts as empty.
pub proof fn results_go_to_the_slots_of_their_job(
    cache: CacheView,
    job: Job,
    meta: Option<Meta>,
    entries: Option<usize>,
)
    ensures
        ({
            let after = with_results(cache, job, meta, entries);
            &&& job.1 matches Some(slot) ==> slot.0 < cache.metas.len() ==> after.meta_at(slot)
                == if meta is Some {
                meta
            } else {
                cache.meta_at(slot)
            }
            &&& forall|other: MetaSlot|
                Some(other) != job.1 ==> #[trigger] after.meta_at(other) == cache.meta_at(other)
            &&& job.2 matches Some(slot) ==> slot.0 < cache.dirsizes.len() ==> after.dirsize_at(
                slot,
            ).ready && after.dirsize_at(slot).size == if entries is Some {
                entries->0
            } else {
                0
            }
            &&& forall|other: DirSlot|
                Some(other) != job.2 ==> #[trigger] after.dirsize_at(other) == cache.dirsize_at(
                    other,
                )
            &&& after.dirs == cache.dirs
            &&& after.metas.len() == cache.metas.len()
            &&& after.dirsizes.len() == cache.dirsizes.len()
        }),
{
}

/// A run takes all jobs of a listing, in order and once, and counts all of them
/// as left. It is called off with the listing, which is as it was otherwise.
pub proof fn runs_take_all_jobs(a: Files, b: Files, res: Option<JobRun>)
    requires
        a.starts_run(&b, res),
    ensures
        res is Some <==> a.jobs@.len() > 0,
        res matches Some(run) ==> run.jobs@ == a.jobs@ && run.left == run.jobs@.len() && (
        a.stale is Some ==> Some(run.stale) == a.stale),
        b.jobs@.len() == 0,
        b == (Files { jobs: b.jobs, ..a }),
        forall|c: Files, again: Option<JobRun>| #[trigger] b.starts_run(&c, again) ==> again is None,
{
}

/// Of several runs that would start a ticker one gets to do so, the first, until
/// its ticker has stopped: that it does at the first step without a job left,
/// and until then it counts one tick with each step.
pub proof fn one_ticker_is_at_work(before: Ticks, after: Ticks, res: bool, jobs_left: usize)
    requires
        claims(before, after, res),
    ensures
        res <==> !before.ticking,
        after.count == before.count,
        after.ticking,
        forall|last: Ticks, again: bool| #[trigger] claims(after, last, again) ==> !again,
        jobs_left > 0 ==> ticked(after, jobs_left).ticking && (after.count < usize::MAX ==> ticked(
            after,
            jobs_left,
        ).count == after.count + 1),
        jobs_left == 0 ==> ticked(after, jobs_left).count == after.count && forall|
            last: Ticks,
            again: bool,
        | #[trigger]
            claims(ticked(after, jobs_left), last, again) ==> again,
{
}

/// Behind the largest number the count of ticks begins again, and nowhere else.
pub proof fn ticks_are_counted_one_by_one(count: usize)
    ensures
        next_count(count) == 0 <==> count == usize::MAX,
        count < usize::MAX ==> next_count(count) - count == 1,
{
}

/// As many jobs are left as are not over, and never less than none.
pub proof fn jobs_that_are_over_are_not_left(left: usize, over: nat)
    ensures
        over <= left ==> left_after(left, over) + over == left,
        over >= left ==> left_after(left, over) == 0,
        goes_on(left) <==> left > 0,
{
}

} // verus!
