//! How a listing follows the changes of the file system.

use vstd::prelude::*;
use core::cmp::Ordering;
use crate::file::{entries_of, placeholder_for, renamed, renamed_files_stay_what_they_are, File,
    FileView, Kind};
use crate::files::Files;
use crate::fscache::{directories_are_found_by_path, CacheView, FsCache};
use crate::jobs::{meta_of, prepared, prepared_files_have_their_slots, refetch_cache, refetch_job,
    Job};
use crate::order::{name_order, sorted_files_follow_the_settings, SortBy};
use crate::pathname::{file_name_bytes, name_of_path, path_bytes, paths_equal, same_path};
use crate::stale::FlagRecord;
use crate::text::begins_with_dot;
use crate::viewing::{filters_pass_placeholders, lemma_filter_step, len_without_placeholder,
    only_the_placeholder_goes, without_placeholder};

verus! {

/// A change that the file system reports.
#[derive(Debug)]
pub enum FsEvent {
    Create(File),
    Change(File),
    /// The file before and after it was renamed.
    Rename(File, File),
    Remove(File),
}

/// The listing that takes the place of an old one.
#[derive(Debug)]
pub struct RefreshPackage {
    /// The files; nothing where the work was called off.
    pub new_files: Option<Vec<File>>,
    /// How many of them are shown.
    pub new_len: usize,
    pub jobs: Vec<Job>,
}

/// How far a refresh has got.
#[derive(Debug)]
pub enum Refresh {
    Running,
    Failed,
    Ready(RefreshPackage),
    /// The result has been taken.
    Taken,
}

/// The views of the files of a package.
pub open spec fn package_entries(files: Option<Vec<File>>) -> Option<Seq<FileView>> {
    match files {
        Some(files) => Some(entries_of(files@)),
        None => None,
    }
}

impl RefreshPackage {
    /// The two packages hold the same.
    pub open spec fn same_as(self, other: RefreshPackage) -> bool {
        &&& package_entries(self.new_files) == package_entries(other.new_files)
        &&& self.new_len == other.new_len
        &&& self.jobs@ == other.jobs@
    }
}

impl Clone for FsEvent {
    fn clone(&self) -> (res: FsEvent)
        ensures
            res == *self,
    {
        match self {
            FsEvent::Create(file) => FsEvent::Create(file.clone()),
            FsEvent::Change(file) => FsEvent::Change(file.clone()),
            FsEvent::Rename(before, after) => FsEvent::Rename(before.clone(), after.clone()),
            FsEvent::Remove(file) => FsEvent::Remove(file.clone()),
        }
    }
}

/// A copy of a list of jobs.
pub(crate) fn clone_jobs(jobs: &Vec<Job>) -> (res: Vec<Job>)
    ensures
        res@ == jobs@,
{
    let mut res: Vec<Job> = Vec::new();
    for i in 0..jobs.len()
        invariant
            res@ == jobs@.take(i as int),
    {
        res.push((jobs[i].0.clone(), jobs[i].1, jobs[i].2));
        assert(jobs@.take(i + 1) =~= jobs@.take(i as int).push(jobs@[i as int]));
    }
    assert(jobs@.take(jobs@.len() as int) =~= jobs@);
    res
}

impl Clone for RefreshPackage {
    fn clone(&self) -> (res: RefreshPackage)
        ensures
            res.same_as(*self),
    {
        let new_files = match &self.new_files {
            Some(files) => {
                let copy = files.clone();
                assert(copy@ =~= files@);
                Some(copy)
            },
            None => None,
        };
        RefreshPackage { new_files, new_len: self.new_len, jobs: clone_jobs(&self.jobs) }
    }
}

impl Refresh {
    /// Whether there is a package to be had.
    pub fn is_ready(&self) -> (res: bool)
        ensures
            res == (self is Ready),
    {
        match self {
            Refresh::Ready(_) => true,
            _ => false,
        }
    }
}

/// Two entries stand for the same file: they agree in name and path.
pub open spec fn same_entry(a: FileView, b: FileView) -> bool {
    a.name == b.name && same_path(a.path, b.path)
}

/// The position of the last of the first `n` files that stands for the same
/// file as `wanted`; -1 where none does.
pub open spec fn last_among(files: Seq<FileView>, wanted: FileView, n: int) -> int
    decreases n,
{
    if n <= 0 {
        -1
    } else if same_entry(files[n - 1], wanted) {
        n - 1
    } else {
        last_among(files, wanted, n - 1)
    }
}

/// The position of the last file that stands for the same file as `wanted`.
pub open spec fn position_of(files: Seq<FileView>, wanted: FileView) -> int {
    last_among(files, wanted, files.len() as int)
}

/// Where a refresh stands after some changes.
#[verifier::ext_equal]
pub struct Progress {
    /// The files of the old listing, in their old places.
    pub files: Seq<FileView>,
    /// The files that are to come in.
    pub fresh: Seq<FileView>,
    /// The files that are to go.
    pub removed: Seq<FileView>,
    pub jobs: Seq<Job>,
    pub cache: CacheView,
}

/// Takes in one change. Files are found by what they were when the refresh
/// began, which is `known`; a change to an unknown file is passed over.
pub open spec fn step(known: Seq<FileView>, state: Progress, event: FsEvent) -> Progress {
    match event {
        FsEvent::Create(file) => {
            let ready = prepared(file@, state.cache);
            Progress {
                fresh: state.fresh.push(ready.file),
                jobs: match ready.job {
                    Some(job) => state.jobs.push(job),
                    None => state.jobs,
                },
                cache: ready.cache,
                ..state
            }
        },
        FsEvent::Change(file) => {
            let i = position_of(known, file@);
            if i >= 0 {
                Progress {
                    jobs: state.jobs.push(refetch_job(state.files[i], state.cache)),
                    cache: refetch_cache(state.files[i], state.cache),
                    ..state
                }
            } else {
                state
            }
        },
        FsEvent::Rename(before, after) => {
            let i = position_of(known, before@);
            if i >= 0 {
                let file = renamed(state.files[i], after.path);
                Progress {
                    files: state.files.update(i, file),
                    jobs: state.jobs.push(refetch_job(file, state.cache)),
                    cache: refetch_cache(file, state.cache),
                    ..state
                }
            } else {
                state
            }
        },
        FsEvent::Remove(file) => if position_of(known, file@) >= 0 {
            Progress { removed: state.removed.push(file@), ..state }
        } else {
            state
        },
    }
}

/// Takes in changes, one after the other.
pub open spec fn steps(known: Seq<FileView>, state: Progress, events: Seq<FsEvent>) -> Progress
    decreases events.len(),
{
    if events.len() == 0 {
        state
    } else {
        step(known, steps(known, state, events.drop_last()), events.last())
    }
}

/// An entry is among the removed ones.
pub open spec fn is_removed(file: FileView, removed: Seq<FileView>) -> bool {
    exists|i: int| 0 <= i < removed.len() && same_entry(file, #[trigger] removed[i])
}

/// The entries that are not among the removed ones.
pub open spec fn kept(removed: Seq<FileView>) -> spec_fn(FileView) -> bool {
    |file: FileView| !is_removed(file, removed)
}

/// The files that a refresh leaves: the old ones without those that go, and
/// the new ones behind them.
pub open spec fn survivors(state: Progress) -> Seq<FileView> {
    state.files.filter(kept(state.removed)) + state.fresh
}

/// The files with which a refresh of a listing begins. If only one is shown,
/// it may be a placeholder, which then goes.
pub open spec fn known_entries(files: &Files) -> Seq<FileView> {
    if files.len == 1 {
        without_placeholder(files.entries(), files.viewing(), files.directory.path)
    } else {
        files.entries()
    }
}

/// Where a refresh of a listing begins.
pub open spec fn beginning(files: &Files, cache: CacheView) -> Progress {
    Progress {
        files: known_entries(files),
        fresh: seq![],
        removed: seq![],
        jobs: seq![],
        cache,
    }
}

/// Where a refresh of a listing stands after some changes.
pub open spec fn progress_after(
    files: &Files,
    events: Seq<FsEvent>,
    cache: CacheView,
) -> Progress {
    steps(known_entries(files), beginning(files, cache), events)
}

/// The files that a refresh puts in place of the old ones, and how many of
/// them count as shown. They are sorted; if none is shown, a placeholder comes
/// last and counts as one.
pub open spec fn is_outcome(
    files: &Files,
    state: Progress,
    new_files: Seq<FileView>,
    new_len: usize,
) -> bool {
    let all = survivors(state);
    let count = all.filter(files.viewing().shown()).len();
    if count > 0 {
        new_len == count && files.sorting().sorts(all, new_files, state.cache)
    } else {
        &&& new_len == 1
        &&& new_files.len() > 0
        &&& new_files.last() == placeholder_for(files.directory.path)
        &&& files.sorting().sorts(all, new_files.drop_last(), state.cache)
    }
}

/// What a refresh of a listing makes of some changes: if it was called off,
/// only the jobs.
pub open spec fn is_refresh(
    files: &Files,
    state: Progress,
    called_off: bool,
    package: RefreshPackage,
) -> bool {
    &&& package.jobs@ == state.jobs
    &&& if called_off {
        package.new_files is None && package.new_len == 0
    } else {
        package.new_files matches Some(new_files) && is_outcome(
            files,
            state,
            entries_of(new_files@),
            package.new_len,
        )
    }
}

/// A refresh under way.
#[derive(Debug)]
pub struct RefreshRun {
    /// The listing, whose files change as the refresh goes on.
    pub files: Files,
    /// The files as they were when the refresh began.
    pub known: Vec<File>,
    pub fresh: Vec<File>,
    pub removed: Vec<File>,
    pub jobs: Vec<Job>,
}

/// The position of the last file that stands for the same file as `wanted`.
fn find_entry(files: &Vec<File>, wanted: &File) -> (res: Option<usize>)
    ensures
        ({
            let i = position_of(entries_of(files@), wanted@);
            match res {
                Some(p) => p == i && 0 <= i < files@.len(),
                None => i == -1,
            }
        }),
{
    let ghost all = entries_of(files@);
    let mut n: usize = files.len();
    while n > 0
        invariant
            all == entries_of(files@),
            n <= files@.len(),
            position_of(all, wanted@) == last_among(all, wanted@, n as int),
        decreases n,
    {
        let file = &files[n - 1];
        assert(all[n - 1] == file@);
        if file.name == wanted.name && paths_equal(&file.path, &wanted.path) {
            return Some(n - 1);
        }
        n = n - 1;
    }
    None
}

/// The files that are not among the removed ones, in order.
fn keep_unremoved(files: Vec<File>, removed: &Vec<File>) -> (res: Vec<File>)
    ensures
        entries_of(res@) == entries_of(files@).filter(kept(entries_of(removed@))),
{
    let ghost all = entries_of(files@);
    let ghost gone = entries_of(removed@);
    let ghost before = files@;
    let mut res: Vec<File> = Vec::new();
    proof {
        reveal(Seq::filter);
        assert(entries_of(res@) =~= all.take(0).filter(kept(gone)));
    }
    for file in it: files
        invariant
            it.seq() == before,
            all == entries_of(before),
            gone == entries_of(removed@),
            entries_of(res@) == all.take(it.index() as int).filter(kept(gone)),
    {
        let ghost i = it.index() as int;
        let ghost old_res = res@;
        assert(file@ == all[i]);
        proof {
            lemma_filter_step(all, kept(gone), i);
        }
        let found = find_entry(removed, &file);
        proof {
            lemma_position_finds(gone, file@, gone.len() as int);
        }
        if found.is_none() {
            res.push(file);
            assert(entries_of(res@) =~= entries_of(old_res).push(all[i]));
        }
    }
    assert(all.take(all.len() as int) =~= all);
    res
}

/// The search for an entry finds one where there is one.
pub proof fn lemma_position_finds(files: Seq<FileView>, wanted: FileView, n: int)
    requires
        0 <= n <= files.len(),
    ensures
        -1 <= last_among(files, wanted, n) < n,
        last_among(files, wanted, n) >= 0 ==> same_entry(
            files[last_among(files, wanted, n)],
            wanted,
        ),
        last_among(files, wanted, n) < 0 ==> forall|i: int|
            0 <= i < n ==> !same_entry(wanted, #[trigger] files[i]),
    decreases n,
{
    if n > 0 && !same_entry(files[n - 1], wanted) {
        lemma_position_finds(files, wanted, n - 1);
    }
}

impl RefreshRun {
    /// Where the refresh stands.
    pub open spec fn progress(&self, cache: CacheView) -> Progress {
        Progress {
            files: self.files.entries(),
            fresh: entries_of(self.fresh@),
            removed: entries_of(self.removed@),
            jobs: self.jobs@,
            cache,
        }
    }

    /// Begins to refresh a listing.
    pub fn start(files: Files) -> (res: RefreshRun)
        ensures
            forall|cache: CacheView| #[trigger]
                res.progress(cache) == beginning(&files, cache),
            entries_of(res.known@) == known_entries(&files),
            res.known@.len() == res.files.files@.len(),
            res.files == (Files {
                files: res.files.files,
                len: if files.len == 1 {
                    len_without_placeholder(
                        files.entries(),
                        files.viewing(),
                        files.directory.path,
                        files.len,
                    )
                } else {
                    files.len
                },
                ..files
            }),
    {
        let mut files = files;
        if files.len() == 1 {
            files.remove_placeholder();
        }
        let known = files.files.clone();
        assert(known@ =~= files.files@);
        let res = RefreshRun {
            files,
            known,
            fresh: Vec::new(),
            removed: Vec::new(),
            jobs: Vec::new(),
        };
        assert(entries_of(res.fresh@) =~= seq![]);
        assert(entries_of(res.removed@) =~= seq![]);
        assert(entries_of(res.known@).len() == res.known@.len());
        res
    }

    /// Takes in one change.
    pub fn apply(&mut self, event: FsEvent, cache: &mut FsCache)
        requires
            old(self).known@.len() == old(self).files.files@.len(),
        ensures
            final(self).progress(final(cache)@) == step(
                entries_of(old(self).known@),
                old(self).progress(old(cache)@),
                event,
            ),
            final(self).known == old(self).known,
            final(self).files == (Files { files: final(self).files.files, ..old(self).files }),
            final(self).files.files@.len() == old(self).files.files@.len(),
    {
        match event {
            FsEvent::Create(file) => {
                let ghost fresh = self.fresh@;
                let mut file = file;
                if let Some(job) = file.prepare_meta_job(cache) {
                    self.jobs.push(job);
                }
                self.fresh.push(file);
                assert(entries_of(self.fresh@) =~= entries_of(fresh).push(file@));
            },
            FsEvent::Change(file) => {
                if let Some(i) = find_entry(&self.known, &file) {
                    let ghost before = self.files.files@;
                    let job = self.files.files[i].refresh_meta_job(cache);
                    assert(self.files.files@ =~= before);
                    self.jobs.push(job);
                }
            },
            FsEvent::Rename(before, after) => {
                if let Some(i) = find_entry(&self.known, &before) {
                    let ghost all = self.files.files@;
                    let _ = self.files.files[i].rename(&after.path);
                    let job = self.files.files[i].refresh_meta_job(cache);
                    assert(self.files.entries() =~= entries_of(all).update(
                        i as int,
                        renamed(all[i as int]@, after.path),
                    ));
                    self.jobs.push(job);
                }
            },
            FsEvent::Remove(file) => {
                if find_entry(&self.known, &file).is_some() {
                    let ghost removed = self.removed@;
                    self.removed.push(file);
                    assert(entries_of(self.removed@) =~= entries_of(removed).push(file@));
                }
            },
        }
    }

    /// Ends the refresh: with a new listing, or, if it was called off, without.
    pub fn finish(self, called_off: bool, cache: &FsCache) -> (res: RefreshPackage)
        ensures
            is_refresh(&self.files, self.progress(cache@), called_off, res),
    {
        let RefreshRun { files, known: _, fresh, removed, jobs } = self;
        if called_off {
            return RefreshPackage { new_files: None, new_len: 0, jobs };
        }
        let ghost state = self.progress(cache@);
        let mut files = files;
        let mut fresh = fresh;
        let mut old_files: Vec<File> = Vec::new();
        core::mem::swap(&mut old_files, &mut files.files);
        let mut all = keep_unremoved(old_files, &removed);
        let ghost rest = all@;
        let ghost news = fresh@;
        all.append(&mut fresh);
        assert(entries_of(all@) =~= entries_of(rest) + entries_of(news));
        files.files = all;
        files.recalculate_len();
        files.sort(cache);

        let new_len = if files.len() > 0 {
            files.len()
        } else {
            let placeholder = File::placeholder(&files.directory.path);
            let ghost sorted = files.files@;
            files.files.push(placeholder);
            assert(entries_of(files.files@).drop_last() =~= entries_of(sorted));
            1
        };
        RefreshPackage { new_files: Some(files.files), new_len, jobs }
    }
}

impl RefreshPackage {
    /// Makes a new listing of an old one and the changes since. Before each
    /// change, and once at the end, the listing's flag is asked whether the work
    /// has been called off. After a yes no more changes are taken in; after a
    /// yes at the end no listing comes out. `record` gets the answers, which
    /// decide what is made.
    pub fn new(
        files: Files,
        events: Vec<FsEvent>,
        cache: &mut FsCache,
        record: &mut FlagRecord,
    ) -> (res: RefreshPackage)
        requires
            files.has_cache,
            files.stale is Some,
        ensures
            old(record)@.is_prefix_of(final(record)@),
            old(record).flags().is_prefix_of(final(record).flags()),
            final(record).flags().len() - old(record).flags().len() == final(record)@.len() - old(
                record,
            )@.len(),
            forall|i: int|
                old(record).flags().len() <= i < final(record).flags().len() ==> Some(
                    #[trigger] final(record).flags()[i],
                ) == files.stale,
            final(record).cleared() == old(record).cleared(),
            ({
                let answers = final(record)@.skip(old(record)@.len() as int);
                let n = taken_in(answers, events@.len());
                let state = progress_after(&files, events@.take(n as int), old(cache)@);
                &&& answers.len() == questions(n, events@.len())
                &&& is_refresh(&files, state, answers.last(), res)
                &&& final(cache)@ == state.cache
            }),
    {
        let ghost begun = files;
        let ghost first_cache = cache@;
        let ghost all = events@;
        let ghost first = record@;
        let ghost base = record@.len() as int;
        let ghost first_flags = record.flags();
        let mut files = files;
        let stale = files.stale.take().unwrap();
        let mut run = RefreshRun::start(files);
        let ghost mut n: int = 0;
        assert(all.take(0) =~= seq![]);
        assert(run.progress(first_cache) == beginning(&begun, first_cache));
        for event in it: events
            invariant_except_break
                n == it.index(),
                record@.len() == base + n,
            invariant
                it.seq() == all,
                0 <= n <= all.len(),
                base == first.len(),
                record@.len() >= base + n,
                first.is_prefix_of(record@),
                forall|i: int| 0 <= i < n ==> !#[trigger] record@[base + i],
                first_flags.is_prefix_of(record.flags()),
                record.flags().len() - first_flags.len() == record@.len() - base,
                forall|i: int|
                    first_flags.len() <= i < record.flags().len() ==> #[trigger] record.flags()[i]
                        == stale,
                record.cleared() == old(record).cleared(),
                run.files == (Files {
                    files: run.files.files,
                    len: run.files.len,
                    stale: None,
                    ..begun
                }),
                run.progress(cache@) == progress_after(&begun, all.take(n), first_cache),
                entries_of(run.known@) == known_entries(&begun),
                run.known@.len() == run.files.files@.len(),
            ensures
                n < all.len() ==> record@.len() == base + n + 1 && record@[base + n],
                n == all.len() ==> record@.len() == base + n,
        {
            if record.ask(&stale) {
                break;
            }
            run.apply(event, cache);
            proof {
                assert(all.take(n + 1).drop_last() =~= all.take(n));
                n = n + 1;
            }
        }
        let called_off = record.ask(&stale);
        let package = run.finish(called_off, cache);
        proof {
            let answers = record@.skip(base);
            assert forall|i: int| 0 <= i < n implies !#[trigger] answers[i] by {
                assert(!record@[base + i]);
            }
            lemma_taken_in(answers, n as nat, all.len());
            assert(answers.last() == called_off);
        }
        package
    }
}

/// How many of some changes are taken in, if before each it is asked whether the
/// work has been called off: those before the first yes.
pub open spec fn taken_in(answers: Seq<bool>, count: nat) -> nat
    decreases count,
{
    if count == 0 {
        0
    } else {
        let before = taken_in(answers, (count - 1) as nat);
        if before < count - 1 || answers[count - 1] {
            before
        } else {
            count
        }
    }
}

/// How often it is asked, if `n` of some changes are taken in: before each of
/// them, before the one that is not, if there is one, and at the end.
pub open spec fn questions(n: nat, count: nat) -> nat {
    if n < count {
        n + 2
    } else {
        n + 1
    }
}

/// The first yes decides how many changes are taken in.
proof fn lemma_taken_in(answers: Seq<bool>, n: nat, count: nat)
    requires
        n <= count,
        forall|i: int| 0 <= i < n ==> !#[trigger] answers[i],
        n < count ==> answers[n as int],
    ensures
        taken_in(answers, count) == n,
    decreases count,
{
    if count > 0 {
        lemma_taken_in(
            answers,
            if n < count {
                n
            } else {
                (count - 1) as nat
            },
            (count - 1) as nat,
        );
    }
}

/// A change that is not taken in was answered with a yes.
proof fn lemma_refused(answers: Seq<bool>, count: nat)
    ensures
        taken_in(answers, count) <= count,
        taken_in(answers, count) < count ==> answers[taken_in(answers, count) as int],
    decreases count,
{
    if count > 0 {
        lemma_refused(answers, (count - 1) as nat);
    }
}

/// A refresh that is wanted to the end takes in all changes, and a listing comes
/// out.
pub proof fn wanted_refreshes_take_in_all_changes(
    files: &Files,
    events: Seq<FsEvent>,
    cache: CacheView,
    answers: Seq<bool>,
    package: RefreshPackage,
)
    requires
        answers.len() == questions(taken_in(answers, events.len()), events.len()),
        forall|i: int| 0 <= i < answers.len() ==> !#[trigger] answers[i],
        ({
            let n = taken_in(answers, events.len()) as int;
            let state = progress_after(files, events.take(n), cache);
            is_refresh(files, state, answers.last(), package)
        }),
    ensures
        package.new_files is Some,
        is_refresh(files, progress_after(files, events, cache), false, package),
{
    lemma_refused(answers, events.len());
    assert(events.take(events.len() as int) =~= events);
    assert(!answers[answers.len() - 1]);
}

/// A refresh changes the places of no file and drops none before its end.
proof fn lemma_steps_keep_places(known: Seq<FileView>, state: Progress, events: Seq<FsEvent>)
    requires
        state.files.len() == known.len(),
    ensures
        steps(known, state, events).files.len() == known.len(),
    decreases events.len(),
{
    if events.len() > 0 {
        lemma_steps_keep_places(known, state, events.drop_last());
        if let FsEvent::Rename(before, _) = events.last() {
            lemma_position_finds(known, before@, known.len() as int);
        }
    }
}

/// A refresh without changes keeps the files as they are.
pub proof fn no_changes_keep_the_files(files: &Files, cache: CacheView)
    ensures
        survivors(progress_after(files, seq![], cache)) == known_entries(files),
        progress_after(files, seq![], cache).jobs == Seq::<Job>::empty(),
        progress_after(files, seq![], cache).cache == cache,
{
    let known = known_entries(files);
    lemma_nothing_removed(known);
    assert(known + seq![] =~= known);
}

/// Where nothing is removed, all files are kept.
proof fn lemma_nothing_removed(files: Seq<FileView>)
    ensures
        files.filter(kept(seq![])) == files,
    decreases files.len(),
{
    reveal(Seq::filter);
    if files.len() > 0 {
        lemma_nothing_removed(files.drop_last());
        assert(!is_removed(files.last(), seq![]));
        assert(files =~= files.drop_last().push(files.last()));
    }
}

/// A change concerns the known file at a position: it is found there, or the
/// file is the one that it removes.
pub open spec fn concerns(known: Seq<FileView>, i: int, event: FsEvent) -> bool {
    match event {
        FsEvent::Create(_) => false,
        FsEvent::Change(file) => position_of(known, file@) == i,
        FsEvent::Rename(before, _) => position_of(known, before@) == i,
        FsEvent::Remove(file) => same_entry(known[i], file@),
    }
}

/// A change that is taken in: a file is created, or one is concerned that is
/// known.
pub open spec fn matters(known: Seq<FileView>) -> spec_fn(FsEvent) -> bool {
    |event: FsEvent|
        match event {
            FsEvent::Create(_) => true,
            FsEvent::Change(file) => position_of(known, file@) >= 0,
            FsEvent::Rename(before, _) => position_of(known, before@) >= 0,
            FsEvent::Remove(file) => position_of(known, file@) >= 0,
        }
}

/// Changes, renames and removals of files that are not known alter nothing: a
/// refresh stands where it would without them.
pub proof fn unknown_files_alter_nothing(
    known: Seq<FileView>,
    state: Progress,
    events: Seq<FsEvent>,
)
    ensures
        steps(known, state, events) == steps(known, state, events.filter(matters(known))),
    decreases events.len(),
{
    reveal(Seq::filter);
    if events.len() > 0 {
        let front = events.drop_last().filter(matters(known));
        unknown_files_alter_nothing(known, state, events.drop_last());
        if matters(known)(events.last()) {
            assert(front.push(events.last()).drop_last() =~= front);
        }
    }
}

/// Two refreshes of a listing, by changes that differ only in files that are
/// not known, agree: the same files in some order, the same number of shown
/// ones, and the same jobs.
pub proof fn refreshes_agree_on_known_files(
    files: &Files,
    cache: CacheView,
    first: Seq<FsEvent>,
    second: Seq<FsEvent>,
    a: RefreshPackage,
    b: RefreshPackage,
)
    requires
        first.filter(matters(known_entries(files))) == second.filter(matters(known_entries(files))),
        is_refresh(files, progress_after(files, first, cache), false, a),
        is_refresh(files, progress_after(files, second, cache), false, b),
    ensures
        entries_of(a.new_files->0@).to_multiset() == entries_of(b.new_files->0@).to_multiset(),
        a.new_len == b.new_len,
        a.jobs@ == b.jobs@,
{
    let known = known_entries(files);
    unknown_files_alter_nothing(known, beginning(files, cache), first);
    unknown_files_alter_nothing(known, beginning(files, cache), second);
    let state = progress_after(files, first, cache);
    if survivors(state).filter(files.viewing().shown()).len() == 0 {
        let (x, y) = (entries_of(a.new_files->0@), entries_of(b.new_files->0@));
        x.drop_last().to_multiset_ensures();
        y.drop_last().to_multiset_ensures();
        assert(x =~= x.drop_last().push(x.last()));
        assert(y =~= y.drop_last().push(y.last()));
    }
}

/// A change asks for metadata: one of a known file that stays, or a new file
/// that lacks a slot.
pub open spec fn asks(known: Seq<FileView>) -> spec_fn(FsEvent) -> bool {
    |event: FsEvent|
        match event {
            FsEvent::Create(file) => file.meta is None || (file.dirsize is None && file.kind
                == Kind::Directory),
            FsEvent::Change(file) => position_of(known, file@) >= 0,
            FsEvent::Rename(before, _) => position_of(known, before@) >= 0,
            FsEvent::Remove(_) => false,
        }
}

/// There is one job for each change that asks for metadata, in the order of the
/// changes, and no other. It is for the path that the file has after the change:
/// of a created file its own, of a renamed one the new one, and of a changed one
/// that was never renamed the one that it had.
pub proof fn jobs_follow_the_changes(known: Seq<FileView>, state: Progress, events: Seq<FsEvent>)
    requires
        state.files.len() == known.len(),
    ensures
        steps(known, state, events).jobs.len() == state.jobs.len() + events.filter(
            asks(known),
        ).len(),
        forall|k: int|
            #![trigger events.filter(asks(known))[k]]
            0 <= k < events.filter(asks(known)).len() ==> {
                let job = steps(known, state, events).jobs[state.jobs.len() + k];
                match events.filter(asks(known))[k] {
                    FsEvent::Create(file) => job.0 == file.path,
                    FsEvent::Rename(_, after) => file_name_bytes(path_bytes(after.path)) is Some
                        ==> job.0 == after.path && job.1 is Some,
                    FsEvent::Change(file) => {
                        let i = position_of(known, file@);
                        &&& never_renamed(known, i, events) ==> job.0 == state.files[i].path
                        &&& job.1 is Some
                    },
                    FsEvent::Remove(_) => false,
                }
            },
    decreases events.len(),
{
    reveal(Seq::filter);
    if events.len() > 0 {
        let front = events.drop_last();
        jobs_follow_the_changes(known, state, front);
        lemma_steps_keep_places(known, state, front);
        let before = steps(known, state, front);
        let end = steps(known, state, events);
        if asks(known)(events.last()) {
            assert(events.filter(asks(known)) == front.filter(asks(known)).push(events.last()));
            assert(end.jobs.len() == before.jobs.len() + 1);
            assert(end.jobs =~= before.jobs.push(end.jobs.last()));
        } else {
            assert(end.jobs == before.jobs);
        }
        assert forall|i: int| never_renamed(known, i, events) implies #[trigger] never_renamed(
            known,
            i,
            front,
        ) by {
            assert forall|j: int| 0 <= j < front.len() implies !renames(
                known,
                i,
                #[trigger] front[j],
            ) by {
                assert(front[j] == events[j]);
            }
        }
        if let FsEvent::Change(file) = events.last() {
            let i = position_of(known, file@);
            lemma_position_finds(known, file@, known.len() as int);
            if i >= 0 && never_renamed(known, i, events) {
                assert(never_renamed(known, i, front));
                lemma_unrenamed(known, state, front, i);
            }
        }
    }
}

/// A change renames the known file at a position.
pub open spec fn renames(known: Seq<FileView>, i: int, event: FsEvent) -> bool {
    event matches FsEvent::Rename(before, _) && position_of(known, before@) == i
}

/// No change renames the known file at a position.
pub open spec fn never_renamed(known: Seq<FileView>, i: int, events: Seq<FsEvent>) -> bool {
    forall|j: int| 0 <= j < events.len() ==> !renames(known, i, #[trigger] events[j])
}

/// A change removes a file.
pub open spec fn removes(event: FsEvent, file: FileView) -> bool {
    event matches FsEvent::Remove(gone) && same_entry(file, gone@)
}

/// A file that no change concerns comes through a refresh as it was.
pub proof fn untouched_files_stay(
    known: Seq<FileView>,
    state: Progress,
    events: Seq<FsEvent>,
    i: int,
)
    requires
        state.files == known,
        state.removed.len() == 0,
        0 <= i < known.len(),
        forall|j: int| 0 <= j < events.len() ==> !concerns(known, i, #[trigger] events[j]),
    ensures
        steps(known, state, events).files[i] == known[i],
        survivors(steps(known, state, events)).contains(known[i]),
{
    assert forall|j: int| 0 <= j < events.len() implies !removes(
        #[trigger] events[j],
        known[i],
    ) by {
        assert(!concerns(known, i, events[j]));
    }
    assert forall|j: int| 0 <= j < events.len() implies !renames(
        known,
        i,
        #[trigger] events[j],
    ) by {
        assert(!concerns(known, i, events[j]));
    }
    lemma_unrenamed(known, state, events, i);
    lemma_removed_by_some_change(known, state, events, known[i]);
    lemma_steps_keep_places(known, state, events);
    let end = steps(known, state, events);
    let rest = end.files.filter(kept(end.removed));
    broadcast use Seq::lemma_filter_contains;

    assert(kept(end.removed)(end.files[i]));
    assert(rest.contains(end.files[i]));
    let k = choose|k: int| 0 <= k < rest.len() && rest[k] == known[i];
    assert(survivors(end)[k] == known[i]);
}

/// A file that was created is in the new listing, with the slots for its
/// metadata.
pub proof fn created_files_come_in(
    known: Seq<FileView>,
    state: Progress,
    events: Seq<FsEvent>,
    j: int,
)
    requires
        0 <= j < events.len(),
        events[j] is Create,
    ensures
        ({
            let file = events[j]->Create_0;
            let then = steps(known, state, events.take(j)).cache;
            survivors(steps(known, state, events)).contains(prepared(file@, then).file)
        }),
{
    let file = events[j]->Create_0;
    let then = steps(known, state, events.take(j)).cache;
    let ready = prepared(file@, then).file;
    lemma_created(known, state, events, j);
    let end = steps(known, state, events);
    let k = choose|k: int| 0 <= k < end.fresh.len() && end.fresh[k] == ready;
    let rest = end.files.filter(kept(end.removed));
    assert(survivors(end)[rest.len() + k] == ready);
}

proof fn lemma_created(known: Seq<FileView>, state: Progress, events: Seq<FsEvent>, j: int)
    requires
        0 <= j < events.len(),
        events[j] is Create,
    ensures
        ({
            let file = events[j]->Create_0;
            let then = steps(known, state, events.take(j)).cache;
            steps(known, state, events).fresh.contains(prepared(file@, then).file)
        }),
    decreases events.len(),
{
    let front = events.drop_last();
    let before = steps(known, state, front);
    let end = steps(known, state, events);
    let file = events[j]->Create_0;
    let then = steps(known, state, events.take(j)).cache;
    let ready = prepared(file@, then).file;
    if j == events.len() - 1 {
        assert(events.take(j) =~= front);
        assert(end.fresh[end.fresh.len() - 1] == ready);
    } else {
        lemma_created(known, state, front, j);
        assert(front.take(j) =~= events.take(j));
        let k = choose|k: int| 0 <= k < before.fresh.len() && before.fresh[k] == ready;
        assert(end.fresh[k] == ready);
    }
}

/// A known file that was removed is not in the new listing, unless a file of
/// that name and path was created.
pub proof fn removed_files_go(
    known: Seq<FileView>,
    state: Progress,
    events: Seq<FsEvent>,
    j: int,
    file: FileView,
)
    requires
        0 <= j < events.len(),
        events[j] is Remove,
        position_of(known, (events[j]->Remove_0)@) >= 0,
        same_entry(file, (events[j]->Remove_0)@),
    ensures
        survivors(steps(known, state, events)).contains(file) ==> steps(
            known,
            state,
            events,
        ).fresh.contains(file),
{
    lemma_removed(known, state, events, j);
    let end = steps(known, state, events);
    let rest = end.files.filter(kept(end.removed));
    let gone = (events[j]->Remove_0)@;
    let all = survivors(end);
    if all.contains(file) {
        let k = choose|k: int| 0 <= k < all.len() && all[k] == file;
        if k < rest.len() {
            broadcast use Seq::lemma_filter_pred;

            assert(kept(end.removed)(rest[k]));
            let r = choose|r: int| 0 <= r < end.removed.len() && end.removed[r] == gone;
            assert(same_entry(file, end.removed[r]));
            assert(is_removed(file, end.removed));
        } else {
            assert(end.fresh[k - rest.len()] == file);
        }
    }
}

proof fn lemma_removed(known: Seq<FileView>, state: Progress, events: Seq<FsEvent>, j: int)
    requires
        0 <= j < events.len(),
        events[j] is Remove,
        position_of(known, (events[j]->Remove_0)@) >= 0,
    ensures
        steps(known, state, events).removed.contains((events[j]->Remove_0)@),
    decreases events.len(),
{
    let front = events.drop_last();
    let before = steps(known, state, front);
    let end = steps(known, state, events);
    let gone = (events[j]->Remove_0)@;
    if j == events.len() - 1 {
        assert(end.removed[end.removed.len() - 1] == gone);
    } else {
        lemma_removed(known, state, front, j);
        let k = choose|k: int| 0 <= k < before.removed.len() && before.removed[k] == gone;
        assert(end.removed[k] == gone);
    }
}

/// What is asked for is not forgotten: the jobs so far stay, in their places.
proof fn lemma_jobs_stay(known: Seq<FileView>, state: Progress, events: Seq<FsEvent>)
    ensures
        state.jobs.is_prefix_of(steps(known, state, events).jobs),
    decreases events.len(),
{
    if events.len() > 0 {
        lemma_jobs_stay(known, state, events.drop_last());
    }
}

/// The metadata of a known file that has changed is asked for again, under the
/// path that the file has by then.
pub proof fn changed_files_are_asked_for_again(
    known: Seq<FileView>,
    state: Progress,
    events: Seq<FsEvent>,
    j: int,
)
    requires
        state.files.len() == known.len(),
        0 <= j < events.len(),
        events[j] is Change,
        position_of(known, (events[j]->Change_0)@) >= 0,
    ensures
        ({
            let then = steps(known, state, events.take(j));
            let i = position_of(known, (events[j]->Change_0)@);
            let job = refetch_job(then.files[i], then.cache);
            steps(known, state, events).jobs.contains(job)
        }),
{
    let then = steps(known, state, events.take(j));
    let i = position_of(known, (events[j]->Change_0)@);
    let job = refetch_job(then.files[i], then.cache);
    let next = steps(known, state, events.take(j + 1));
    assert(events.take(j + 1).drop_last() =~= events.take(j));
    assert(next.jobs == then.jobs.push(job));
    assert(events =~= events.take(j + 1) + events.skip(j + 1));
    batches_add_up(known, state, events.take(j + 1), events.skip(j + 1));
    lemma_jobs_stay(known, next, events.skip(j + 1));
    let end = steps(known, state, events).jobs;
    let at = then.jobs.len() as int;
    assert(end.subrange(0, next.jobs.len() as int)[at] == next.jobs[at]);
    assert(end[at] == job);
}

/// Only a rename alters a known file.
proof fn lemma_unrenamed(known: Seq<FileView>, state: Progress, events: Seq<FsEvent>, i: int)
    requires
        state.files.len() == known.len(),
        0 <= i < known.len(),
        never_renamed(known, i, events),
    ensures
        steps(known, state, events).files[i] == state.files[i],
    decreases events.len(),
{
    if events.len() > 0 {
        let front = events.drop_last();
        assert forall|j: int| 0 <= j < front.len() implies !renames(
            known,
            i,
            #[trigger] front[j],
        ) by {
            assert(front[j] == events[j]);
        }
        lemma_unrenamed(known, state, front, i);
        lemma_steps_keep_places(known, state, front);
        assert(!renames(known, i, events[events.len() - 1]));
        if let FsEvent::Rename(before, _) = events.last() {
            lemma_position_finds(known, before@, known.len() as int);
        }
    }
}

/// A file is among the removed ones only if some change removes it.
proof fn lemma_removed_by_some_change(
    known: Seq<FileView>,
    state: Progress,
    events: Seq<FsEvent>,
    file: FileView,
)
    requires
        state.removed.len() == 0,
        forall|j: int|
            0 <= j < events.len() ==> !removes(#[trigger] events[j], file),
    ensures
        !is_removed(file, steps(known, state, events).removed),
    decreases events.len(),
{
    if events.len() > 0 {
        let front = events.drop_last();
        assert forall|j: int| 0 <= j < front.len() implies !removes(#[trigger] front[j], file) by {
            assert(front[j] == events[j]);
        }
        lemma_removed_by_some_change(known, state, front, file);
        let before = steps(known, state, front).removed;
        let end = steps(known, state, events).removed;
        assert(!removes(events[events.len() - 1], file));
        if is_removed(file, end) {
            let k = choose|k: int| 0 <= k < end.len() && same_entry(file, #[trigger] end[k]);
            if k < before.len() {
                assert(before[k] == end[k]);
            }
        }
    }
}

/// A known file that was renamed is in the new listing under its new path and
/// name, as it was otherwise, if no other change concerns it and nothing
/// removes what it has become.
pub proof fn renamed_files_come_under_their_new_path(
    known: Seq<FileView>,
    state: Progress,
    events: Seq<FsEvent>,
    j: int,
)
    requires
        state.files == known,
        state.removed.len() == 0,
        0 <= j < events.len(),
        events[j] is Rename,
        ({
            let i = position_of(known, (events[j]->Rename_0)@);
            let file = renamed(known[i], events[j]->Rename_1.path);
            &&& i >= 0
            &&& forall|k: int|
                0 <= k < events.len() && k != j ==> !concerns(known, i, #[trigger] events[k])
            &&& forall|k: int| 0 <= k < events.len() ==> !removes(#[trigger] events[k], file)
        }),
    ensures
        ({
            let i = position_of(known, (events[j]->Rename_0)@);
            let file = renamed(known[i], events[j]->Rename_1.path);
            survivors(steps(known, state, events)).contains(file)
        }),
{
    let i = position_of(known, (events[j]->Rename_0)@);
    let file = renamed(known[i], events[j]->Rename_1.path);
    let (first, second) = (events.take(j), events.skip(j + 1));
    let next = steps(known, state, events.take(j + 1));
    lemma_position_finds(known, (events[j]->Rename_0)@, known.len() as int);
    assert(events.take(j + 1).drop_last() =~= first);
    assert(events =~= events.take(j + 1) + second);
    assert forall|k: int| 0 <= k < first.len() implies !renames(known, i, #[trigger] first[k]) by {
        assert(first[k] == events[k]);
        assert(!concerns(known, i, events[k]));
    }
    assert forall|k: int| 0 <= k < second.len() implies !renames(known, i, #[trigger] second[k]) by {
        assert(second[k] == events[j + 1 + k]);
        assert(!concerns(known, i, events[j + 1 + k]));
    }
    lemma_unrenamed(known, state, first, i);
    lemma_steps_keep_places(known, state, first);
    assert(next.files[i] == file);
    lemma_steps_keep_places(known, state, events.take(j + 1));
    lemma_unrenamed(known, next, second, i);
    batches_add_up(known, state, events.take(j + 1), second);
    lemma_steps_keep_places(known, state, events);
    lemma_removed_by_some_change(known, state, events, file);
    let end = steps(known, state, events);
    let rest = end.files.filter(kept(end.removed));
    broadcast use Seq::lemma_filter_contains;

    assert(kept(end.removed)(end.files[i]));
    assert(rest.contains(end.files[i]));
    let k = choose|k: int| 0 <= k < rest.len() && rest[k] == file;
    assert(survivors(end)[k] == file);
}

/// Changes can be taken in one batch after the other, as long as files are
/// found by what they were at first.
pub proof fn batches_add_up(
    known: Seq<FileView>,
    state: Progress,
    first: Seq<FsEvent>,
    second: Seq<FsEvent>,
)
    ensures
        steps(known, state, first + second) == steps(known, steps(known, state, first), second),
    decreases second.len(),
{
    if second.len() == 0 {
        assert(first + second =~= first);
    } else {
        batches_add_up(known, state, first, second.drop_last());
        assert((first + second).drop_last() =~= first + second.drop_last());
        assert((first + second).last() == second.last());
    }
}

/// The same files in another order: as many of them have a property.
proof fn lemma_reordered_count(
    a: Seq<FileView>,
    b: Seq<FileView>,
    wanted: spec_fn(FileView) -> bool,
)
    requires
        a.to_multiset() == b.to_multiset(),
    ensures
        a.len() == b.len(),
        a.filter(wanted).len() == b.filter(wanted).len(),
    decreases a.len(),
{
    reveal(Seq::filter);
    a.to_multiset_ensures();
    b.to_multiset_ensures();
    if a.len() > 0 {
        let last = a.last();
        assert(a.contains(last));
        assert(b.to_multiset().count(last) > 0);
        assert(b.contains(last));
        let k = choose|k: int| 0 <= k < b.len() && b[k] == last;
        let rest = b.remove(k);
        assert(a.remove(a.len() - 1) =~= a.drop_last());
        assert(a.drop_last().to_multiset() =~= rest.to_multiset());
        lemma_reordered_count(a.drop_last(), rest, wanted);
        let left = b.take(k);
        let right = b.skip(k + 1);
        assert(b =~= left + seq![last] + right);
        assert(rest =~= left + right);
        Seq::filter_distributes_over_add(left + seq![last], right, wanted);
        Seq::filter_distributes_over_add(left, seq![last], wanted);
        Seq::filter_distributes_over_add(left, right, wanted);
        reveal_with_fuel(Seq::filter, 2);
        assert(seq![last].drop_last() =~= Seq::<FileView>::empty());
        assert(seq![last].filter(wanted).len() == if wanted(last) {
            1nat
        } else {
            0nat
        });
    } else {
        assert(b.len() == 0);
    }
}

/// A new listing is never empty, and the number that comes with it is that of
/// the files shown, unless none is and the directory is itself hidden: then the
/// placeholder counts though it is not shown.
pub proof fn new_listings_count_what_is_shown(
    files: &Files,
    state: Progress,
    new_files: Seq<FileView>,
    new_len: usize,
)
    requires
        is_outcome(files, state, new_files, new_len),
    ensures
        new_files.len() > 0,
        new_len > 0,
        files.show_hidden || !begins_with_dot(name_of_path(files.directory.path)) || survivors(
            state,
        ).filter(files.viewing().shown()).len() > 0 ==> new_len == new_files.filter(
            files.viewing().shown(),
        ).len(),
{
    let all = survivors(state);
    let wanted = files.viewing().shown();
    if all.filter(wanted).len() > 0 {
        lemma_reordered_count(all, new_files, wanted);
        all.lemma_filter_len(wanted);
    } else {
        let front = new_files.drop_last();
        lemma_reordered_count(all, front, wanted);
        filters_pass_placeholders(files.viewing(), files.directory.path);
        assert(new_files =~= front.push(new_files.last()));
        lemma_filter_step(new_files, wanted, new_files.len() - 1);
        assert(new_files.take(new_files.len() - 1) =~= front);
        assert(new_files.take(new_files.len() as int) =~= new_files);
    }
}

/// The new listing is in the order that the listing's own criterion, direction
/// and place of directories give, the placeholder at its end aside: of any two
/// files the one that stands first does not come after the other.
pub proof fn refreshed_listings_keep_their_order(
    files: &Files,
    state: Progress,
    new_files: Seq<FileView>,
    new_len: usize,
    i: int,
    j: int,
)
    requires
        is_outcome(files, state, new_files, new_len),
        files.sort == SortBy::Name || forall|k: int|
            0 <= k < survivors(state).len() ==> meta_of(
                #[trigger] survivors(state)[k],
                state.cache,
            ) is Some,
        0 <= i < j < new_files.len(),
        j < new_files.len() - 1 || survivors(state).filter(files.viewing().shown()).len() > 0,
    ensures
        files.dirs_first && new_files[j].kind == Kind::Directory ==> new_files[i].kind
            == Kind::Directory,
        !files.dirs_first || (new_files[i].kind == Kind::Directory) == (new_files[j].kind
            == Kind::Directory) ==> {
            let (a, b) = (new_files[i], new_files[j]);
            let forwards = name_order(a.name, b.name) != Ordering::Greater;
            let backwards = name_order(b.name, a.name) != Ordering::Greater;
            match files.sort {
                SortBy::Name => if files.reverse {
                    backwards
                } else {
                    forwards
                },
                SortBy::Size => meta_of(a, state.cache) matches Some(ma) && meta_of(
                    b,
                    state.cache,
                ) matches Some(mb) && if files.reverse {
                    ma.size < mb.size || ma.size == mb.size && forwards
                } else {
                    ma.size > mb.size || ma.size == mb.size && backwards
                },
                SortBy::MTime => meta_of(a, state.cache) matches Some(ma) && meta_of(
                    b,
                    state.cache,
                ) matches Some(mb) && if files.reverse {
                    ma.mtime < mb.mtime || ma.mtime == mb.mtime && forwards
                } else {
                    ma.mtime > mb.mtime || ma.mtime == mb.mtime && backwards
                },
            }
        },
{
    let all = survivors(state);
    let sorted = if all.filter(files.viewing().shown()).len() > 0 {
        new_files
    } else {
        new_files.drop_last()
    };
    assert(sorted[i] == new_files[i] && sorted[j] == new_files[j]);
    sorted_files_follow_the_settings(files.sorting(), all, sorted, state.cache, i, j);
}

/// The new listing holds the files that are left and no other, each as often as
/// before; where none of them is shown, a placeholder of the directory comes
/// last besides. A refresh that was called off has no listing, and one that was
/// not has one; the jobs are there either way.
pub proof fn refreshed_listings_hold_what_is_left(
    files: &Files,
    state: Progress,
    called_off: bool,
    package: RefreshPackage,
)
    requires
        is_refresh(files, state, called_off, package),
    ensures
        package.jobs@ == state.jobs,
        called_off ==> package.new_files is None && package.new_len == 0,
        !called_off ==> (package.new_files matches Some(new_files) && {
            let all = survivors(state);
            let new = entries_of(new_files@);
            if all.filter(files.viewing().shown()).len() > 0 {
                &&& new.to_multiset() == all.to_multiset()
                &&& package.new_len == all.filter(files.viewing().shown()).len()
            } else {
                &&& new.len() == all.len() + 1
                &&& new.drop_last().to_multiset() == all.to_multiset()
                &&& new.last().kind == Kind::Placeholder
                &&& new.last().name == "<empty>"@
                &&& new.last().path == files.directory.path
                &&& new.last().hidden == begins_with_dot(name_of_path(files.directory.path))
                &&& new.last().dirsize is None && new.last().meta is None
                &&& new.last().target is None
                &&& !new.last().selected && new.last().tag is None
                &&& package.new_len == 1
            }
        }),
{
    let all = survivors(state);
    if !called_off && all.filter(files.viewing().shown()).len() == 0 {
        lemma_reordered_count(
            all,
            entries_of(package.new_files->0@).drop_last(),
            files.viewing().shown(),
        );
    }
}

/// A refresh begins with the files of the listing. Only where the listing counts
/// a single file may one go, which then has the path of the directory: a lone
/// placeholder does.
pub proof fn refreshes_begin_with_all_files(files: &Files)
    ensures
        files.len != 1 ==> known_entries(files) == files.entries(),
        forall|file: FileView|
            !same_path(file.path, files.directory.path) ==> (#[trigger] known_entries(
                files,
            ).contains(file) <==> files.entries().contains(file)),
        files.len == 1 && files.files@.len() == 1 && files.files@[0].kind == Kind::Placeholder
            && same_path(files.files@[0].path, files.directory.path) && (files.show_hidden
            || !files.files@[0].hidden) ==> known_entries(files).len() == 0,
        files.entries().len() <= known_entries(files).len() + 1,
{
    only_the_placeholder_goes(
        files.entries(),
        files.viewing(),
        files.directory.path,
        files.len,
    );
    if files.files@.len() == 1 {
        assert(files.entries()[0] == files.files@[0]@);
        if files.viewing().shows(files.entries()[0]) && same_path(
            files.entries()[0].path,
            files.directory.path,
        ) {
            assert(files.len == 1 ==> known_entries(files).len() == 0);
        }
    }
}

/// A file is found among those that were known by its name and its path, both;
/// where several agree in both, the last of them is.
pub proof fn files_are_found_by_name_and_path(known: Seq<FileView>, wanted: FileView)
    ensures
        ({
            let i = position_of(known, wanted);
            &&& -1 <= i < known.len()
            &&& i >= 0 ==> known[i].name == wanted.name && same_path(known[i].path, wanted.path)
            &&& forall|j: int|
                i < j < known.len() ==> !((#[trigger] known[j]).name == wanted.name && same_path(
                    known[j].path,
                    wanted.path,
                ))
        }),
{
    lemma_last_among(known, wanted, known.len() as int);
}

proof fn lemma_last_among(files: Seq<FileView>, wanted: FileView, n: int)
    requires
        0 <= n <= files.len(),
    ensures
        ({
            let i = last_among(files, wanted, n);
            &&& -1 <= i < n
            &&& i >= 0 ==> same_entry(files[i], wanted)
            &&& forall|j: int| i < j < n ==> !same_entry(#[trigger] files[j], wanted)
        }),
    decreases n,
{
    if n > 0 && !same_entry(files[n - 1], wanted) {
        lemma_last_among(files, wanted, n - 1);
    }
}

/// A known file stays what it is, whatever changes come: the directory or file
/// that it was, selected and tagged as it was, with its slots. Unless some change
/// renames it, it is the same throughout.
pub proof fn known_files_stay_what_they_are(
    known: Seq<FileView>,
    state: Progress,
    events: Seq<FsEvent>,
    i: int,
)
    requires
        state.files.len() == known.len(),
        0 <= i < known.len(),
    ensures
        steps(known, state, events).files.len() == known.len(),
        ({
            let (before, after) = (state.files[i], steps(known, state, events).files[i]);
            &&& after.kind == before.kind
            &&& after.selected == before.selected
            &&& after.tag == before.tag
            &&& after.target == before.target
            &&& after.meta == before.meta
            &&& after.dirsize == before.dirsize
            &&& (forall|j: int|
                0 <= j < events.len() && #[trigger] events[j] is Rename ==> position_of(
                    known,
                    (events[j]->Rename_0)@,
                ) != i) ==> after == before
        }),
    decreases events.len(),
{
    lemma_steps_keep_places(known, state, events);
    if forall|j: int|
        0 <= j < events.len() && #[trigger] events[j] is Rename ==> position_of(
            known,
            (events[j]->Rename_0)@,
        ) != i {
        assert(never_renamed(known, i, events));
        lemma_unrenamed(known, state, events, i);
    }
    if events.len() > 0 {
        let front = events.drop_last();
        known_files_stay_what_they_are(known, state, front, i);
        lemma_steps_keep_places(known, state, front);
        if let FsEvent::Rename(before, after) = events.last() {
            lemma_position_finds(known, before@, known.len() as int);
            renamed_files_stay_what_they_are(steps(known, state, front).files[i], after.path);
        }
    }
}

/// Only removals take files away: what a known file has become is in the new
/// listing unless a file of its name and path was removed.
pub proof fn only_removals_take_files_away(
    known: Seq<FileView>,
    state: Progress,
    events: Seq<FsEvent>,
    i: int,
)
    requires
        state.files.len() == known.len(),
        state.removed.len() == 0,
        0 <= i < known.len(),
        forall|j: int|
            0 <= j < events.len() && #[trigger] events[j] is Remove ==> !((
            events[j]->Remove_0)@.name == steps(known, state, events).files[i].name && same_path(
                (events[j]->Remove_0)@.path,
                steps(known, state, events).files[i].path,
            )),
    ensures
        survivors(steps(known, state, events)).contains(steps(known, state, events).files[i]),
{
    let end = steps(known, state, events);
    let file = end.files[i];
    lemma_steps_keep_places(known, state, events);
    lemma_removed_by_some_change(known, state, events, file);
    let rest = end.files.filter(kept(end.removed));
    broadcast use Seq::lemma_filter_contains;

    assert(kept(end.removed)(end.files[i]));
    assert(rest.contains(file));
    let k = choose|k: int| 0 <= k < rest.len() && rest[k] == file;
    assert(survivors(end)[k] == file);
}

/// The new listing holds nothing else: each file in it is what a known one has
/// become or one that comes in.
pub proof fn nothing_else_is_listed(state: Progress, file: FileView)
    ensures
        survivors(state).contains(file) ==> state.files.contains(file) || state.fresh.contains(
            file,
        ),
        survivors(state).len() <= state.files.len() + state.fresh.len(),
        survivors(state).len() >= state.fresh.len(),
        forall|k: int|
            0 <= k < state.fresh.len() ==> survivors(state)[survivors(state).len()
                - state.fresh.len() + k] == #[trigger] state.fresh[k],
{
    let rest = state.files.filter(kept(state.removed));
    state.files.lemma_filter_len(kept(state.removed));
    broadcast use Seq::lemma_filter_contains_rev;

    if survivors(state).contains(file) {
        let k = choose|k: int| 0 <= k < survivors(state).len() && survivors(state)[k] == file;
        if k < rest.len() {
            assert(rest.contains(file));
        } else {
            assert(state.fresh[k - rest.len()] == file);
        }
    }
}

/// One file comes in for each that was created, in order. It is what was
/// created, with a slot for its metadata and, if it is a directory, one for its
/// size.
pub proof fn files_come_in_as_they_were_created(
    known: Seq<FileView>,
    state: Progress,
    events: Seq<FsEvent>,
)
    ensures
        ({
            let created = events.filter(|event: FsEvent| event is Create);
            let fresh = steps(known, state, events).fresh;
            &&& fresh.len() == state.fresh.len() + created.len()
            &&& forall|k: int|
                0 <= k < state.fresh.len() ==> #[trigger] fresh[k] == state.fresh[k]
            &&& forall|k: int|
                #![trigger created[k]]
                0 <= k < created.len() ==> {
                    let (before, after) = ((created[k]->Create_0)@, fresh[state.fresh.len() + k]);
                    &&& after == (FileView { meta: after.meta, dirsize: after.dirsize, ..before })
                    &&& after.meta is Some
                    &&& before.meta is Some ==> after.meta == before.meta
                    &&& before.kind == Kind::Directory ==> after.dirsize is Some
                    &&& before.dirsize is Some || before.kind != Kind::Directory ==> after.dirsize
                        == before.dirsize
                }
        }),
    decreases events.len(),
{
    reveal(Seq::filter);
    let is_create = |event: FsEvent| event is Create;
    if events.len() > 0 {
        let front = events.drop_last();
        files_come_in_as_they_were_created(known, state, front);
        let before = steps(known, state, front);
        let end = steps(known, state, events);
        let (created, created_front) = (events.filter(is_create), front.filter(is_create));
        if let FsEvent::Create(file) = events.last() {
            assert(is_create(events.last()));
            assert(created == created_front.push(events.last()));
            prepared_files_have_their_slots(file@, before.cache);
        } else {
            assert(created == created_front);
            assert(end.fresh == before.fresh);
        }
    }
}

/// Changes are taken in up to the first yes to the question whether the work has
/// been called off, and all of them where there is none.
pub proof fn a_yes_stops_the_refresh(answers: Seq<bool>, count: nat)
    ensures
        ({
            let n = taken_in(answers, count) as int;
            &&& n <= count
            &&& forall|i: int| 0 <= i < n ==> !#[trigger] answers[i]
            &&& n < count ==> answers[n]
        }),
    decreases count,
{
    if count > 0 {
        a_yes_stops_the_refresh(answers, (count - 1) as nat);
    }
}

/// A change of a known file, and its renaming, empty the slot of that file's
/// metadata and no other, or make an empty one where the file had none; the last
/// job is then the one that fills it, for the path that the file has now. A
/// created file gets a new slot for metadata if it lacks one, and a directory
/// one for its size, unless its path has one. A removal touches no slot, and a
/// change of an unknown file touches nothing.
pub proof fn changes_touch_the_slots_of_their_file(
    known: Seq<FileView>,
    state: Progress,
    event: FsEvent,
)
    requires
        state.files.len() == known.len(),
    ensures
        ({
            let after = step(known, state, event);
            let (metas, dirs) = (state.cache.metas, state.cache.dirs);
            match event {
                FsEvent::Create(file) => {
                    let uncounted = file.kind == Kind::Directory && file.dirsize is None;
                    let shared = exists|i: int|
                        0 <= i < dirs.len() && same_path((#[trigger] dirs[i]).0, file.path);
                    &&& after.cache.metas == if file.meta is None {
                        metas.push(None)
                    } else {
                        metas
                    }
                    &&& uncounted && !shared ==> after.cache.dirs.len() == dirs.len() + 1
                        && after.cache.dirs.drop_last() == dirs && after.cache.dirs.last().0
                        == file.path && after.cache.dirsizes.len() == state.cache.dirsizes.len() + 1
                        && after.cache.dirsizes.drop_last() == state.cache.dirsizes
                        && !after.cache.dirsizes.last().ready
                    &&& !uncounted || shared ==> after.cache.dirs == dirs && after.cache.dirsizes
                        == state.cache.dirsizes
                    &&& after.files == state.files && after.removed == state.removed
                },
                FsEvent::Change(file) => {
                    let i = position_of(known, file@);
                    &&& i < 0 ==> after == state
                    &&& i >= 0 ==> after.files == state.files && asks_again(
                        state.files[i],
                        state,
                        after,
                    )
                    &&& after.fresh == state.fresh && after.removed == state.removed
                },
                FsEvent::Rename(before, _) => {
                    let i = position_of(known, before@);
                    &&& i < 0 ==> after == state
                    &&& i >= 0 ==> asks_again(after.files[i], state, after)
                        && after.files[i].meta == state.files[i].meta
                    &&& after.fresh == state.fresh && after.removed == state.removed
                },
                FsEvent::Remove(file) => {
                    &&& after.cache == state.cache && after.jobs == state.jobs
                    &&& after.files == state.files && after.fresh == state.fresh
                    &&& position_of(known, file@) < 0 ==> after == state
                    &&& position_of(known, file@) >= 0 ==> after.removed == state.removed.push(
                        file@,
                    )
                },
            }
        }),
{
    match event {
        FsEvent::Create(file) => {
            directories_are_found_by_path(state.cache, file.path);
            let after = step(known, state, event);
            if state.cache.dir_slot(file.path) is None {
                if file.kind == Kind::Directory && file.dirsize is None {
                    assert(after.cache.dirs.drop_last() =~= state.cache.dirs);
                    assert(after.cache.dirsizes.drop_last() =~= state.cache.dirsizes);
                }
                assert forall|i: int| 0 <= i < state.cache.dirs.len() implies !same_path(
                    (#[trigger] state.cache.dirs[i]).0,
                    file.path,
                ) by {
                    assert(!same_path(state.cache.dirs[i].0, file.path));
                }
            } else {
                let i = choose|i: int|
                    0 <= i < state.cache.dirs.len() && same_path(
                        #[trigger] state.cache.dirs[i].0,
                        file.path,
                    );
                assert(same_path(state.cache.dirs[i].0, file.path));
            }
        },
        FsEvent::Change(file) => {
            lemma_position_finds(known, file@, known.len() as int);
            if position_of(known, file@) >= 0 {
                assert(step(known, state, event).jobs.drop_last() =~= state.jobs);
            }
        },
        FsEvent::Rename(before, after) => {
            let i = position_of(known, before@);
            lemma_position_finds(known, before@, known.len() as int);
            if i >= 0 {
                renamed_files_stay_what_they_are(state.files[i], after.path);
                assert(step(known, state, event).jobs.drop_last() =~= state.jobs);
            }
        },
        FsEvent::Remove(_) => {},
    }
}

/// The metadata of a file is asked for again: its slot is empty, no other slot
/// is touched, and one more job fills it.
pub open spec fn asks_again(file: FileView, before: Progress, after: Progress) -> bool {
    &&& after.jobs.len() == before.jobs.len() + 1
    &&& after.jobs.drop_last() == before.jobs
    &&& after.jobs.last().0 == file.path
    &&& after.jobs.last().2 is None
    &&& after.cache.dirs == before.cache.dirs
    &&& after.cache.dirsizes == before.cache.dirsizes
    &&& match file.meta {
        Some(slot) => {
            &&& after.jobs.last().1 == Some(slot)
            &&& after.cache.metas.len() == before.cache.metas.len()
            &&& slot.0 < before.cache.metas.len() ==> after.cache.metas[slot.0 as int] is None
            &&& forall|k: int|
                0 <= k < before.cache.metas.len() && k != slot.0 ==> #[trigger] after.cache.metas[k]
                    == before.cache.metas[k]
        },
        None => {
            &&& after.jobs.last().1 == Some(before.cache.next_meta())
            &&& after.cache.metas == before.cache.metas.push(None)
        },
    }
}

} // verus!
