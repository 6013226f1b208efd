use async_value::Stale;
use hunter_files::file::File;
use hunter_files::files::Files;
use hunter_files::fscache::{DirSlot, FsCache, Meta, MetaSlot};
use hunter_files::ticks::{
    call_off_jobs, claim_ticker, finish_job, get_tick, is_ticking, set_ticking, thread_name, tick, tick_str,
    ticker_step, Ticks, BACKOFF, FIRST_COOLDOWN, LAST_COOLDOWN, THREAD_NUM,
};
use std::path::PathBuf;

fn meta(size: u64) -> Meta {
    Meta { size, mtime: 1, mode: 2, uid: 3, gid: 4 }
}

fn listing(names: &[&str]) -> Files {
    let mut files = Files::default();
    files.directory = File::new("d", PathBuf::from("/d"), true);
    files.files = names
        .iter()
        .map(|name| File::new(name, PathBuf::from(format!("/d/{}", name)), false))
        .collect();
    files.recalculate_len();
    files.has_cache = true;
    files
}

#[test]
fn a_file_is_prepared_once() {
    let mut cache = FsCache::default();
    let mut file = File::new("a", PathBuf::from("/a"), false);
    let job = file.prepare_meta_job(&mut cache).unwrap();
    assert_eq!(job, (PathBuf::from("/a"), Some(MetaSlot(0)), None));
    assert_eq!(file.meta, Some(MetaSlot(0)));
    assert!(file.prepare_meta_job(&mut cache).is_none());
    assert_eq!(cache.metas.len(), 1);
}

#[test]
fn equal_directories_share_a_slot() {
    let mut cache = FsCache::default();
    let mut a = File::new("d", PathBuf::from("/d"), true);
    let mut b = File::new("d", PathBuf::from("/d/"), true);
    let job = a.prepare_meta_job(&mut cache).unwrap();
    assert_eq!(job, (PathBuf::from("/d"), Some(MetaSlot(0)), Some(DirSlot(0))));
    let job = b.prepare_meta_job(&mut cache).unwrap();
    assert_eq!(job, (PathBuf::from("/d/"), Some(MetaSlot(1)), Some(DirSlot(0))));
    assert_eq!(cache.get_dirsize(&b), Some(DirSlot(0)));
    let other = File::new("e", PathBuf::from("/e"), true);
    assert_eq!(cache.get_dirsize(&other), None);
}

#[test]
fn a_directory_that_has_its_size_slot_asks_for_metadata_only() {
    let mut cache = FsCache::default();
    let mut dir = File::new("d", PathBuf::from("/d"), true);
    let slot = cache.make_dirsize(&dir);
    dir.set_dirsize(slot);
    let job = dir.prepare_meta_job(&mut cache).unwrap();
    assert_eq!(job, (PathBuf::from("/d"), Some(MetaSlot(0)), None));
}

#[test]
fn finished_jobs_are_found() {
    let mut cache = FsCache::default();
    let mut dir = File::new("d", PathBuf::from("/d"), true);
    let job = dir.prepare_meta_job(&mut cache).unwrap();
    assert!(dir.meta(&cache).is_none());
    let left = finish_job(&mut cache, &job, Some(meta(9)), Some(42), 3);
    assert_eq!(left, 2);
    assert_eq!(dir.meta(&cache), Some(meta(9)));
    assert_eq!(dir.calculate_size(&cache).unwrap(), (42, ""));
    let copy = dir.clone();
    assert_eq!(copy.meta(&cache), Some(meta(9)));
}

#[test]
fn failed_fetches_leave_metadata_and_count_nothing() {
    let mut cache = FsCache::default();
    let mut dir = File::new("d", PathBuf::from("/d"), true);
    let job = dir.prepare_meta_job(&mut cache).unwrap();
    let left = finish_job(&mut cache, &job, None, None, 0);
    assert_eq!(left, 0);
    assert!(dir.meta(&cache).is_none());
    assert_eq!(dir.calculate_size(&cache).unwrap(), (0, ""));
    let mut file = File::new("f", PathBuf::from("/f"), false);
    let job = file.prepare_meta_job(&mut cache).unwrap();
    assert_eq!(finish_job(&mut cache, &job, Some(meta(1)), None, 5), 4);
}

#[test]
fn the_ticker_ends_when_all_jobs_are_done() {
    let mut cache = FsCache::default();
    let mut files = listing(&["a", "b"]);
    files.files.push(File::new("sub", PathBuf::from("/d/sub"), true));
    files.enqueue_jobs(3, &mut cache);
    let run = files.run_jobs().unwrap();
    let mut ticks = Ticks { count: 0, ticking: true };
    let mut cooldown = FIRST_COOLDOWN;
    let mut left = run.left;
    for job in run.jobs.iter() {
        assert!(ticker_step(&mut ticks, &mut cooldown, left));
        left = finish_job(&mut cache, job, Some(meta(1)), Some(2), left);
    }
    assert_eq!(left, 0);
    assert!(!ticker_step(&mut ticks, &mut cooldown, left));
    assert!(!is_ticking(&ticks));
}

#[test]
fn jobs_that_are_called_off_are_over() {
    let mut cache = FsCache::default();
    let mut files = listing(&["a", "b", "c"]);
    files.enqueue_jobs(3, &mut cache);
    let run = files.run_jobs().unwrap();
    let left = finish_job(&mut cache, &run.jobs[0], None, None, run.left);
    assert_eq!(left, 2);
    assert_eq!(call_off_jobs(left, 1), 1);
    assert_eq!(call_off_jobs(left, 2), 0);
    assert_eq!(call_off_jobs(left, 7), 0);
}

#[test]
fn refetching_empties_the_slot() {
    let mut cache = FsCache::default();
    let mut file = File::new("f", PathBuf::from("/f"), false);
    let first = file.prepare_meta_job(&mut cache).unwrap();
    finish_job(&mut cache, &first, Some(meta(1)), None, 1);
    let again = file.refresh_meta_job(&mut cache);
    assert_eq!(again, (PathBuf::from("/f"), Some(MetaSlot(0)), None));
    assert!(file.meta(&cache).is_none());
    finish_job(&mut cache, &again, Some(meta(2)), None, 1);
    assert_eq!(file.meta(&cache), Some(meta(2)));
}

#[test]
fn refetching_without_a_slot_goes_to_a_slot_of_its_own() {
    let mut cache = FsCache::default();
    let mut file = File::new("f", PathBuf::from("/f"), false);
    let job = file.refresh_meta_job(&mut cache);
    assert_eq!(job, (PathBuf::from("/f"), Some(MetaSlot(0)), None));
    assert!(file.meta.is_none());
    finish_job(&mut cache, &job, Some(meta(2)), None, 1);
    assert!(file.meta(&cache).is_none());
}

#[test]
fn unknown_slots_hold_nothing() {
    let mut cache = FsCache::default();
    cache.set_meta(MetaSlot(3), Some(meta(1)));
    cache.fill_dirsize(DirSlot(3), 7);
    assert!(cache.meta_at(MetaSlot(3)).is_none());
    assert!(!cache.dirsize_at(DirSlot(3)).ready);
}

#[test]
fn jobs_are_asked_for_range_by_range() {
    let mut cache = FsCache::default();
    let mut files = listing(&["a", ".b", "c", "d"]);
    files.enqueue_jobs(1, &mut cache);
    assert_eq!(files.meta_upto, Some(1));
    assert_eq!(files.jobs.len(), 1);
    files.enqueue_jobs(5, &mut cache);
    assert_eq!(files.meta_upto, Some(6));
    let paths: Vec<PathBuf> = files.jobs.iter().map(|job| job.0.clone()).collect();
    assert_eq!(
        paths,
        [PathBuf::from("/d/a"), PathBuf::from("/d/c"), PathBuf::from("/d/d")]
    );
    assert!(files.files[1].meta.is_none());

    let mut at_once = listing(&["a", ".b", "c", "d"]);
    let mut other = FsCache::default();
    at_once.enqueue_jobs(6, &mut other);
    assert_eq!(at_once.jobs, files.jobs);
    assert_eq!(other.metas.len(), cache.metas.len());
}

#[test]
fn without_a_cache_nothing_is_asked_for() {
    let mut cache = FsCache::default();
    let mut files = listing(&["a"]);
    files.has_cache = false;
    files.enqueue_jobs(4, &mut cache);
    assert_eq!(files.meta_upto, Some(4));
    assert!(files.jobs.is_empty() && cache.metas.is_empty());
}

#[test]
fn runs_take_the_jobs() {
    let mut cache = FsCache::default();
    let mut files = listing(&["a", "b"]);
    assert!(files.run_jobs().is_none());
    files.enqueue_jobs(2, &mut cache);
    let run = files.run_jobs().unwrap();
    assert_eq!(run.left, 2);
    assert_eq!(run.jobs.len(), 2);
    assert!(!run.stale.is_stale().unwrap());
    assert!(files.jobs.is_empty());
}

#[test]
fn runs_are_called_off_with_their_listing() {
    let mut cache = FsCache::default();
    let mut files = listing(&["a"]);
    let stale = Stale::new();
    files.stale = Some(stale.clone());
    files.enqueue_jobs(1, &mut cache);
    let run = files.run_jobs().unwrap();
    assert!(!run.stale.is_stale().unwrap());
    stale.set_stale().unwrap();
    assert!(run.stale.is_stale().unwrap());
}

#[test]
fn the_sign_has_five_steps() {
    let mut ticks = Ticks { count: 0, ticking: false };
    let mut seen: Vec<&'static str> = Vec::new();
    for _ in 0..6 {
        seen.push(tick_str(&ticks));
        tick(&mut ticks);
    }
    assert_eq!(seen, ["   ", ".  ", ".. ", "...", "...", "   "]);
    assert_eq!(get_tick(&ticks), 6);
    let mut last = Ticks { count: usize::MAX, ticking: true };
    tick(&mut last);
    assert_eq!(get_tick(&last), 0);
    assert!(is_ticking(&last));
}

#[test]
fn one_ticker_at_a_time() {
    let mut ticks = Ticks { count: 3, ticking: false };
    assert!(claim_ticker(&mut ticks));
    assert!(is_ticking(&ticks));
    assert!(!claim_ticker(&mut ticks));
    assert!(is_ticking(&ticks));
    set_ticking(&mut ticks, false);
    assert!(claim_ticker(&mut ticks));
    assert_eq!(get_tick(&ticks), 3);
}

#[test]
fn tickers_slow_down_and_stop() {
    let mut ticks = Ticks { count: 0, ticking: true };
    let mut cooldown = FIRST_COOLDOWN;
    assert!(ticker_step(&mut ticks, &mut cooldown, 1));
    assert_eq!(cooldown, FIRST_COOLDOWN + BACKOFF);
    assert_eq!(ticks.count, 1);
    for _ in 0..200 {
        assert!(ticker_step(&mut ticks, &mut cooldown, 1));
        assert!(cooldown <= LAST_COOLDOWN);
    }
    assert_eq!(cooldown, 1000);
    let count = ticks.count;
    assert!(!ticker_step(&mut ticks, &mut cooldown, 0));
    assert!(!ticks.ticking);
    assert_eq!(ticks.count, count);
}

#[test]
fn threads_are_numbered() {
    assert_eq!(thread_name(0), "hunter_iothread_0");
    assert_eq!(thread_name(1207), "hunter_iothread_1207");
    assert_eq!(THREAD_NUM, 8);
}
