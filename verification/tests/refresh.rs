use async_value::Stale;
use hunter_files::fail::HError;
use hunter_files::file::File;
use hunter_files::files::Files;
use hunter_files::fscache::{FsCache, Meta};
use hunter_files::refresh::{FsEvent, Refresh, RefreshPackage, RefreshRun};
use hunter_files::stale::FlagRecord;
use std::path::PathBuf;

fn file(name: &str) -> File {
    File::new(name, PathBuf::from(format!("/d/{}", name)), false)
}

fn listing(names: &[&str]) -> Files {
    let mut files = Files::default();
    files.directory = File::new("d", PathBuf::from("/d"), true);
    files.files = names.iter().map(|name| file(name)).collect();
    files.recalculate_len();
    files.has_cache = true;
    files.stale = Some(Stale::new());
    files
}

fn names(package: &RefreshPackage) -> Vec<String> {
    package.new_files.as_ref().unwrap().iter().map(|f| f.name.clone()).collect()
}

fn refreshed(names: &[&str], events: Vec<FsEvent>) -> RefreshPackage {
    RefreshPackage::new(listing(names), events, &mut FsCache::default(), &mut FlagRecord::new())
}

#[test]
fn nothing_changes_without_changes() {
    let package = refreshed(&["b", "a", ".c"], vec![]);
    assert_eq!(names(&package), [".c", "a", "b"]);
    assert_eq!(package.new_len, 2);
    assert!(package.jobs.is_empty());
}

#[test]
fn created_files_come_in_with_a_job() {
    let package = refreshed(&["a", "c"], vec![FsEvent::Create(file("b"))]);
    assert_eq!(names(&package), ["a", "b", "c"]);
    assert_eq!(package.new_len, 3);
    assert_eq!(package.jobs.len(), 1);
    assert_eq!(package.jobs[0].0, PathBuf::from("/d/b"));
    let created = &package.new_files.as_ref().unwrap()[1];
    assert_eq!(created.meta, package.jobs[0].1);
    assert!(created.meta.is_some());
}

#[test]
fn removed_files_go_and_others_stay() {
    let package = refreshed(
        &["a", "b", "c"],
        vec![FsEvent::Remove(file("b")), FsEvent::Remove(file("unknown"))],
    );
    assert_eq!(names(&package), ["a", "c"]);
    assert_eq!(package.new_len, 2);
}

#[test]
fn a_file_that_was_removed_and_created_is_there() {
    let package = refreshed(
        &["a"],
        vec![FsEvent::Remove(file("a")), FsEvent::Create(file("a"))],
    );
    assert_eq!(names(&package), ["a"]);
    assert_eq!(package.new_len, 1);
}

#[test]
fn renamed_files_move_and_are_fetched_again() {
    let package = refreshed(
        &["a", "b"],
        vec![FsEvent::Rename(file("a"), file("z"))],
    );
    assert_eq!(names(&package), ["b", "z"]);
    assert_eq!(package.new_files.as_ref().unwrap()[1].path, PathBuf::from("/d/z"));
    assert_eq!(package.jobs.len(), 1);
    assert_eq!(package.jobs[0].0, PathBuf::from("/d/z"));
}

#[test]
fn files_renamed_to_a_hidden_name_count_no_more() {
    let package = refreshed(
        &["a", "b"],
        vec![FsEvent::Rename(file("a"), file(".a"))],
    );
    assert_eq!(names(&package), [".a", "b"]);
    assert_eq!(package.new_len, 1);
    let package = refreshed(
        &[".a", "b"],
        vec![FsEvent::Rename(file(".a"), file("a"))],
    );
    assert_eq!(package.new_len, 2);
}

#[test]
fn changes_of_unknown_files_alter_nothing() {
    let plain = refreshed(&["a", "b"], vec![FsEvent::Remove(file("a"))]);
    let noisy = refreshed(
        &["a", "b"],
        vec![
            FsEvent::Change(file("x")),
            FsEvent::Remove(file("a")),
            FsEvent::Rename(file("x"), file("y")),
            FsEvent::Remove(file("x")),
        ],
    );
    assert!(plain == noisy);
    assert_eq!(names(&noisy), ["b"]);
    assert_eq!(noisy.jobs, plain.jobs);
}

#[test]
fn jobs_come_in_the_order_of_the_changes() {
    let package = refreshed(
        &["a", "b", "c"],
        vec![
            FsEvent::Rename(file("b"), file("z")),
            FsEvent::Create(file("n")),
            FsEvent::Remove(file("c")),
            FsEvent::Change(file("a")),
        ],
    );
    let paths: Vec<PathBuf> = package.jobs.iter().map(|job| job.0.clone()).collect();
    assert_eq!(
        paths,
        [PathBuf::from("/d/z"), PathBuf::from("/d/n"), PathBuf::from("/d/a")]
    );
    assert!(package.jobs.iter().all(|job| job.1.is_some()));
}

#[test]
fn it_is_asked_before_each_change_and_at_the_end() {
    let mut record = FlagRecord::new();
    let events = vec![FsEvent::Create(file("b")), FsEvent::Create(file("c"))];
    let package =
        RefreshPackage::new(listing(&["a"]), events, &mut FsCache::default(), &mut record);
    assert_eq!(record.as_slice(), [false, false, false]);
    assert_eq!(names(&package), ["a", "b", "c"]);
}

#[test]
fn answers_are_kept_in_order() {
    let stale = Stale::new();
    let mut record = FlagRecord::new();
    assert!(!record.ask(&stale));
    stale.set_stale().unwrap();
    assert!(record.ask(&stale));
    stale.set_fresh().unwrap();
    assert!(!record.ask(&stale));
    assert_eq!(record.as_slice(), [false, true, false]);
}

#[test]
fn renaming_to_nothing_keeps_the_name() {
    let mut after = file("x");
    after.path = PathBuf::from("/d/..");
    let package = refreshed(&["a"], vec![FsEvent::Rename(file("a"), after)]);
    assert_eq!(names(&package), ["a"]);
    assert_eq!(package.jobs[0].0, PathBuf::from("/d/a"));
}

#[test]
fn files_are_found_by_what_they_were_at_first() {
    let package = refreshed(
        &["a"],
        vec![
            FsEvent::Rename(file("a"), file("b")),
            FsEvent::Rename(file("b"), file("c")),
            FsEvent::Rename(file("a"), file("d")),
        ],
    );
    assert_eq!(names(&package), ["d"]);
    assert_eq!(package.jobs.len(), 2);
}

#[test]
fn changed_files_lose_their_metadata() {
    let mut cache = FsCache::default();
    let mut files = listing(&["a", "b"]);
    files.enqueue_jobs(2, &mut cache);
    let slot = files.files[1].meta.unwrap();
    cache.set_meta(slot, Some(Meta { size: 1, mtime: 0, mode: 0, uid: 0, gid: 0 }));
    let events = vec![FsEvent::Change(file("b")), FsEvent::Change(file("unknown"))];
    let package = RefreshPackage::new(files, events, &mut cache, &mut FlagRecord::new());
    assert_eq!(package.jobs, [(PathBuf::from("/d/b"), Some(slot), None)]);
    assert!(cache.meta_at(slot).is_none());
}

#[test]
fn an_entry_must_agree_in_name_and_path() {
    let mut other = file("a");
    other.name = "b".to_string();
    let package = refreshed(&["a"], vec![FsEvent::Remove(other)]);
    assert_eq!(names(&package), ["a"]);
}

#[test]
fn the_last_removal_leaves_a_placeholder() {
    let package = refreshed(&["a"], vec![FsEvent::Remove(file("a"))]);
    assert_eq!(names(&package), ["<empty>"]);
    assert_eq!(package.new_len, 1);
    let package = refreshed(&[".h"], vec![]);
    assert_eq!(names(&package), [".h", "<empty>"]);
    assert_eq!(package.new_len, 1);
}

#[test]
fn a_lone_placeholder_goes_when_a_file_comes() {
    let mut files = listing(&[]);
    files.set_filter(None);
    assert_eq!(files.len(), 1);
    let events = vec![FsEvent::Create(file("a"))];
    let package = RefreshPackage::new(files, events, &mut FsCache::default(), &mut FlagRecord::new());
    assert_eq!(names(&package), ["a"]);
    assert_eq!(package.new_len, 1);
}

#[test]
fn a_refresh_that_is_called_off_takes_nothing_in() {
    let files = listing(&["a"]);
    files.stale.as_ref().unwrap().set_stale().unwrap();
    let events = vec![FsEvent::Create(file("b"))];
    let mut record = FlagRecord::new();
    let package = RefreshPackage::new(files, events, &mut FsCache::default(), &mut record);
    assert_eq!(record.as_slice(), [true, true]);
    assert!(package.new_files.is_none());
    assert_eq!(package.new_len, 0);
    assert!(package.jobs.is_empty());
}

#[test]
fn a_run_that_is_called_off_keeps_its_jobs() {
    let mut cache = FsCache::default();
    let mut run = RefreshRun::start(listing(&["a"]));
    run.apply(FsEvent::Create(file("b")), &mut cache);
    let package = run.finish(true, &cache);
    assert!(package.new_files.is_none());
    assert_eq!(package.jobs.len(), 1);
}

#[test]
fn batches_are_as_good_as_one() {
    let mut cache = FsCache::default();
    let mut run = RefreshRun::start(listing(&["a", "b"]));
    run.apply(FsEvent::Create(file("c")), &mut cache);
    run.apply(FsEvent::Remove(file("a")), &mut cache);
    let stepwise = run.finish(false, &cache);
    let at_once = refreshed(
        &["a", "b"],
        vec![FsEvent::Create(file("c")), FsEvent::Remove(file("a"))],
    );
    assert_eq!(names(&stepwise), ["b", "c"]);
    assert!(stepwise == at_once);
}

#[test]
fn pending_events_are_handed_out_once() {
    let mut files = listing(&["a"]);
    let mut pending: Vec<FsEvent> = vec![];
    assert!(matches!(files.ready_to_refresh(&pending), Ok(false)));
    assert!(files.process_fs_events(&mut pending).is_none());
    pending.push(FsEvent::Create(file("b")));
    assert!(matches!(files.ready_to_refresh(&pending), Ok(true)));
    let twin = files.clone();
    let (copy, events) = files.process_fs_events(&mut pending).unwrap();
    assert_eq!(events.len(), 1);
    assert!(copy == files && !copy.refresh);
    assert!(pending.is_empty() && files.refresh);
    // Copies share what is pending, so nothing is left for them.
    assert!(matches!(twin.ready_to_refresh(&pending), Ok(false)));
    pending.push(FsEvent::Create(file("c")));
    assert!(matches!(files.ready_to_refresh(&pending), Ok(false)));
    assert!(matches!(twin.ready_to_refresh(&pending), Ok(true)));
}

#[test]
fn finished_refreshes_are_taken_in_once() {
    let mut files = listing(&["a"]);
    files.stale.as_ref().unwrap().set_stale().unwrap();
    files.refresh = true;
    let mut twin = files.clone();
    let mut progress = Refresh::Ready(RefreshPackage {
        new_files: Some(vec![file("x"), file("y")]),
        new_len: 2,
        jobs: vec![(PathBuf::from("/d/y"), None, None)],
    });
    let mut record = FlagRecord::new();
    assert!(progress.is_ready());
    let rest = files.get_refresh(&mut progress, &mut record).unwrap().unwrap();
    assert!(rest.new_files.is_none() && rest.jobs.is_empty());
    assert_eq!(rest.new_len, 2);
    assert_eq!(files.len(), 2);
    assert_eq!(files.jobs.len(), 1);
    assert!(!files.refresh);
    // The flag is cleared, so that the next refresh is wanted again.
    assert!(!files.stale.as_ref().unwrap().is_stale().unwrap());
    assert!(matches!(files.get_refresh(&mut progress, &mut record), Ok(None)));
    // A copy finds the result taken.
    assert!(matches!(progress, Refresh::Taken));
    assert!(matches!(twin.get_refresh(&mut progress, &mut record), Ok(None)));
    assert!(twin.refresh && twin.len() == 1);
}

#[test]
fn running_and_failed_refreshes_stay() {
    let mut files = listing(&["a"]);
    files.stale.as_ref().unwrap().set_stale().unwrap();
    files.refresh = true;
    let mut record = FlagRecord::new();
    let mut running = Refresh::Running;
    assert!(matches!(files.get_refresh(&mut running, &mut record), Ok(None)));
    assert!(matches!(running, Refresh::Running));
    let mut failed = Refresh::Failed;
    assert!(matches!(files.get_refresh(&mut failed, &mut record), Ok(None)));
    assert!(matches!(failed, Refresh::Failed));
    assert!(files.refresh);
    assert!(files.stale.as_ref().unwrap().is_stale().unwrap());
}

#[test]
fn a_package_without_files_is_an_error() {
    let mut files = listing(&["a"]);
    files.refresh = true;
    let mut progress = Refresh::Ready(RefreshPackage {
        new_files: None,
        new_len: 0,
        jobs: vec![],
    });
    let res = files.get_refresh(&mut progress, &mut FlagRecord::new());
    assert!(matches!(res, Err(HError::NoneError)));
    assert!(!files.refresh);
    assert_eq!(files.len(), 1);
}

#[test]
fn packages_are_equal_by_files_and_count() {
    let a = refreshed(&["a"], vec![]);
    let mut b = a.clone();
    assert!(a == b);
    b.jobs.push((PathBuf::from("/x"), None, None));
    assert!(a == b);
    b.new_len = 7;
    assert!(a != b);
    let mut c = a.clone();
    c.new_files = None;
    assert!(a != c);
}
