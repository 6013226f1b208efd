use async_value::Stale;
use hunter_files::dirty::{DirtyBit, Dirtyable};
use hunter_files::fail::{FileError, HError};
use hunter_files::file::{DirEntry, EntryType, File, Kind};
use hunter_files::files::Files;
use hunter_files::order::SortBy;
use hunter_files::stale::FlagRecord;
use std::path::PathBuf;

fn entry(name: &str, file_type: Option<EntryType>) -> DirEntry {
    DirEntry { name: PathBuf::from(name), file_type }
}

fn file(name: &str) -> File {
    File::new(name, PathBuf::from(format!("/d/{}", name)), false)
}

fn listing(names: &[&str]) -> Files {
    let mut files = Files::default();
    files.directory = File::new("d", PathBuf::from("/d"), true);
    files.files = names.iter().map(|name| file(name)).collect();
    files.recalculate_len();
    files
}

fn names(files: &[&File]) -> Vec<String> {
    files.iter().map(|f| f.name.clone()).collect()
}

fn owned_names(files: &[File]) -> Vec<String> {
    files.iter().map(|f| f.name.clone()).collect()
}

#[test]
fn a_default_listing_is_empty() {
    let files = Files::default();
    assert_eq!(files.len(), 0);
    assert!(files.files.is_empty() && files.jobs.is_empty());
    assert_eq!(files.directory.name, "<empty>");
    assert_eq!(files.directory.path, PathBuf::from(""));
    assert_eq!(files.sort, SortBy::Name);
    assert!(files.dirs_first && !files.reverse && !files.show_hidden);
    assert!(!files.is_dirty());
    assert!(files.stale.is_none() && !files.refresh);
}

#[test]
fn a_listing_counts_what_has_no_dot() {
    let entries = vec![
        entry("a", Some(EntryType::File)),
        entry(".b", Some(EntryType::File)),
        entry("sub", Some(EntryType::Directory)),
        entry("..", Some(EntryType::Directory)),
    ];
    let files = Files::from_listing(&PathBuf::from("/d"), true, &entries, Stale::new());
    assert_eq!(files.len(), 2);
    assert_eq!(files.files.len(), 4);
    assert_eq!(files.directory.name, "d");
    assert!(files.directory.is_dir());
    assert_eq!(files.files[2].path, PathBuf::from("/d/sub"));
    assert_eq!(names(&files.iter_files()), ["a", "sub"]);
    assert!(files.stale.is_some() && !files.has_cache);
}

#[test]
fn reading_gives_a_listing_while_it_is_wanted() {
    let path = PathBuf::from("/d");
    let entries = Ok(vec![entry("a", None)]);
    let mut record = FlagRecord::new();
    let files =
        Files::new_from_path_cancellable(&path, true, entries, Stale::new(), &mut record).unwrap();
    assert_eq!(record.as_slice(), [false]);
    assert_eq!(files.files[0].kind, Kind::Placeholder);
    assert_eq!(files.len(), 1);
}

#[test]
fn reading_that_is_called_off_is_an_error() {
    let stale = Stale::new();
    stale.set_stale().unwrap();
    let entries = Ok(vec![entry("a", None)]);
    let path = PathBuf::from("/d");
    let mut record = FlagRecord::new();
    let res = Files::new_from_path_cancellable(&path, true, entries, stale, &mut record);
    assert_eq!(record.as_slice(), [true]);
    assert!(matches!(res, Err(HError::StaleError)));
}

#[test]
fn a_listing_comes_unless_it_is_called_off() {
    let path = PathBuf::from("/d");
    let lines = vec![entry("a", Some(EntryType::File)), entry(".b", Some(EntryType::File))];
    let files = Files::listing_unless(false, &path, true, &lines, Stale::new()).unwrap();
    assert_eq!(files.len(), 1);
    assert_eq!(files.files.len(), 2);
    let none = Files::listing_unless(true, &path, true, &lines, Stale::new());
    assert!(matches!(none, Err(HError::StaleError)));
}

#[test]
fn reading_that_fails_hands_on_the_error() {
    let path = PathBuf::from("/d");
    let mut record = FlagRecord::new();
    let open = Files::new_from_path_cancellable(
        &path,
        true,
        Err(FileError::OpenDir("ENOENT".to_string())),
        Stale::new(),
        &mut record,
    );
    assert!(matches!(open, Err(HError::FileError(FileError::OpenDir(e))) if e == "ENOENT"));
    let read = Files::new_from_path_cancellable(
        &path,
        true,
        Err(FileError::ReadFiles("EIO".to_string())),
        Stale::new(),
        &mut record,
    );
    assert!(record.as_slice().is_empty());
    assert!(matches!(read, Err(HError::FileError(FileError::ReadFiles(e))) if e == "EIO"));
    let error = FileError::OpenDir("ENOENT".to_string());
    assert_eq!(error.clone().message(), error.message());
}

#[test]
fn filters_go_by_name_selection_and_hiddenness() {
    let mut files = listing(&["abc", "bcd", ".bc"]);
    files.filter = Some("bc".to_string());
    assert_eq!(names(&files.iter_files()), ["abc", "bcd"]);
    assert_eq!(names(&files.par_iter_files()), ["abc", "bcd"]);
    files.show_hidden = true;
    assert_eq!(names(&files.iter_files()), ["abc", "bcd", ".bc"]);
    files.filter = Some("cd".to_string());
    assert_eq!(names(&files.iter_files()), ["bcd"]);
    files.filter = None;
    files.files[0].selected = true;
    files.toggle_filter_selected();
    assert_eq!(names(&files.iter_files()), ["abc"]);
    files.toggle_filter_selected();
    assert_eq!(files.iter_files().len(), 3);
}

#[test]
fn positions_are_those_of_the_shown_files() {
    let files = listing(&[".a", "b", ".c", "d"]);
    assert_eq!(files.iter_files_mut(), [1, 3]);
    assert_eq!(files.par_iter_files_mut(), [1, 3]);
    assert_eq!(names(&files.iter_files()), ["b", "d"]);
    assert_eq!(files[2].name, ".c");
}

#[test]
fn only_shown_files_can_be_reached_by_position() {
    let mut files = listing(&[".a", "b"]);
    assert!(files.get_file_mut(0).is_none());
    assert!(files.get_file_mut(2).is_none());
    files.get_file_mut(1).unwrap().toggle_selection();
    assert!(files.files[1].selected);
    assert_eq!(names(&files.get_selected()), ["b"]);
}

#[test]
fn selected_files_must_be_shown() {
    let mut files = listing(&[".a", "b", "c"]);
    for file in files.files.iter_mut() {
        file.selected = true;
    }
    assert_eq!(names(&files.get_selected()), ["b", "c"]);
}

#[test]
fn handing_out_goes_by_the_name_not_the_mark() {
    let mut files = listing(&["a", ".b", "c"]);
    files.files[0].hidden = true;
    files.files[1].hidden = false;
    assert_eq!(names(&files.iter_files()), [".b", "c"]);
    let copy = files.clone();
    assert_eq!(owned_names(&copy.into_iter_files()), ["a", "c"]);
    assert_eq!(owned_names(&files.take_into_iter_files()), ["a", "c"]);
    assert!(files.files.is_empty());
}

#[test]
fn handing_out_gives_what_is_shown_where_mark_and_name_agree() {
    let mut files = listing(&["a", ".b", "c"]);
    files.filter = Some("c".to_string());
    let shown = names(&files.iter_files());
    assert_eq!(owned_names(&files.take_into_iter_files()), shown);
}

#[test]
fn files_are_found_by_lower_case_name() {
    let files = listing(&[".readme", "README.md", "readme.txt", "Straße"]);
    assert_eq!(files.find_file_with_name("readme").unwrap().name, "README.md");
    assert_eq!(files.find_file_with_name(".txt").unwrap().name, "readme.txt");
    assert_eq!(files.find_file_with_name("straße").unwrap().name, "Straße");
    assert!(files.find_file_with_name("README").is_none());
    assert!(files.find_file_with_name(".readme").is_none());
}

#[test]
fn files_are_found_by_path() {
    let mut files = listing(&["a", "b", ".c"]);
    files.find_file_with_path(&PathBuf::from("/d//b/")).unwrap().tag = Some(true);
    assert_eq!(files.files[1].tag, Some(true));
    assert!(files.find_file_with_path(&PathBuf::from("/d/.c")).is_none());
    assert!(files.find_file_with_path(&PathBuf::from("/d")).is_none());
}

#[test]
fn toggling_hidden_counts_anew() {
    let mut files = listing(&["a", ".b", "c"]);
    files.meta_upto = Some(7);
    assert_eq!(files.len(), 2);
    files.toggle_hidden();
    assert_eq!(files.len(), 3);
    assert!(files.is_dirty() && files.show_hidden);
    assert_eq!(files.meta_upto, None);
    files.toggle_hidden();
    assert_eq!(files.len(), 2);
    assert_eq!(files.files.len(), 3);
}

#[test]
fn toggling_hidden_drops_a_placeholder_beside_others() {
    let mut files = listing(&["a", ".b"]);
    files.files.push(File::new_placeholder(&PathBuf::from("/d")).unwrap());
    files.recalculate_len();
    assert_eq!(files.len(), 2);
    files.toggle_hidden();
    assert_eq!(owned_names(&files.files), ["a", ".b"]);
    assert_eq!(files.len(), 2);
}

#[test]
fn toggling_hidden_keeps_a_lone_placeholder() {
    let mut files = listing(&[".b"]);
    files.files.push(File::new_placeholder(&PathBuf::from("/d")).unwrap());
    files.recalculate_len();
    files.meta_upto = Some(3);
    files.toggle_hidden();
    assert_eq!(owned_names(&files.files), [".b", "<empty>"]);
    assert_eq!(files.len(), 2);
    assert_eq!(files.meta_upto, Some(3));
}

#[test]
fn a_filter_drops_the_old_placeholder() {
    let mut files = listing(&["a"]);
    files.files.push(File::new_placeholder(&PathBuf::from("/d")).unwrap());
    files.recalculate_len();
    files.set_filter(Some("a".to_string()));
    assert_eq!(owned_names(&files.files), ["a"]);
    assert_eq!(files.len(), 1);
    assert_eq!(files.get_filter(), Some("a".to_string()));
    assert!(files.is_dirty());
}

#[test]
fn a_filter_puts_a_placeholder_where_nothing_counts() {
    let mut files = listing(&[]);
    files.set_filter(Some("x".to_string()));
    assert_eq!(owned_names(&files.files), ["<empty>"]);
    assert_eq!(files.len(), 1);
    assert_eq!(names(&files.iter_files()), ["<empty>"]);
    files.set_filter(None);
    assert_eq!(files.files.len(), 1);
    assert_eq!(files.len(), 1);
    assert_eq!(files.get_filter(), None);
}

#[test]
fn placeholders_of_hidden_directories_are_hidden() {
    let mut files = Files::default();
    files.directory = File::new(".d", PathBuf::from("/.d"), true);
    files.set_filter(None);
    assert_eq!(files.len(), 1);
    assert!(files.iter_files().is_empty());
    files.show_hidden = true;
    assert_eq!(names(&files.iter_files()), ["<empty>"]);
}

#[test]
fn paths_lie_in_their_parent() {
    let files = listing(&[]);
    assert!(matches!(files.path_in_here(&PathBuf::from("/d/x"), false), Ok(true)));
    assert!(matches!(files.path_in_here(&PathBuf::from("/d/"), true), Ok(true)));
    assert!(matches!(
        files.path_in_here(&PathBuf::from("/d/x"), true),
        Err(HError::WrongDirectoryError { path, dir })
            if path == PathBuf::from("/d/x") && dir == PathBuf::from("/d")
    ));
    assert!(matches!(
        files.try_path_in_here(&PathBuf::from("/e/x"), false),
        Some(Err(HError::WrongDirectoryError { path, dir }))
            if path == PathBuf::from("/e") && dir == PathBuf::from("/d")
    ));
    assert!(files.try_path_in_here(&PathBuf::from("/"), false).is_none());
    assert!(matches!(
        files.try_path_in_here(&PathBuf::from("/d"), true),
        Some(Ok(true))
    ));
}

#[test]
fn turning_round_twice_changes_nothing() {
    let mut files = listing(&["a"]);
    files.reverse_sort();
    assert!(files.reverse);
    files.reverse_sort();
    assert!(!files.reverse);
}

#[test]
fn dirt_can_be_cleaned() {
    let mut files = listing(&["a"]);
    files.set_dirty();
    assert!(files.is_dirty());
    files.set_clean();
    assert!(!files.is_dirty());
    let mut bit = DirtyBit::new();
    assert!(!bit.is_dirty());
    bit.set_dirty();
    assert!(bit.is_dirty());
}

#[test]
fn equal_listings_show_the_same() {
    let a = listing(&["a", "b"]);
    let mut b = a.clone();
    assert!(a == b && b == a);
    b.jobs.push((PathBuf::from("/x"), None, None));
    b.files[0].name = "other".to_string();
    assert!(a == b);
    b.files[0].path = PathBuf::from("/d//a");
    assert!(a == b);
    b.files[0].path = PathBuf::from("/d/z");
    assert!(a != b);
    let mut c = a.clone();
    c.filter = Some(String::new());
    assert!(a != c);
    let mut d = a.clone();
    d.files.pop();
    assert!(a != d);
    let mut e = a.clone();
    e.set_dirty();
    assert!(a != e);
}
