use hunter_files::fail::{FileError, HError};
use hunter_files::file::{DirEntry, EntryType, File, Kind};
use std::path::PathBuf;

fn entry(name: &str, file_type: Option<EntryType>) -> DirEntry {
    DirEntry { name: PathBuf::from(name), file_type }
}

#[test]
fn new_file_is_hidden_by_its_first_dot() {
    let dotted = File::new(".profile", PathBuf::from("/home/me/.profile"), false);
    assert!(dotted.hidden);
    assert_eq!(dotted.kind, Kind::File);
    let plain = File::new("a.profile", PathBuf::from("/home/me/a.profile"), true);
    assert!(!plain.hidden);
    assert_eq!(plain.kind, Kind::Directory);
    assert!(plain.meta.is_none() && plain.dirsize.is_none() && plain.target.is_none());
    assert!(!plain.selected && plain.tag.is_none());
    let nameless = File::new("", PathBuf::from("/"), true);
    assert!(!nameless.hidden);
}

#[test]
fn listed_entries_get_the_path_of_their_directory() {
    let dir = PathBuf::from("/usr/lib");
    let file = File::new_from_nixentry(&entry("ld.so", Some(EntryType::Symlink)), &dir);
    assert_eq!(file.name, "ld.so");
    assert_eq!(file.path.to_str(), Some("/usr/lib/ld.so"));
    assert_eq!(file.kind, Kind::File);
    let sub = File::new_from_nixentry(&entry(".git", Some(EntryType::Directory)), &dir);
    assert!(sub.hidden && sub.kind == Kind::Directory);
    let unknown = File::new_from_nixentry(&entry("x", None), &dir);
    assert_eq!(unknown.kind, Kind::Placeholder);
    let root = File::new_from_nixentry(&entry("etc", Some(EntryType::Directory)), &PathBuf::from("/"));
    assert_eq!(root.path.to_str(), Some("//etc"));
}

#[test]
fn files_are_named_by_the_last_component() {
    let file = File::new_from_path(&PathBuf::from("/home/me/notes.txt"), false).unwrap();
    assert_eq!(file.name, "notes.txt");
    let slashed = File::new_from_path(&PathBuf::from("/home/me/"), true).unwrap();
    assert_eq!(slashed.name, "me");
    let root = File::new_from_path(&PathBuf::from("/"), true).unwrap();
    assert_eq!(root.name, "/");
    let up = File::new_from_path(&PathBuf::from("a/.."), true).unwrap();
    assert_eq!(up.name, "/");
}

#[test]
fn placeholders_keep_the_path_and_hiddenness_of_the_directory() {
    let file = File::new_placeholder(&PathBuf::from("/home/me/.config")).unwrap();
    assert_eq!(file.name, "<empty>");
    assert_eq!(file.kind, Kind::Placeholder);
    assert!(file.hidden);
    assert_eq!(file.path, PathBuf::from("/home/me/.config"));
    let default = File::default();
    assert_eq!(default.path, PathBuf::from(""));
    assert_eq!(default.name, "<empty>");
    assert!(!default.hidden);
}

#[test]
fn renaming_takes_name_path_and_hiddenness() {
    let mut file = File::new("a", PathBuf::from("/tmp/a"), false);
    assert!(file.rename(&PathBuf::from("/tmp/.b")).is_ok());
    assert_eq!(file.name, ".b");
    assert_eq!(file.path, PathBuf::from("/tmp/.b"));
    assert!(file.hidden);
    assert!(file.rename(&PathBuf::from("/tmp/ä")).is_ok());
    assert_eq!(file.name, "ä");
    assert!(!file.hidden);
}

#[test]
fn renaming_to_a_nameless_path_is_refused() {
    let mut file = File::new("a", PathBuf::from("/tmp/a"), false);
    assert!(matches!(file.rename(&PathBuf::from("/tmp/..")), Err(HError::NoneError)));
    assert_eq!(file.name, "a");
    assert_eq!(file.path, PathBuf::from("/tmp/a"));
}

#[test]
fn equality_of_files_is_that_of_their_paths() {
    let a = File::new("a", PathBuf::from("/tmp//x/./y/"), false);
    let b = File::new("b", PathBuf::from("/tmp/x/y"), true);
    let c = File::new("a", PathBuf::from("/tmp/x/z"), false);
    assert!(a == a && a == b && b == a);
    assert!(a != c);
    let copy = a.clone();
    assert!(copy == b && copy.name == "a" && copy.path.to_str() == Some("/tmp//x/./y/"));
}

#[test]
fn parents_lose_one_component_each() {
    let file = File::new("c", PathBuf::from("/a/b/c"), false);
    assert_eq!(file.parent(), Some(PathBuf::from("/a/b")));
    assert_eq!(file.grand_parent(), Some(PathBuf::from("/a")));
    let parent = file.parent_as_file(true).unwrap();
    assert_eq!(parent.name, "b");
    assert!(parent.is_dir());
    let grand = file.grand_parent_as_file(false).unwrap();
    assert_eq!(grand.name, "a");
    assert!(!grand.is_dir());
}

#[test]
fn the_root_has_no_parent() {
    let root = File::new("/", PathBuf::from("/"), true);
    assert_eq!(root.parent(), None);
    assert!(matches!(root.parent_as_file(true), Err(HError::NoneError)));
    let below = File::new("a", PathBuf::from("/a"), true);
    assert_eq!(below.grand_parent(), None);
    assert!(matches!(below.grand_parent_as_file(true), Err(HError::NoneError)));
    let relative = File::new("a", PathBuf::from("a"), true);
    assert_eq!(relative.parent(), Some(PathBuf::from("")));
}

#[test]
fn strip_prefix_is_relative_to_the_base() {
    let file = File::new("c", PathBuf::from("/a/b/c"), false);
    let base = File::new("a", PathBuf::from("/a"), true);
    let other = File::new("x", PathBuf::from("/x"), true);
    assert_eq!(file.strip_prefix(&base).to_str(), Some("b/c"));
    assert_eq!(file.strip_prefix(&file).to_str(), Some("./"));
    assert_eq!(file.strip_prefix(&other).to_str(), Some("/a/b/c"));
}

#[test]
fn selection_toggles() {
    let mut file = File::new("a", PathBuf::from("/a"), false);
    file.toggle_selection();
    assert!(file.is_selected());
    file.toggle_selection();
    assert!(!file.is_selected());
    assert_eq!(file.path(), PathBuf::from("/a"));
}

#[test]
fn file_errors_read_as_sentences() {
    assert_eq!(FileError::MetaPending.message(), "Metadata still pending!");
    assert_eq!(
        FileError::OpenDir("ENOENT".to_string()).message(),
        "Couldn't open directory! Error: ENOENT"
    );
    assert_eq!(
        FileError::ReadFiles("EIO".to_string()).message(),
        "Couldn't read files! Error: EIO"
    );
}
