use async_value::Stale;
use hunter_files::display::{Names, Palette};
use hunter_files::file::{DirEntry, EntryType, File};
use hunter_files::files::Files;
use hunter_files::fscache::{FsCache, Meta};
use std::path::PathBuf;

#[test]
fn bytes_that_are_no_text_are_replaced_in_names() {
    let mut cache = FsCache::default();
    let mut file = File::new("f", PathBuf::from("/f"), false);
    file.prepare_meta_job(&mut cache);
    let meta = Meta { size: 0, mtime: 0, mode: 0o040, uid: 0, gid: 0 };
    cache.set_meta(file.meta.unwrap(), Some(meta));
    // Two different names that read the same count as one for the permissions,
    // but not for the colour.
    let names = Names {
        current_user: Some(vec![0xff]),
        current_group: Some(vec![0xfe]),
        file_user: Some(vec![0xfd]),
        file_group: Some(vec![0xfc]),
    };
    assert!(file.is_readable(&cache, &names).unwrap());
    let palette = Palette {
        green: "G".to_string(),
        yellow: String::new(),
        red: "R".to_string(),
        highlight: String::new(),
    };
    assert_eq!(
        file.pretty_group(&cache, &names, &palette),
        Some("R\u{fffd}".to_string())
    );
}

#[test]
fn paths_are_compared_by_component() {
    let same = |a: &str, b: &str| {
        File::new("x", PathBuf::from(a), false) == File::new("x", PathBuf::from(b), false)
    };
    assert!(same("a/./b", "a//b/") && same("/a/.", "/a") && same("//a", "/a"));
    assert!(same(".//a", "./a") && same("./", ".") && same("/.", "/"));
    assert!(!same("./a", "a") && !same("/a", "a") && !same("a/..", ""));
    assert!(!same(".", "") && !same("...", "..") && !same("a/b", "ab"));
}

#[test]
fn listed_paths_are_not_tidied() {
    let entries = vec![DirEntry {
        name: PathBuf::from("x"),
        file_type: Some(EntryType::Socket),
    }];
    let files = Files::from_listing(&PathBuf::from("/d/"), true, &entries, Stale::new());
    assert_eq!(files.files[0].path.to_str(), Some("/d//x"));
    assert!(files.files[0].path == PathBuf::from("/d/x"));
    assert_eq!(files.directory.name, "d");
}

#[test]
fn extensions_stand_behind_the_last_dot() {
    let guess = |path: &str| File::new("f", PathBuf::from(path), false).guess_mime();
    assert_eq!(guess("/a/b.tar.png"), Some("image/png".to_string()));
    assert_eq!(guess("/a/png"), None);
    assert_eq!(guess("/a.png/b"), None);
    assert_eq!(guess("/a/b.no-such-extension"), None);
    assert_eq!(guess("/a/b.txt/"), Some("text/plain".to_string()));
}

#[test]
fn a_prefix_is_made_of_whole_components() {
    let base = File::new("ab", PathBuf::from("/ab"), true);
    let file = File::new("c", PathBuf::from("/abc"), false);
    assert_eq!(file.strip_prefix(&base).to_str(), Some("/abc"));
    let below = File::new("d", PathBuf::from("/ab//c/./d"), false);
    assert_eq!(below.strip_prefix(&base).to_str(), Some("c/./d"));
}
