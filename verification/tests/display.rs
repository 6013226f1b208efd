use hunter_files::display::{Names, Palette};
use hunter_files::fail::{FileError, HError, MimeError};
use hunter_files::file::File;
use hunter_files::fscache::{FsCache, Meta};
use pathbuftools::PathBufTools;
use std::path::PathBuf;

fn meta(size: u64, mode: u32) -> Meta {
    Meta { size, mtime: 0, mode, uid: 0, gid: 0 }
}

fn with_meta(meta: Meta) -> (File, FsCache) {
    let mut cache = FsCache::default();
    let mut file = File::new("f", PathBuf::from("/f"), false);
    file.prepare_meta_job(&mut cache);
    let slot = file.meta.unwrap();
    cache.set_meta(slot, Some(meta));
    (file, cache)
}

fn palette() -> Palette {
    Palette {
        green: "G".to_string(),
        yellow: "Y".to_string(),
        red: "R".to_string(),
        highlight: "H".to_string(),
    }
}

fn plain() -> Palette {
    Palette {
        green: String::new(),
        yellow: String::new(),
        red: String::new(),
        highlight: String::new(),
    }
}

fn names(cur_user: &str, cur_group: &str, user: &str, group: &str) -> Names {
    Names {
        current_user: Some(cur_user.as_bytes().to_vec()),
        current_group: Some(cur_group.as_bytes().to_vec()),
        file_user: Some(user.as_bytes().to_vec()),
        file_group: Some(group.as_bytes().to_vec()),
    }
}

fn size_of(size: u64) -> (usize, &'static str) {
    let (file, cache) = with_meta(meta(size, 0));
    file.calculate_size(&cache).unwrap()
}

fn perms_of(mode: u32) -> String {
    let (file, cache) = with_meta(meta(0, mode));
    file.pretty_print_permissions(&cache, &plain()).unwrap()
}

#[test]
fn sizes_come_in_units() {
    assert_eq!(size_of(0), (0, ""));
    assert_eq!(size_of(1024), (1024, ""));
    assert_eq!(size_of(1025), (1, " KB"));
    assert_eq!(size_of(1024 * 1024), (1024, " KB"));
    assert_eq!(size_of(5 * 1024 * 1024 + 7), (5, " MB"));
    assert_eq!(size_of(3 << 30), (3, " GB"));
    assert_eq!(size_of(9 << 40), (9, " TB"));
    assert_eq!(size_of(2 << 50), (2, " wtf are you doing"));
    assert_eq!(size_of(u64::MAX), (15, ""));
}

#[test]
fn directories_count_their_entries() {
    let mut cache = FsCache::default();
    let mut dir = File::new("d", PathBuf::from("/d"), true);
    assert_eq!(dir.calculate_size(&cache).unwrap(), (0, ""));
    dir.prepare_meta_job(&mut cache);
    assert!(matches!(
        dir.calculate_size(&cache),
        Err(HError::FileError(FileError::MetaPending))
    ));
    cache.fill_dirsize(dir.dirsize.unwrap(), 4097);
    assert_eq!(dir.calculate_size(&cache).unwrap(), (4097, ""));
}

#[test]
fn an_unknown_size_is_pending() {
    let file = File::new("f", PathBuf::from("/f"), false);
    assert!(matches!(
        file.calculate_size(&FsCache::default()),
        Err(HError::FileError(FileError::MetaPending))
    ));
}

#[test]
fn permissions_of_ordinary_modes() {
    assert_eq!(perms_of(0o100644), "rw-r--r--");
    assert_eq!(perms_of(0o40755), "rwxr-xr-x");
    assert_eq!(perms_of(0o120777), "rwxrwxrwx");
    assert_eq!(perms_of(0o104755), "rwxr-xr-x");
    assert_eq!(perms_of(0o100421), "r---w---x");
    assert_eq!(perms_of(0o100600), "rw-------");
    assert_eq!(perms_of(0o100356), "-wxr-xrw-");
}

#[test]
fn permissions_of_other_modes() {
    // The sticky bit, the group's bit and a pipe change the first digit.
    assert_eq!(perms_of(0o41777), "--xrwxrwx");
    assert_eq!(perms_of(0o102755), "-wxr-xr-x");
    assert_eq!(perms_of(0o10644), "-w-r--r--");
    // Leading zeros are not printed.
    assert_eq!(perms_of(0o100044), "r--r--");
    assert_eq!(perms_of(0), "---");
}

#[test]
fn permissions_are_coloured() {
    let (file, cache) = with_meta(meta(0, 0o100640));
    assert_eq!(
        file.pretty_print_permissions(&cache, &palette()).unwrap(),
        "GrYwH-GrH-H----"
    );
}

#[test]
fn permissions_without_metadata_are_an_error() {
    let file = File::new("f", PathBuf::from("/f"), false);
    assert!(matches!(
        file.pretty_print_permissions(&FsCache::default(), &palette()),
        Err(HError::NoneError)
    ));
}

#[test]
fn readability_goes_by_owner_group_and_others() {
    let ask = |mode: u32, names: &Names| {
        let (file, cache) = with_meta(meta(0, mode));
        file.is_readable(&cache, names).unwrap()
    };
    let owner = names("me", "staff", "me", "wheel");
    let member = names("me", "staff", "root", "staff");
    let stranger = names("me", "staff", "root", "wheel");
    assert!(ask(0o400, &owner));
    assert!(!ask(0o040, &owner));
    assert!(ask(0o040, &member));
    assert!(!ask(0o440, &stranger));
    assert!(ask(0o004, &stranger));
    // Whoever is shut out as the owner is still let in as anyone.
    assert!(ask(0o004, &owner));
    assert!(!ask(0o333, &owner));
}

#[test]
fn readability_needs_metadata_and_names() {
    let (file, cache) = with_meta(meta(0, 0o444));
    let mut nameless = names("me", "staff", "root", "wheel");
    nameless.file_group = None;
    assert!(matches!(file.is_readable(&cache, &nameless), Err(HError::NoneError)));
    let bare = File::new("f", PathBuf::from("/f"), false);
    let all = names("me", "staff", "root", "wheel");
    assert!(matches!(bare.is_readable(&cache, &all), Err(HError::NoneError)));
}

#[test]
fn owners_are_green_if_current() {
    let (file, cache) = with_meta(meta(0, 0));
    let mine = names("me", "staff", "me", "wheel");
    assert_eq!(file.pretty_user(&cache, &mine, &palette()), Some("Gme".to_string()));
    assert_eq!(file.pretty_group(&cache, &mine, &palette()), Some("Rwheel".to_string()));
    let mut odd = names("me", "staff", "me", "staff");
    odd.file_user = Some(vec![b'x', 0xff]);
    assert_eq!(file.pretty_user(&cache, &odd, &palette()), Some("Rx\u{fffd}".to_string()));
    odd.current_group = None;
    assert_eq!(file.pretty_group(&cache, &odd, &palette()), None);
    let bare = File::new("f", PathBuf::from("/f"), false);
    assert_eq!(bare.pretty_user(&cache, &mine, &palette()), None);
    assert_eq!(bare.pretty_group(&cache, &mine, &palette()), None);
}

#[test]
fn times_are_written_to_the_minute() {
    let at = |mtime: i64, offset: i32| {
        let (file, cache) = with_meta(Meta { size: 0, mtime, mode: 0, uid: 0, gid: 0 });
        file.pretty_mtime(&cache, offset)
    };
    assert_eq!(at(0, 0), Some("1970-01-01 00:00".to_string()));
    assert_eq!(at(1_582_934_399, 0), Some("2020-02-28 23:59".to_string()));
    assert_eq!(at(1_582_934_399, 3600), Some("2020-02-29 00:59".to_string()));
    assert_eq!(at(0, -3600), Some("1969-12-31 23:00".to_string()));
    let bare = File::new("f", PathBuf::from("/f"), false);
    assert_eq!(bare.pretty_mtime(&FsCache::default(), 0), None);
}

#[test]
fn the_first_and_last_times_can_be_written() {
    let at = |mtime: i64, offset: i32| {
        let (file, cache) = with_meta(Meta { size: 0, mtime, mode: 0, uid: 0, gid: 0 });
        file.pretty_mtime(&cache, offset)
    };
    let first = -8_334_601_228_800;
    let last = 8_210_266_876_799;
    assert_eq!(at(first, 0), Some("-262143-01-01 00:00".to_string()));
    assert_eq!(at(last, 0), Some("+262142-12-31 23:59".to_string()));
    assert_eq!(at(first, -86_399), Some("-262144-12-31 00:00".to_string()));
    assert_eq!(at(last, 86_399), Some("+262143-01-01 23:59".to_string()));
}

#[test]
fn a_colour_needs_metadata() {
    let (file, cache) = with_meta(meta(0, 0));
    assert_eq!(file.get_color(&cache, Some("red".to_string())), Some("red".to_string()));
    assert_eq!(file.get_color(&cache, None), None);
    let bare = File::new("f", PathBuf::from("/f"), false);
    assert_eq!(bare.get_color(&cache, Some("red".to_string())), None);
}

#[test]
fn media_types_come_from_the_extension_first() {
    let page = File::new("index.HTML", PathBuf::from("/www/index.HTML"), false);
    assert_eq!(page.guess_mime(), Some("text/html".to_string()));
    assert_eq!(page.get_mime(Some("image/png".to_string())).unwrap(), "text/html");
    let dotfile = File::new(".png", PathBuf::from("/www/.png"), false);
    assert_eq!(dotfile.guess_mime(), None);
    let trailing = File::new("x.", PathBuf::from("/www/x."), false);
    assert_eq!(trailing.guess_mime(), None);
}

#[test]
fn media_types_come_from_the_contents_next() {
    let file = File::new("data", PathBuf::from("/data"), false);
    assert_eq!(file.get_mime(Some("image/PNG".to_string())).unwrap(), "image/png");
}

#[test]
fn media_types_that_cannot_be_had_are_an_error() {
    let file = File::new("data", PathBuf::from("/data"), false);
    assert!(matches!(
        file.get_mime(None),
        Err(HError::Mime(MimeError::Panic(name))) if name == "data"
    ));
    assert!(matches!(
        file.get_mime(Some("nonsense".to_string())),
        Err(HError::Mime(MimeError::Panic(_)))
    ));
}

#[test]
fn short_paths_stand_for_the_path() {
    for path in ["/", "/root", "/root/f", "/home/me/f", "/tmp/f", "f"] {
        let path = PathBuf::from(path);
        let file = File::new("f", path.clone(), false);
        let short = file.short_path();
        let text = short.to_str().unwrap().to_string();
        // Which directory is home the environment decides.
        assert_eq!(short, path.short_path());
        assert!(short == path || text.starts_with("~/"));
        assert_eq!(file.short_string(), text);
    }
}

#[test]
fn filters_by_name_and_selection() {
    let mut file = File::new("notes.txt", PathBuf::from("/notes.txt"), false);
    assert!(file.is_filtered("otes", false));
    assert!(file.is_filtered("", false));
    assert!(!file.is_filtered("Notes", false));
    assert!(!file.is_filtered("otes", true));
    file.toggle_selection();
    assert!(file.is_filtered("otes", true));
    let placeholder = File::new_placeholder(&PathBuf::from("/")).unwrap();
    assert!(placeholder.is_filtered("zzz", true));
}
