use hunter_files::file::File;
use hunter_files::files::Files;
use hunter_files::fscache::{FsCache, Meta};
use hunter_files::order::{SortBy, Sorter};
use std::cmp::Ordering;
use std::path::PathBuf;

fn add(files: &mut Files, cache: &mut FsCache, name: &str, is_dir: bool, size: u64, mtime: i64) {
    let mut file = File::new(name, PathBuf::from(format!("/d/{}", name)), is_dir);
    file.prepare_meta_job(cache);
    cache.set_meta(file.meta.unwrap(), Some(Meta { size, mtime, mode: 0, uid: 0, gid: 0 }));
    files.files.push(file);
}

fn sample() -> (Files, FsCache) {
    let mut files = Files::default();
    let mut cache = FsCache::default();
    add(&mut files, &mut cache, "shot-11", false, 10, 300);
    add(&mut files, &mut cache, "shot-2", false, 30, 100);
    add(&mut files, &mut cache, "lib", true, 5, 200);
    add(&mut files, &mut cache, "apple", false, 30, -5);
    (files, cache)
}

fn sorted(files: &mut Files, cache: &FsCache) -> Vec<String> {
    files.sort(cache);
    files.files.iter().map(|f| f.name.clone()).collect()
}

#[test]
fn names_sort_by_their_numbers() {
    let (mut files, cache) = sample();
    assert_eq!(sorted(&mut files, &cache), ["lib", "apple", "shot-2", "shot-11"]);
    files.dirs_first = false;
    assert_eq!(sorted(&mut files, &cache), ["apple", "lib", "shot-2", "shot-11"]);
}

#[test]
fn reversing_leaves_directories_first() {
    let (mut files, cache) = sample();
    files.reverse_sort();
    assert_eq!(sorted(&mut files, &cache), ["lib", "shot-11", "shot-2", "apple"]);
}

#[test]
fn sizes_sort_the_largest_first() {
    let (mut files, cache) = sample();
    files.cycle_sort();
    assert_eq!(files.sort, SortBy::Size);
    // Of two equal sizes the last by name comes first.
    assert_eq!(sorted(&mut files, &cache), ["lib", "shot-2", "apple", "shot-11"]);
    files.reverse_sort();
    assert_eq!(sorted(&mut files, &cache), ["lib", "shot-11", "apple", "shot-2"]);
}

#[test]
fn times_sort_the_latest_first() {
    let (mut files, cache) = sample();
    files.cycle_sort();
    files.cycle_sort();
    assert_eq!(files.sort, SortBy::MTime);
    assert_eq!(sorted(&mut files, &cache), ["lib", "shot-11", "shot-2", "apple"]);
    files.cycle_sort();
    assert_eq!(files.sort, SortBy::Name);
}

#[test]
fn unknown_metadata_compares_equal() {
    let (files, cache) = sample();
    let bare = File::new("zzz", PathBuf::from("/d/zzz"), false);
    let by_size = Sorter { sort: SortBy::Size, dirs_first: true, reverse: false };
    let by_time = Sorter { sort: SortBy::MTime, dirs_first: true, reverse: true };
    assert_eq!(by_size.compare(&bare, &files.files[0], &cache), Ordering::Equal);
    assert_eq!(by_time.compare(&files.files[0], &bare, &cache), Ordering::Equal);
    assert_eq!(by_size.compare(&files.files[2], &bare, &cache), Ordering::Less);
    assert_eq!(by_size.compare(&bare, &files.files[2], &cache), Ordering::Greater);
}

#[test]
fn reversing_swaps_files_of_a_kind() {
    let (files, cache) = sample();
    let plain = files.sorter();
    let turned = Sorter { reverse: true, ..plain };
    let (a, b, dir) = (&files.files[0], &files.files[1], &files.files[2]);
    assert_eq!(plain.compare(a, b, &cache), Ordering::Greater);
    assert_eq!(turned.compare(a, b, &cache), plain.compare(b, a, &cache));
    assert_eq!(turned.compare(a, dir, &cache), plain.compare(a, dir, &cache));
}

#[test]
fn names_are_totally_ordered() {
    let cache = FsCache::default();
    let sorter = Sorter { sort: SortBy::Name, dirs_first: true, reverse: false };
    let names = [
        "", "0", "00", "1", "01", "1x", "01x", "001", "12", "1-2", "1點", "1-1點", "第1章",
        "第1-2章", "x1y2", "x01y2", "x1y02", "ä", "中", "a", "A",
    ];
    for a in names {
        for b in names {
            let x = File::new(a, PathBuf::from("/a"), false);
            let y = File::new(b, PathBuf::from("/b"), false);
            let there = sorter.compare(&x, &y, &cache);
            assert_eq!(sorter.compare(&y, &x, &cache), there.reverse());
            assert_eq!(there == Ordering::Equal, a == b);
            for c in names {
                let z = File::new(c, PathBuf::from("/c"), false);
                if there != Ordering::Greater
                    && sorter.compare(&y, &z, &cache) != Ordering::Greater
                {
                    assert_ne!(sorter.compare(&x, &z, &cache), Ordering::Greater);
                }
            }
        }
    }
}

#[test]
fn sorting_by_name_orders_every_pair() {
    let mut names = vec![String::new()];
    let mut longest = names.clone();
    for _ in 0..4 {
        let mut longer = Vec::new();
        for name in longest.iter() {
            for letter in ["0", "1", "2", "-", "é", "中"] {
                longer.push(format!("{}{}", name, letter));
            }
        }
        names.extend(longer.iter().cloned());
        longest = longer;
    }
    let mut files = Files::default();
    files.files = names
        .iter()
        .rev()
        .map(|name| File::new(name, PathBuf::from("/d").join(name), false))
        .collect();
    let cache = FsCache::default();
    files.sort(&cache);
    let sorter = files.sorter();
    assert_eq!(files.files.len(), 1555);
    for i in 0..files.files.len() {
        for j in i + 1..files.files.len() {
            let order = sorter.compare(&files.files[i], &files.files[j], &cache);
            assert_eq!(order, Ordering::Less);
        }
    }
}

#[test]
fn criteria_have_names() {
    assert_eq!(SortBy::Name.text(), "name");
    assert_eq!(SortBy::Size.text(), "size");
    assert_eq!(SortBy::MTime.text(), "mtime");
}
