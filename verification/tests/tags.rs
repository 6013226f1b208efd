use hunter_files::fail::HError;
use hunter_files::file::File;
use hunter_files::tags::{check_tag, load_tags, tags_loaded, Tags};
use std::path::PathBuf;

fn loaded(content: &str) -> Tags {
    let mut tags = Tags::new();
    load_tags(&mut tags, content);
    tags
}

#[test]
fn tags_must_be_loaded_first() {
    let tags = Tags::new();
    assert!(matches!(tags_loaded(&tags), Err(HError::TagsNotLoadedYetError)));
    assert!(matches!(
        check_tag(&tags, &PathBuf::from("/a")),
        Err(HError::TagsNotLoadedYetError)
    ));
    let file = File::new("a", PathBuf::from("/a"), false);
    assert!(matches!(file.is_tagged(&tags), Err(HError::TagsNotLoadedYetError)));
    assert!(matches!(tags_loaded(&loaded("")), Ok(())));
}

#[test]
fn lines_end_with_line_feeds() {
    let tags = loaded("/a\r\n/b\n\n/c\rd\r");
    let paths: Vec<&str> = tags.paths.iter().map(|p| p.to_str().unwrap()).collect();
    assert_eq!(paths, ["/a", "/b", "", "/c\rd\r"]);
}

#[test]
fn loading_adds_to_what_is_there() {
    let mut tags = loaded("/a\n");
    load_tags(&mut tags, "/b");
    assert_eq!(tags.paths, [PathBuf::from("/a"), PathBuf::from("/b")]);
}

#[test]
fn tags_go_by_path() {
    let tags = loaded("/a//b\n");
    assert!(matches!(check_tag(&tags, &PathBuf::from("/a/b/")), Ok(true)));
    assert!(matches!(check_tag(&tags, &PathBuf::from("/a")), Ok(false)));
}

#[test]
fn a_file_knows_its_own_tag_best() {
    let tags = loaded("/a\n");
    let mut file = File::new("a", PathBuf::from("/a"), false);
    assert!(matches!(file.is_tagged(&tags), Ok(true)));
    file.tag = Some(false);
    assert!(matches!(file.is_tagged(&tags), Ok(false)));
    file.set_tag_status(&tags.paths);
    assert_eq!(file.tag, Some(true));
    file.set_tag_status(&[]);
    assert_eq!(file.tag, Some(false));
}

#[test]
fn tagging_and_untagging_undo_each_other() {
    let mut tags = loaded("/x\n/y\n");
    let mut file = File::new("a", PathBuf::from("/a"), false);
    assert!(file.toggle_tag(&mut tags).is_ok());
    assert_eq!(file.tag, Some(true));
    assert_eq!(tags.paths.len(), 3);
    assert_eq!(tags.paths[2], PathBuf::from("/a"));
    assert!(file.toggle_tag(&mut tags).is_ok());
    assert_eq!(file.tag, Some(false));
    assert_eq!(tags.paths, [PathBuf::from("/x"), PathBuf::from("/y")]);
}

#[test]
fn untagging_takes_the_first_of_equal_paths() {
    let mut tags = loaded("/x\n/a\n/y\n/a\n");
    let mut file = File::new("a", PathBuf::from("/a/"), false);
    assert!(file.toggle_tag(&mut tags).is_ok());
    assert_eq!(file.tag, Some(false));
    assert_eq!(
        tags.paths,
        [PathBuf::from("/x"), PathBuf::from("/y"), PathBuf::from("/a")]
    );
}

#[test]
fn a_tag_that_is_not_listed_can_be_taken_away() {
    let mut tags = loaded("/x\n");
    let mut file = File::new("a", PathBuf::from("/a"), false);
    file.tag = Some(true);
    assert!(file.toggle_tag(&mut tags).is_ok());
    assert_eq!(file.tag, Some(false));
    assert_eq!(tags.paths.len(), 1);
}

#[test]
fn toggling_before_loading_changes_nothing() {
    let mut tags = Tags::new();
    let mut file = File::new("a", PathBuf::from("/a"), false);
    assert!(matches!(file.toggle_tag(&mut tags), Err(HError::TagsNotLoadedYetError)));
    assert_eq!(file.tag, None);
    assert!(tags.paths.is_empty() && !tags.loaded);
}

#[test]
fn the_tag_file_is_read_back() {
    let mut tags = loaded("");
    tags.paths.push(PathBuf::from("/home/me/ä b"));
    tags.paths.push(PathBuf::from("/c"));
    let text = tags.to_text();
    assert_eq!(text, "/home/me/ä b\n/c\n");
    assert_eq!(loaded(&text).paths, tags.paths);
    assert_eq!(Tags::new().to_text(), "");
}
