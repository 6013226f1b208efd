//! Tagged files, and the file in which they are kept.

use vstd::prelude::*;
use vstd::string::StringExecFns;
use vstd::utf8::{decode_utf8, decode_utf8_encode_utf8, encode_utf8, valid_utf8};
use std::path::PathBuf;
use crate::fail::{HError, HResult};
use crate::file::File;
use crate::pathname::{bytes_of_path, lossy_text, path_bytes, path_from_text, paths_equal,
    same_path, text_lossy};
use crate::text::{is_one_line, joined_lines, joined_lines_read_back, lines, lines_of, texts};

verus! {

/// The paths that are tagged, once they have been read.
#[derive(Debug)]
pub struct Tags {
    pub loaded: bool,
    pub paths: Vec<PathBuf>,
}

/// The bytes of some paths.
pub open spec fn bytes_of_paths(paths: Seq<PathBuf>) -> Seq<Seq<u8>> {
    paths.map_values(|path: PathBuf| path_bytes(path))
}

/// A path is among some others.
pub open spec fn has_path(paths: Seq<PathBuf>, path: PathBuf) -> bool {
    exists|i: int| 0 <= i < paths.len() && same_path(#[trigger] paths[i], path)
}

/// The position, from `start` on, of a path among others; their number where
/// it is not among them.
pub open spec fn path_position(paths: Seq<PathBuf>, path: PathBuf, start: int) -> int
    decreases paths.len() - start,
{
    if start < 0 || start >= paths.len() {
        paths.len() as int
    } else if same_path(paths[start], path) {
        start
    } else {
        path_position(paths, path, start + 1)
    }
}

/// The paths without the first that equals a given one.
pub open spec fn without_path(paths: Seq<PathBuf>, path: PathBuf) -> Seq<PathBuf> {
    if has_path(paths, path) {
        paths.remove(path_position(paths, path, 0))
    } else {
        paths
    }
}

/// The contents of the tag file: each path on a line of its own.
pub open spec fn tag_file(paths: Seq<Seq<u8>>) -> Seq<char> {
    joined_lines(paths.map_values(|path: Seq<u8>| lossy_text(path)))
}

/// A path that can be kept in the tag file: it is a text, and fits on a line.
pub open spec fn is_keepable(path: Seq<u8>) -> bool {
    valid_utf8(path) && is_one_line(decode_utf8(path))
}

/// The paths that a tag file lists, by their bytes.
pub open spec fn listed_paths(content: Seq<char>) -> Seq<Seq<u8>> {
    lines(content).map_values(|line: Seq<char>| encode_utf8(line))
}

/// The position of a path among others.
fn find_path(paths: &[PathBuf], path: &PathBuf) -> (res: Option<usize>)
    ensures
        match res {
            Some(i) => has_path(paths@, *path) && i < paths@.len() && i == path_position(
                paths@,
                *path,
                0,
            ),
            None => !has_path(paths@, *path),
        },
{
    for i in 0..paths.len()
        invariant
            path_position(paths@, *path, 0) == path_position(paths@, *path, i as int),
            forall|j: int| 0 <= j < i ==> !same_path(#[trigger] paths@[j], *path),
    {
        if paths_equal(&paths[i], path) {
            assert(same_path(paths@[i as int], *path));
            return Some(i);
        }
    }
    None
}

impl Tags {
    /// Tags that have not been read yet.
    pub fn new() -> (res: Tags)
        ensures
            !res.loaded,
            res.paths@.len() == 0,
    {
        Tags { loaded: false, paths: Vec::new() }
    }

    /// What is to be written to the tag file. If all paths can be kept in it,
    /// reading the file gives them back.
    pub fn to_text(&self) -> (res: String)
        ensures
            res@ == tag_file(bytes_of_paths(self.paths@)),
            (forall|i: int|
                0 <= i < self.paths@.len() ==> is_keepable(path_bytes(#[trigger] self.paths@[i])))
                ==> listed_paths(res@) == bytes_of_paths(self.paths@),
    {
        let mut res = String::new();
        let ghost all = bytes_of_paths(self.paths@);
        let ghost shown = all.map_values(|path: Seq<u8>| lossy_text(path));
        for i in 0..self.paths.len()
            invariant
                all == bytes_of_paths(self.paths@),
                shown == all.map_values(|path: Seq<u8>| lossy_text(path)),
                res@ == joined_lines(shown.take(i as int)),
                forall|j: int|
                    0 <= j < i && valid_utf8(#[trigger] all[j]) ==> shown[j] == decode_utf8(all[j]),
        {
            let bytes = bytes_of_path(&self.paths[i]);
            let path = text_lossy(bytes.as_slice());
            assert(bytes@ == all[i as int]);
            res.append(path.as_str());
            res.push('\n');
            assert(shown.take(i + 1).drop_last() =~= shown.take(i as int));
            assert(res@ =~= joined_lines(shown.take(i + 1)));
        }
        assert(shown.take(shown.len() as int) =~= shown);
        proof {
            if forall|i: int|
                0 <= i < self.paths@.len() ==> is_keepable(path_bytes(#[trigger] self.paths@[i])) {
                assert forall|i: int| 0 <= i < shown.len() implies is_one_line(
                    #[trigger] shown[i],
                ) by {
                    assert(is_keepable(path_bytes(self.paths@[i])));
                    assert(valid_utf8(all[i]));
                }
                joined_lines_read_back(shown);
                assert forall|i: int| 0 <= i < all.len() implies encode_utf8(shown[i])
                    == #[trigger] all[i] by {
                    assert(is_keepable(path_bytes(self.paths@[i])));
                    decode_utf8_encode_utf8(all[i]);
                }
                assert(listed_paths(res@) =~= all);
            }
        }
        res
    }
}

/// `after` are the tags when the contents of the tag file are taken in.
pub open spec fn loads(before: Tags, content: Seq<char>, after: Tags) -> bool {
    &&& after.loaded
    &&& bytes_of_paths(after.paths@) == bytes_of_paths(before.paths@) + listed_paths(content)
    &&& before.paths@.is_prefix_of(after.paths@)
}

/// Takes in the contents of the tag file.
pub fn load_tags(tags: &mut Tags, content: &str)
    ensures
        loads(*old(tags), content@, *final(tags)),
{
    let found = lines_of(content);
    let ghost before = tags.paths@;
    let ghost listed = listed_paths(content@);
    tags.loaded = true;
    assert(bytes_of_paths(tags.paths@) =~= bytes_of_paths(before) + listed.take(0));
    for i in 0..found.len()
        invariant
            tags.loaded,
            texts(found@) == lines(content@),
            listed == listed_paths(content@),
            bytes_of_paths(tags.paths@) == bytes_of_paths(before) + listed.take(i as int),
            before.is_prefix_of(tags.paths@),
    {
        let ghost now = tags.paths@;
        let path = path_from_text(found[i].as_str());
        assert(texts(found@)[i as int] == found@[i as int]@);
        assert(path_bytes(path) == listed[i as int]);
        tags.paths.push(path);
        assert(bytes_of_paths(tags.paths@) =~= bytes_of_paths(now).push(listed[i as int]));
        assert(listed.take(i + 1) =~= listed.take(i as int).push(listed[i as int]));
    }
    assert(texts(found@).len() == found@.len());
    assert(listed.take(listed.len() as int) =~= listed);
}

/// An error unless the tags have been read.
pub fn tags_loaded(tags: &Tags) -> (res: HResult<()>)
    ensures
        res == if tags.loaded {
            Ok::<(), HError>(())
        } else {
            Err(HError::TagsNotLoadedYetError)
        },
{
    if tags.loaded {
        Ok(())
    } else {
        Err(HError::TagsNotLoadedYetError)
    }
}

/// Whether a path is tagged. That cannot be said before the tags are read.
pub fn check_tag(tags: &Tags, path: &PathBuf) -> (res: HResult<bool>)
    ensures
        res == if tags.loaded {
            Ok::<bool, HError>(has_path(tags.paths@, *path))
        } else {
            Err(HError::TagsNotLoadedYetError)
        },
{
    match tags_loaded(tags) {
        Ok(_) => Ok(find_path(tags.paths.as_slice(), path).is_some()),
        Err(e) => Err(e),
    }
}

/// Whether a file is tagged: as it says itself, or else as the tags say.
pub open spec fn tag_of(file: File, tags: Tags) -> HResult<bool> {
    match file.tag {
        Some(tag) => Ok(tag),
        None => if tags.loaded {
            Ok(has_path(tags.paths@, file.path))
        } else {
            Err(HError::TagsNotLoadedYetError)
        },
    }
}

/// `after` and `then` are a file and the tags when [`File::toggle_tag`] has
/// returned `res`.
pub open spec fn toggles_tag(
    file: File,
    tags: Tags,
    after: File,
    then: Tags,
    res: HResult<()>,
) -> bool {
    match tag_of(file, tags) {
        Ok(tag) => {
            &&& res == Ok::<(), HError>(())
            &&& after == (File { tag: Some(!tag), ..file })
            &&& then.loaded == tags.loaded
            &&& then.paths@ == if tag {
                without_path(tags.paths@, file.path)
            } else {
                tags.paths@.push(file.path)
            }
        },
        Err(e) => {
            &&& res == Err::<(), HError>(e)
            &&& after == file
            &&& then == tags
        },
    }
}

impl File {
    /// Whether the file is tagged.
    pub fn is_tagged(&self, tags: &Tags) -> (res: HResult<bool>)
        ensures
            res == tag_of(*self, *tags),
    {
        if let Some(tag) = self.tag {
            return Ok(tag);
        }
        check_tag(tags, &self.path)
    }

    /// Notes in the file whether its path is among some tagged ones.
    pub fn set_tag_status(&mut self, tags: &[PathBuf])
        ensures
            *final(self) == (File { tag: Some(has_path(tags@, old(self).path)), ..*old(self) }),
    {
        self.tag = Some(find_path(tags, &self.path).is_some());
    }

    /// Tags the file, or takes its tag away. What is tagged is then to be
    /// written to the tag file.
    pub fn toggle_tag(&mut self, tags: &mut Tags) -> (res: HResult<()>)
        ensures
            toggles_tag(*old(self), *old(tags), *final(self), *final(tags), res),
    {
        let tag = match self.is_tagged(tags) {
            Ok(tag) => tag,
            Err(e) => return Err(e),
        };
        self.tag = Some(!tag);
        if tag {
            if let Some(i) = find_path(tags.paths.as_slice(), &self.path) {
                tags.paths.remove(i);
            }
        } else {
            tags.paths.push(self.path.clone());
        }
        Ok(())
    }
}

/// The search for a path finds the first that equals it.
proof fn lemma_path_position(paths: Seq<PathBuf>, path: PathBuf, start: int)
    requires
        0 <= start <= paths.len(),
    ensures
        start <= path_position(paths, path, start) <= paths.len(),
        path_position(paths, path, start) < paths.len() ==> same_path(
            paths[path_position(paths, path, start)],
            path,
        ),
        forall|i: int|
            start <= i < path_position(paths, path, start) ==> !same_path(
                #[trigger] paths[i],
                path,
            ),
    decreases paths.len() - start,
{
    if start < paths.len() && !same_path(paths[start], path) {
        lemma_path_position(paths, path, start + 1);
    }
}

/// Taking a tag away leaves all other paths tagged as they were.
pub proof fn untagging_touches_no_other_path(
    paths: Seq<PathBuf>,
    path: PathBuf,
    other: PathBuf,
)
    requires
        !same_path(path, other),
    ensures
        has_path(without_path(paths, path), other) == has_path(paths, other),
        has_path(paths.push(path), other) == has_path(paths, other),
{
    lemma_path_position(paths, path, 0);
    let at = path_position(paths, path, 0);
    let rest = without_path(paths, path);
    if has_path(paths, other) {
        let i = choose|i: int| 0 <= i < paths.len() && same_path(#[trigger] paths[i], other);
        assert(paths.push(path)[i] == paths[i]);
        if has_path(paths, path) {
            assert(i != at);
            assert(rest[if i < at {
                i
            } else {
                i - 1
            }] == paths[i]);
        }
    }
    if has_path(rest, other) && has_path(paths, path) {
        let i = choose|i: int| 0 <= i < rest.len() && same_path(#[trigger] rest[i], other);
        assert(rest[i] == paths[if i < at {
            i
        } else {
            i + 1
        }]);
    }
    if has_path(paths.push(path), other) {
        let i = choose|i: int|
            0 <= i < paths.push(path).len() && same_path(#[trigger] paths.push(path)[i], other);
        assert(i < paths.len());
        assert(paths[i] == paths.push(path)[i]);
    }
}

/// Tagging a path that was not tagged makes it so, and taking the tag away
/// again gives the paths as they were.
pub proof fn tagging_and_untagging_cancel(paths: Seq<PathBuf>, path: PathBuf)
    requires
        !has_path(paths, path),
    ensures
        has_path(paths.push(path), path),
        without_path(paths.push(path), path) == paths,
{
    let more = paths.push(path);
    assert(same_path(more[paths.len() as int], path));
    lemma_path_position(more, path, 0);
    let at = path_position(more, path, 0);
    if at < paths.len() {
        assert(paths[at] == more[at]);
    }
    assert(more.remove(paths.len() as int) =~= paths);
}

/// A path that is tagged once is not tagged when its tag is taken away.
pub proof fn untagging_removes_the_tag(paths: Seq<PathBuf>, path: PathBuf)
    requires
        forall|i: int, j: int|
            0 <= i < j < paths.len() ==> !same_path(#[trigger] paths[i], #[trigger] paths[j]),
    ensures
        !has_path(without_path(paths, path), path),
{
    if has_path(paths, path) {
        lemma_path_position(paths, path, 0);
        let at = path_position(paths, path, 0);
        let rest = without_path(paths, path);
        if has_path(rest, path) {
            let i = choose|i: int| 0 <= i < rest.len() && same_path(#[trigger] rest[i], path);
            if i < at {
                assert(rest[i] == paths[i]);
            } else {
                assert(rest[i] == paths[i + 1]);
                assert(!same_path(paths[at], paths[i + 1]));
            }
        }
    }
}

/// A path is among some others exactly where one of them is the same path.
pub proof fn tagged_paths_are_listed(paths: Seq<PathBuf>, path: PathBuf)
    ensures
        has_path(paths, path) <==> exists|i: int|
            0 <= i < paths.len() && same_path(#[trigger] paths[i], path),
        !has_path(paths, path) ==> without_path(paths, path) == paths,
        has_path(paths, path) ==> exists|k: int|
            #![trigger paths.remove(k)]
            {
                &&& 0 <= k < paths.len()
                &&& same_path(paths[k], path)
                &&& forall|j: int| 0 <= j < k ==> !same_path(#[trigger] paths[j], path)
                &&& without_path(paths, path) == paths.remove(k)
            },
{
    lemma_path_position(paths, path, 0);
    if has_path(paths, path) {
        let k = path_position(paths, path, 0);
        let i = choose|i: int| 0 <= i < paths.len() && same_path(#[trigger] paths[i], path);
        assert(k <= i);
        assert(without_path(paths, path) == paths.remove(k));
    }
}

/// A file says itself whether it is tagged, if it knows; if not, the tags say
/// it, and that cannot be said before they are read.
pub proof fn files_know_their_tag_best(file: File, tags: Tags)
    ensures
        file.tag matches Some(tag) ==> tag_of(file, tags) == Ok::<bool, HError>(tag),
        file.tag is None && tags.loaded ==> (tag_of(file, tags) matches Ok(tag) && (tag
            <==> exists|i: int|
            0 <= i < tags.paths@.len() && same_path(#[trigger] tags.paths@[i], file.path))),
        file.tag is None && !tags.loaded ==> tag_of(file, tags) == Err::<bool, HError>(
            HError::TagsNotLoadedYetError,
        ),
{
}

/// Toggling a tag turns round whether the file is tagged, for the file itself
/// and for what the tags say of its path, if they agreed and listed it once at
/// most. Toggled again it is tagged as before. No other path is concerned, and
/// no other field of the file. Where it cannot be said whether the file is
/// tagged, nothing changes.
pub proof fn toggling_a_tag_turns_it_round(
    file: File,
    tags: Tags,
    after: File,
    then: Tags,
    res: HResult<()>,
    other: PathBuf,
)
    requires
        toggles_tag(file, tags, after, then, res),
    ensures
        res is Ok <==> tag_of(file, tags) is Ok,
        tag_of(file, tags) matches Ok(tag) ==> {
            &&& tag_of(after, then) == Ok::<bool, HError>(!tag)
            &&& after == (File { tag: after.tag, ..file })
            &&& !tag ==> has_path(then.paths@, file.path) && then.paths@.len() == tags.paths@.len()
                + 1
            &&& tag && (forall|i: int, j: int|
                0 <= i < j < tags.paths@.len() ==> !same_path(
                    #[trigger] tags.paths@[i],
                    #[trigger] tags.paths@[j],
                )) ==> !has_path(then.paths@, file.path)
            &&& !same_path(file.path, other) ==> has_path(then.paths@, other) == has_path(
                tags.paths@,
                other,
            )
        },
        tag_of(file, tags) is Err ==> after == file && then == tags,
        then.loaded == tags.loaded,
        forall|last: File, end: Tags, again: HResult<()>| #[trigger]
            toggles_tag(after, then, last, end, again) && res is Ok ==> tag_of(last, end) == tag_of(
                file,
                tags,
            ),
{
    let more = tags.paths@.push(file.path);
    assert(same_path(more[tags.paths@.len() as int], file.path));
    if !same_path(file.path, other) {
        untagging_touches_no_other_path(tags.paths@, file.path, other);
    }
    if forall|i: int, j: int|
        0 <= i < j < tags.paths@.len() ==> !same_path(
            #[trigger] tags.paths@[i],
            #[trigger] tags.paths@[j],
        ) {
        untagging_removes_the_tag(tags.paths@, file.path);
    }
}

/// The tag file has a line for each path, in order, with a line feed at its end;
/// each line of it is a path again, in order.
pub proof fn the_tag_file_has_a_line_for_each_path(
    paths: Seq<Seq<u8>>,
    path: Seq<u8>,
    content: Seq<char>,
)
    ensures
        tag_file(Seq::empty()) == Seq::<char>::empty(),
        tag_file(paths.push(path)) == tag_file(paths) + lossy_text(path) + seq!['\n'],
        listed_paths(content).len() == lines(content).len(),
        forall|i: int|
            0 <= i < lines(content).len() ==> #[trigger] listed_paths(content)[i] == encode_utf8(
                lines(content)[i],
            ),
{
    let shown = paths.map_values(|path: Seq<u8>| lossy_text(path));
    let more = paths.push(path).map_values(|path: Seq<u8>| lossy_text(path));
    assert(more.drop_last() =~= shown);
    assert(Seq::<Seq<u8>>::empty().map_values(|path: Seq<u8>| lossy_text(path)) =~= seq![]);
}

/// Each line of the tag file becomes a path, in order, behind those that were
/// there, and from then on it can be said what is tagged.
pub proof fn lines_of_the_tag_file_become_paths(before: Tags, content: Seq<char>, after: Tags)
    requires
        loads(before, content, after),
    ensures
        after.loaded,
        after.paths@.len() == before.paths@.len() + lines(content).len(),
        forall|i: int|
            0 <= i < before.paths@.len() ==> #[trigger] after.paths@[i] == before.paths@[i],
        forall|i: int|
            0 <= i < lines(content).len() ==> path_bytes(
                after.paths@[#[trigger] (before.paths@.len() + i)],
            ) == encode_utf8(lines(content)[i]),
        forall|file: File| #[trigger] tag_of(file, after) is Ok,
{
    assert(bytes_of_paths(after.paths@).len() == after.paths@.len());
    assert forall|i: int| 0 <= i < lines(content).len() implies path_bytes(
        after.paths@[#[trigger] (before.paths@.len() + i)],
    ) == encode_utf8(lines(content)[i]) by {
        assert(bytes_of_paths(after.paths@)[before.paths@.len() + i] == listed_paths(content)[i]);
    }
}

} // verus!
