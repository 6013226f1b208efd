//! Which files of a listing are shown, and where they are.

use vstd::prelude::*;
use std::path::PathBuf;
use crate::file::{placeholder_for, File, FileView, Kind};
use crate::pathname::{name_of_path, same_path};
use crate::text::{begins_with_dot, contains_text, is_substring, lowercase};

verus! {

/// What decides which files are shown.
#[verifier::ext_equal]
pub struct Viewing {
    pub filter: Option<Seq<char>>,
    pub filter_selected: bool,
    pub show_hidden: bool,
}

/// The characters of a filter.
pub open spec fn filter_chars(filter: Option<String>) -> Option<Seq<char>> {
    match filter {
        Some(text) => Some(text@),
        None => None,
    }
}

/// The filters let a file through. A placeholder always passes.
pub open spec fn passes(
    file: FileView,
    filter: Option<Seq<char>>,
    filter_selected: bool,
) -> bool {
    ||| file.kind == Kind::Placeholder
    ||| {
        &&& filter matches Some(text) ==> is_substring(file.name, text)
        &&& filter_selected ==> file.selected
    }
}

impl Viewing {
    /// The filters let a file through.
    pub open spec fn passes(self, file: FileView) -> bool {
        passes(file, self.filter, self.filter_selected)
    }

    /// A file is shown.
    pub open spec fn shows(self, file: FileView) -> bool {
        self.passes(file) && (self.show_hidden || !file.hidden)
    }

    /// A file is handed out: as [`Viewing::shows`], but whether it is hidden
    /// goes by its name.
    pub open spec fn hands_out(self, file: FileView) -> bool {
        self.passes(file) && (self.show_hidden || !begins_with_dot(file.name))
    }

    pub open spec fn shown(self) -> spec_fn(FileView) -> bool {
        |file: FileView| self.shows(file)
    }

    pub open spec fn handed_out(self) -> spec_fn(FileView) -> bool {
        |file: FileView| self.hands_out(file)
    }

    /// The files that are shown and have a path.
    pub open spec fn shown_at(self, path: PathBuf) -> spec_fn(FileView) -> bool {
        |file: FileView| self.shows(file) && same_path(file.path, path)
    }

    /// The files that are shown and whose lower-case name contains a text.
    pub open spec fn shown_named(self, name: Seq<char>) -> spec_fn(FileView) -> bool {
        |file: FileView| self.shows(file) && is_substring(lowercase(file.name), name)
    }
}

/// The files that have a path.
pub open spec fn at_path(path: PathBuf) -> spec_fn(FileView) -> bool {
    |file: FileView| same_path(file.path, path)
}

/// The selected files.
pub open spec fn selected() -> spec_fn(FileView) -> bool {
    |file: FileView| file.selected
}

/// The position of the first file from `start` on that has a property; the
/// number of files where none has it.
pub open spec fn first_from(
    files: Seq<FileView>,
    wanted: spec_fn(FileView) -> bool,
    start: int,
) -> int
    decreases files.len() - start,
{
    if start < 0 || start >= files.len() {
        files.len() as int
    } else if wanted(files[start]) {
        start
    } else {
        first_from(files, wanted, start + 1)
    }
}

/// The position of the first file that has a property.
pub open spec fn first_where(files: Seq<FileView>, wanted: spec_fn(FileView) -> bool) -> int {
    first_from(files, wanted, 0)
}

/// The positions of the files that have a property, in order.
pub open spec fn positions(files: Seq<FileView>, wanted: spec_fn(FileView) -> bool) -> Seq<int>
    decreases files.len(),
{
    if files.len() == 0 {
        seq![]
    } else if wanted(files.last()) {
        positions(files.drop_last(), wanted).push(files.len() - 1)
    } else {
        positions(files.drop_last(), wanted)
    }
}

/// Whether the placeholder of a directory is among the shown files.
pub open spec fn shows_placeholder(files: Seq<FileView>, view: Viewing, dir: PathBuf) -> bool {
    first_where(files, view.shown_at(dir)) < files.len()
}

/// The files without the placeholder of their directory: if a file with the
/// directory's path is shown, the first file with that path goes.
pub open spec fn without_placeholder(
    files: Seq<FileView>,
    view: Viewing,
    dir: PathBuf,
) -> Seq<FileView> {
    if shows_placeholder(files, view, dir) {
        files.remove(first_where(files, at_path(dir)))
    } else {
        files
    }
}

/// The number of shown files, as it is kept when the placeholder goes.
pub open spec fn len_without_placeholder(
    files: Seq<FileView>,
    view: Viewing,
    dir: PathBuf,
    len: usize,
) -> usize {
    if shows_placeholder(files, view, dir) && len > 0 {
        (len - 1) as usize
    } else {
        len
    }
}

/// One more file under a filter.
pub proof fn lemma_filter_step(files: Seq<FileView>, wanted: spec_fn(FileView) -> bool, i: int)
    requires
        0 <= i < files.len(),
    ensures
        files.take(i + 1).filter(wanted) == if wanted(files[i]) {
            files.take(i).filter(wanted).push(files[i])
        } else {
            files.take(i).filter(wanted)
        },
{
    reveal(Seq::filter);
    assert(files.take(i + 1).drop_last() =~= files.take(i));
}

/// Whether the filters let a file through.
pub(crate) fn passes_filters(file: &File, filter: &Option<String>, filter_selected: bool) -> (res: bool)
    ensures
        res == passes(file@, filter_chars(*filter), filter_selected),
{
    file.kind == Kind::Placeholder || (match filter {
        Some(text) => contains_text(file.name.as_str(), text.as_str()),
        None => true,
    } && (!filter_selected || file.selected))
}

impl File {
    /// Whether the filters let the file through.
    pub fn is_filtered(&self, filter: &str, filter_selected: bool) -> (res: bool)
        ensures
            res == passes(self@, Some(filter@), filter_selected),
    {
        self.kind == Kind::Placeholder || (contains_text(self.name.as_str(), filter) && (
        !filter_selected || self.selected))
    }
}

/// Where a shown file has a path, some file has it.
pub proof fn lemma_shown_at_has_path(files: Seq<FileView>, view: Viewing, path: PathBuf, start: int)
    requires
        0 <= start <= files.len(),
    ensures
        first_from(files, at_path(path), start) <= first_from(files, view.shown_at(path), start)
            <= files.len(),
    decreases files.len() - start,
{
    if start < files.len() {
        lemma_shown_at_has_path(files, view, path, start + 1);
        if !at_path(path)(files[start]) {
            assert(!view.shown_at(path)(files[start]));
        } else {
            lemma_first_from_start(files, view.shown_at(path), start);
        }
    }
}

/// The search from a position on finds nothing before it.
pub proof fn lemma_first_from_start(
    files: Seq<FileView>,
    wanted: spec_fn(FileView) -> bool,
    start: int,
)
    requires
        0 <= start <= files.len(),
    ensures
        start <= first_from(files, wanted, start) <= files.len(),
        first_from(files, wanted, start) < files.len() ==> wanted(files[first_from(files, wanted, start)]),
        forall|j: int| start <= j < first_from(files, wanted, start) ==> !wanted(#[trigger] files[j]),
    decreases files.len() - start,
{
    if start < files.len() && !wanted(files[start]) {
        lemma_first_from_start(files, wanted, start + 1);
    }
}

/// The positions of the wanted files and the wanted files themselves go
/// together: the positions rise, each is that of the file in the same place
/// among the wanted ones, and no wanted file is missed.
pub proof fn positions_and_files_agree(files: Seq<FileView>, wanted: spec_fn(FileView) -> bool)
    ensures
        positions(files, wanted).len() == files.filter(wanted).len(),
        forall|k: int|
            #![trigger positions(files, wanted)[k]]
            0 <= k < positions(files, wanted).len() ==> {
                let i = positions(files, wanted)[k];
                &&& 0 <= i < files.len()
                &&& wanted(files[i])
                &&& files[i] == files.filter(wanted)[k]
            },
        forall|j: int, k: int|
            0 <= j < k < positions(files, wanted).len() ==> positions(files, wanted)[j]
                < positions(files, wanted)[k],
        forall|i: int|
            0 <= i < files.len() && wanted(#[trigger] files[i]) ==> positions(
                files,
                wanted,
            ).contains(i),
    decreases files.len(),
{
    reveal(Seq::filter);
    if files.len() > 0 {
        let rest = files.drop_last();
        positions_and_files_agree(rest, wanted);
        let before = positions(rest, wanted);
        let all = positions(files, wanted);
        assert forall|i: int| 0 <= i < files.len() && wanted(#[trigger] files[i]) implies all.contains(
            i,
        ) by {
            if i < files.len() - 1 {
                assert(rest[i] == files[i]);
                assert(before.contains(i));
                let k = choose|k: int| 0 <= k < before.len() && before[k] == i;
                assert(all[k] == i);
            } else {
                assert(all[all.len() - 1] == i);
            }
        }
    }
}

/// Showing the hidden files takes no file away: what was shown still is, and
/// what comes in is hidden.
pub proof fn showing_hidden_files_only_adds(files: Seq<FileView>, view: Viewing, file: FileView)
    ensures
        ({
            let less = Viewing { show_hidden: false, ..view };
            let more = Viewing { show_hidden: true, ..view };
            &&& less.shows(file) == (more.shows(file) && !file.hidden)
            &&& files.filter(less.shown()).len() <= files.filter(more.shown()).len()
        }),
    decreases files.len(),
{
    reveal(Seq::filter);
    if files.len() > 0 {
        showing_hidden_files_only_adds(files.drop_last(), view, file);
        assert(Viewing { show_hidden: false, ..view }.shows(files.last()) ==> Viewing {
            show_hidden: true,
            ..view
        }.shows(files.last()));
    }
}

/// Where the files are marked as hidden by the first dot of their name, as new
/// ones are, those that are handed out are those that are shown.
pub proof fn handing_out_gives_what_is_shown(files: Seq<FileView>, view: Viewing)
    requires
        forall|i: int|
            0 <= i < files.len() ==> #[trigger] files[i].hidden == begins_with_dot(files[i].name),
    ensures
        files.filter(view.handed_out()) == files.filter(view.shown()),
    decreases files.len(),
{
    reveal(Seq::filter);
    if files.len() > 0 {
        handing_out_gives_what_is_shown(files.drop_last(), view);
    }
}

/// No filter hides the placeholder of a directory: it is shown unless the
/// directory is hidden and hidden files are not shown.
pub proof fn filters_pass_placeholders(view: Viewing, dir: PathBuf)
    ensures
        view.shows(placeholder_for(dir)) == (view.show_hidden || !begins_with_dot(
            name_of_path(dir),
        )),
{
}

/// What is shown, directories included, has the filter's text in its name, is
/// selected where only selected files are shown, and is not hidden unless hidden
/// files are shown; and all that is so is shown. Only placeholders pass the
/// filters whatever they are. What is handed out goes by a dot in front of the
/// name instead of the mark.
pub proof fn shown_files_pass_the_filters(view: Viewing, file: FileView)
    ensures
        ({
            let named = view.filter matches Some(text) ==> is_substring(file.name, text);
            let picked = view.filter_selected ==> file.selected;
            let passes = file.kind == Kind::Placeholder || named && picked;
            let dotted = file.name.len() > 0 && file.name.first() == '.';
            &&& crate::viewing::passes(file, view.filter, view.filter_selected) <==> passes
            &&& view.shows(file) <==> passes && (view.show_hidden || !file.hidden)
            &&& view.shown()(file) <==> view.shows(file)
            &&& view.hands_out(file) <==> passes && (view.show_hidden || !dotted)
            &&& view.handed_out()(file) <==> view.hands_out(file)
            &&& selected()(file) <==> file.selected
        }),
{
}

/// Files are looked for among those that are shown: by path, where the paths
/// are the same, and by name, where the lower-case name contains the text.
pub proof fn searches_go_through_shown_files(
    view: Viewing,
    file: FileView,
    path: PathBuf,
    text: Seq<char>,
)
    ensures
        view.shown_at(path)(file) <==> view.shows(file) && same_path(file.path, path),
        view.shown_named(text)(file) <==> view.shows(file) && is_substring(
            lowercase(file.name),
            text,
        ),
        at_path(path)(file) <==> same_path(file.path, path),
{
}

/// A search finds the first of the files that it looks for, and the number of
/// files where there is none.
pub proof fn searches_find_the_first(files: Seq<FileView>, wanted: spec_fn(FileView) -> bool)
    ensures
        ({
            let i = first_where(files, wanted);
            &&& 0 <= i <= files.len()
            &&& i < files.len() ==> wanted(files[i])
            &&& forall|j: int| 0 <= j < i ==> !wanted(#[trigger] files[j])
        }),
{
    lemma_first_from_start(files, wanted, 0);
}

/// The placeholder of a directory goes only where a file with the directory's
/// path is shown. Then the first file with that path goes and no other, and the
/// count goes down by one, but not below zero.
pub proof fn only_the_placeholder_goes(
    files: Seq<FileView>,
    view: Viewing,
    dir: PathBuf,
    len: usize,
)
    ensures
        ({
            let rest = without_placeholder(files, view, dir);
            let count = len_without_placeholder(files, view, dir, len);
            let there = exists|i: int|
                0 <= i < files.len() && view.shows(#[trigger] files[i]) && same_path(
                    files[i].path,
                    dir,
                );
            &&& !there ==> rest == files && count == len
            &&& there ==> exists|k: int|
                #![trigger files.remove(k)]
                {
                    &&& 0 <= k < files.len()
                    &&& same_path(files[k].path, dir)
                    &&& forall|j: int| 0 <= j < k ==> !same_path((#[trigger] files[j]).path, dir)
                    &&& rest == files.remove(k)
                }
            &&& there && len > 0 ==> count == len - 1
            &&& there && len == 0 ==> count == 0
            &&& forall|file: FileView|
                !same_path(file.path, dir) ==> (#[trigger] rest.contains(file) <==> files.contains(
                    file,
                ))
            &&& forall|file: FileView| #[trigger] rest.contains(file) ==> files.contains(file)
        }),
{
    let rest = without_placeholder(files, view, dir);
    lemma_first_from_start(files, view.shown_at(dir), 0);
    lemma_first_from_start(files, at_path(dir), 0);
    lemma_shown_at_has_path(files, view, dir, 0);
    let k = first_where(files, at_path(dir));
    if shows_placeholder(files, view, dir) {
        let i = first_where(files, view.shown_at(dir));
        assert(view.shows(files[i]) && same_path(files[i].path, dir));
        assert(rest == files.remove(k));
        assert forall|file: FileView| #[trigger] rest.contains(file) implies files.contains(
            file,
        ) by {
            let r = choose|r: int| 0 <= r < rest.len() && rest[r] == file;
            assert(files[if r < k {
                r
            } else {
                r + 1
            }] == file);
        }
        assert forall|file: FileView| !same_path(file.path, dir) && files.contains(
            file,
        ) implies #[trigger] rest.contains(file) by {
            let r = choose|r: int| 0 <= r < files.len() && files[r] == file;
            assert(r != k);
            assert(rest[if r < k {
                r
            } else {
                r - 1
            }] == file);
        }
    } else {
        assert forall|i: int| 0 <= i < files.len() implies !(view.shows(#[trigger] files[i])
            && same_path(files[i].path, dir)) by {
            assert(!view.shown_at(dir)(files[i]));
        }
    }
}

} // verus!
