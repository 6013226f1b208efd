//! Going through the shown files of a listing.

use vstd::prelude::*;
use std::path::PathBuf;
use crate::file::{entries_of, File, FileView};
use crate::files::Files;
use crate::pathname::paths_equal;
use crate::text::{contains_text, starts_with_dot, to_lower};
use crate::viewing::{at_path, filter_chars, first_from, first_where, lemma_filter_step,
    lemma_shown_at_has_path, len_without_placeholder, passes_filters, positions, selected,
    without_placeholder, Viewing};

verus! {

/// The files of a list that are handed out, in order.
fn keep_handed_out(
    files: Vec<File>,
    filter: &Option<String>,
    filter_selected: bool,
    show_hidden: bool,
) -> (res: Vec<File>)
    ensures
        entries_of(res@) == entries_of(files@).filter(
            (Viewing {
                filter: filter_chars(*filter),
                filter_selected,
                show_hidden,
            }).handed_out(),
        ),
{
    let ghost view = Viewing { filter: filter_chars(*filter), filter_selected, show_hidden };
    let ghost all = entries_of(files@);
    let ghost before = files@;
    let mut res: Vec<File> = Vec::new();
    proof {
        reveal(Seq::filter);
        assert(all.take(0) =~= seq![]);
        assert(entries_of(res@) =~= all.take(0).filter(view.handed_out()));
    }
    for file in it: files
        invariant
            it.seq() == before,
            all == entries_of(before),
            view == (Viewing { filter: filter_chars(*filter), filter_selected, show_hidden }),
            entries_of(res@) == all.take(it.index() as int).filter(view.handed_out()),
    {
        let ghost i = it.index() as int;
        let ghost old_res = res@;
        assert(file@ == all[i]);
        proof {
            lemma_filter_step(all, view.handed_out(), i);
        }
        if passes_filters(&file, filter, filter_selected) && (show_hidden || !starts_with_dot(
            file.name.as_str(),
        )) {
            res.push(file);
            assert(entries_of(res@) =~= entries_of(old_res).push(all[i]));
        }
    }
    assert(all.take(all.len() as int) =~= all);
    res
}

/// The views of a list of references to files.
pub open spec fn entries_of_refs(files: Seq<&File>) -> Seq<FileView> {
    Seq::new(files.len(), |i: int| files[i]@)
}

impl Files {
    /// Whether a file is shown.
    pub(crate) fn shows(&self, file: &File) -> (res: bool)
        ensures
            res == self.viewing().shows(file@),
    {
        passes_filters(file, &self.filter, self.filter_selected) && (self.show_hidden
            || !file.hidden)
    }

    /// Counts the shown files anew.
    pub fn recalculate_len(&mut self)
        ensures
            *final(self) == (Files { len: final(self).len, ..*old(self) }),
            final(self).len == old(self).shown_entries().len(),
    {
        let mut count: usize = 0;
        let ghost all = self.entries();
        let ghost wanted = self.viewing().shown();
        proof {
            reveal(Seq::filter);
            assert(all.take(0).filter(wanted).len() == 0);
        }
        for i in 0..self.files.len()
            invariant
                *self == *old(self),
                all == self.entries(),
                wanted == self.viewing().shown(),
                count == all.take(i as int).filter(wanted).len(),
                count <= i,
        {
            proof {
                lemma_filter_step(all, wanted, i as int);
            }
            if self.shows(&self.files[i]) {
                count = count + 1;
            }
        }
        assert(all.take(all.len() as int) =~= all);
        self.len = count;
    }

    /// The file at a position of the listing, if it is shown.
    pub fn get_file_mut(&mut self, index: usize) -> (res: Option<&mut File>)
        ensures
            match res {
                Some(file) => {
                    &&& old(self).shows_at(index as int)
                    &&& *file == old(self).files@[index as int]
                    &&& final(self).files@ == old(self).files@.update(index as int, *final(file))
                    &&& *final(self) == (Files { files: final(self).files, ..*old(self) })
                },
                None => {
                    &&& !old(self).shows_at(index as int)
                    &&& *final(self) == *old(self)
                },
            },
    {
        if index < self.files.len() && self.shows(&self.files[index]) {
            Some(&mut self.files[index])
        } else {
            None
        }
    }

    /// The shown files, in order.
    pub fn iter_files(&self) -> (res: Vec<&File>)
        ensures
            entries_of_refs(res@) == self.shown_entries(),
    {
        let mut res: Vec<&File> = Vec::new();
        let ghost all = self.entries();
        let ghost wanted = self.viewing().shown();
        proof {
            reveal(Seq::filter);
            assert(entries_of_refs(res@) =~= all.take(0).filter(wanted));
        }
        for i in 0..self.files.len()
            invariant
                all == self.entries(),
                wanted == self.viewing().shown(),
                entries_of_refs(res@) == all.take(i as int).filter(wanted),
        {
            let ghost before = res@;
            proof {
                lemma_filter_step(all, wanted, i as int);
            }
            if self.shows(&self.files[i]) {
                res.push(&self.files[i]);
                assert(entries_of_refs(res@) =~= entries_of_refs(before).push(all[i as int]));
            }
        }
        assert(all.take(all.len() as int) =~= all);
        res
    }

    /// The shown files, in order.
    pub fn par_iter_files(&self) -> (res: Vec<&File>)
        ensures
            entries_of_refs(res@) == self.shown_entries(),
    {
        self.iter_files()
    }

    /// The positions of the shown files, in order; [`Files::get_file_mut`]
    /// gives the file at each of them.
    pub fn iter_files_mut(&self) -> (res: Vec<usize>)
        ensures
            res@.map_values(|i: usize| i as int) == positions(
                self.entries(),
                self.viewing().shown(),
            ),
    {
        let mut res: Vec<usize> = Vec::new();
        let ghost all = self.entries();
        let ghost wanted = self.viewing().shown();
        assert(res@.map_values(|i: usize| i as int) =~= positions(all.take(0), wanted));
        for i in 0..self.files.len()
            invariant
                all == self.entries(),
                wanted == self.viewing().shown(),
                res@.map_values(|i: usize| i as int) == positions(all.take(i as int), wanted),
        {
            let ghost before = res@;
            assert(all.take(i + 1).drop_last() =~= all.take(i as int));
            if self.shows(&self.files[i]) {
                res.push(i);
                assert(res@.map_values(|i: usize| i as int) =~= before.map_values(
                    |i: usize| i as int,
                ).push(i as int));
            }
        }
        assert(all.take(all.len() as int) =~= all);
        res
    }

    /// The positions of the shown files, in order.
    pub fn par_iter_files_mut(&self) -> (res: Vec<usize>)
        ensures
            res@.map_values(|i: usize| i as int) == positions(
                self.entries(),
                self.viewing().shown(),
            ),
    {
        self.iter_files_mut()
    }

    /// The files that are handed out, in order. The listing is used up.
    pub fn into_iter_files(self) -> (res: Vec<File>)
        ensures
            entries_of(res@) == self.handed_out_entries(),
    {
        keep_handed_out(self.files, &self.filter, self.filter_selected, self.show_hidden)
    }

    /// The files that are handed out, in order. The listing is left without
    /// files.
    pub fn take_into_iter_files(&mut self) -> (res: Vec<File>)
        ensures
            entries_of(res@) == old(self).handed_out_entries(),
            final(self).files@.len() == 0,
            *final(self) == (Files { files: final(self).files, ..*old(self) }),
    {
        let mut files: Vec<File> = Vec::new();
        core::mem::swap(&mut files, &mut self.files);
        keep_handed_out(files, &self.filter, self.filter_selected, self.show_hidden)
    }

    /// The shown files that are selected, in order.
    pub fn get_selected(&self) -> (res: Vec<&File>)
        ensures
            entries_of_refs(res@) == self.selected_entries(),
    {
        let shown = self.iter_files();
        let mut res: Vec<&File> = Vec::new();
        let ghost all = self.shown_entries();
        proof {
            reveal(Seq::filter);
            assert(entries_of_refs(res@) =~= all.take(0).filter(selected()));
        }
        for i in 0..shown.len()
            invariant
                entries_of_refs(shown@) == all,
                entries_of_refs(res@) == all.take(i as int).filter(selected()),
        {
            let ghost before = res@;
            assert(shown@[i as int]@ == all[i as int]);
            proof {
                lemma_filter_step(all, selected(), i as int);
            }
            if shown[i].selected {
                res.push(shown[i]);
                assert(entries_of_refs(res@) =~= entries_of_refs(before).push(all[i as int]));
            }
        }
        assert(all.take(all.len() as int) =~= all);
        res
    }

    /// The first shown file whose lower-case name contains a text.
    pub fn find_file_with_name(&self, name: &str) -> (res: Option<&File>)
        ensures
            ({
                let i = first_where(self.entries(), self.viewing().shown_named(name@));
                match res {
                    Some(file) => i < self.files@.len() && *file == self.files@[i],
                    None => i == self.files@.len(),
                }
            }),
    {
        let ghost wanted = self.viewing().shown_named(name@);
        for i in 0..self.files.len()
            invariant
                wanted == self.viewing().shown_named(name@),
                first_where(self.entries(), wanted) == first_from(self.entries(), wanted, i as int),
        {
            let file = &self.files[i];
            assert(self.entries()[i as int] == file@);
            if self.shows(file) && contains_text(to_lower(file.name.as_str()).as_str(), name) {
                return Some(file);
            }
        }
        None
    }

    /// The position of the first shown file that has a path.
    fn shown_position(&self, path: &PathBuf) -> (res: Option<usize>)
        ensures
            ({
                let i = first_where(self.entries(), self.viewing().shown_at(*path));
                match res {
                    Some(p) => i < self.files@.len() && p == i,
                    None => i == self.files@.len(),
                }
            }),
    {
        let ghost wanted = self.viewing().shown_at(*path);
        for i in 0..self.files.len()
            invariant
                wanted == self.viewing().shown_at(*path),
                first_where(self.entries(), wanted) == first_from(self.entries(), wanted, i as int),
        {
            assert(self.entries()[i as int] == self.files@[i as int]@);
            if self.shows(&self.files[i]) && paths_equal(&self.files[i].path, path) {
                return Some(i);
            }
        }
        None
    }

    /// The first shown file that has a path.
    pub fn find_file_with_path(&mut self, path: &PathBuf) -> (res: Option<&mut File>)
        ensures
            ({
                let i = first_where(old(self).entries(), old(self).viewing().shown_at(*path));
                match res {
                    Some(file) => {
                        &&& i < old(self).files@.len()
                        &&& *file == old(self).files@[i]
                        &&& final(self).files@ == old(self).files@.update(i, *final(file))
                        &&& *final(self) == (Files { files: final(self).files, ..*old(self) })
                    },
                    None => i == old(self).files@.len() && *final(self) == *old(self),
                }
            }),
    {
        match self.shown_position(path) {
            Some(i) => Some(&mut self.files[i]),
            None => None,
        }
    }

    /// Takes the placeholder of the directory out of the listing.
    pub(crate) fn remove_placeholder(&mut self)
        ensures
            final(self).entries() == without_placeholder(
                old(self).entries(),
                old(self).viewing(),
                old(self).directory.path,
            ),
            *final(self) == (Files {
                files: final(self).files,
                len: len_without_placeholder(
                    old(self).entries(),
                    old(self).viewing(),
                    old(self).directory.path,
                    old(self).len,
                ),
                ..*old(self)
            }),
    {
        let dir = self.directory.path.clone();
        if self.shown_position(&dir).is_none() {
            return;
        }
        let ghost all = self.entries();
        let ghost wanted = at_path(dir);
        let mut i: usize = 0;
        while i < self.files.len() && !paths_equal(&self.files[i].path, &dir)
            invariant
                *self == *old(self),
                all == self.entries(),
                wanted == at_path(dir),
                i <= self.files@.len(),
                first_where(all, wanted) == first_from(all, wanted, i as int),
            decreases self.files@.len() - i,
        {
            assert(all[i as int] == self.files@[i as int]@);
            i = i + 1;
        }
        proof {
            lemma_shown_at_has_path(all, self.viewing(), dir, 0);
            if i < self.files@.len() {
                assert(all[i as int] == self.files@[i as int]@);
            }
        }
        self.files.remove(i);
        assert(self.entries() =~= all.remove(i as int));
        if self.len > 0 {
            self.len = self.len - 1;
        }
    }
}

} // verus!
