//! From the lines of a directory listing to a [`Files`].

use vstd::prelude::*;
use std::path::PathBuf;
use async_value::Stale;
use crate::fail::{FileError, HError, HResult};
use crate::file::{entries_of, listed_kind, named_file, DirEntry, EntryType, File, FileView, Kind};
use crate::files::Files;
use crate::order::SortBy;
use crate::pathname::{lossy_text, name_of_path, path_bytes, reads_as};
use crate::stale::FlagRecord;
use crate::text::{begins_with_dot, starts_with_dot};
use crate::viewing::lemma_filter_step;

verus! {

/// A file stands for one line of the listing of a directory.
pub open spec fn stands_for(file: FileView, entry: DirEntry, dir: PathBuf) -> bool {
    &&& path_bytes(file.path) == path_bytes(dir) + seq![47u8] + path_bytes(entry.name)
    &&& file == (FileView {
        kind: listed_kind(entry.file_type),
        ..named_file(lossy_text(path_bytes(entry.name)), file.path, false)
    })
    &&& reads_as(path_bytes(entry.name), file.name)
    &&& file.hidden == (path_bytes(entry.name)[0] == 46u8)
}

/// Files stand for the lines of the listing of a directory, one for one.
pub open spec fn stand_for(files: Seq<FileView>, entries: Seq<DirEntry>, dir: PathBuf) -> bool {
    &&& files.len() == entries.len()
    &&& forall|i: int|
        0 <= i < files.len() ==> stands_for(#[trigger] files[i], entries[i], dir)
}

/// The files whose name does not begin with a dot.
pub open spec fn undotted() -> spec_fn(FileView) -> bool {
    |file: FileView| !begins_with_dot(file.name)
}

impl Files {
    /// A new listing of a directory.
    pub open spec fn is_listing_of(
        &self,
        path: PathBuf,
        is_dir: bool,
        entries: Seq<DirEntry>,
        stale: Stale,
    ) -> bool {
        &&& self.directory@ == named_file(name_of_path(path), path, is_dir)
        &&& stand_for(self.entries(), entries, path)
        &&& self.len == self.entries().filter(undotted()).len()
        &&& self.is_pristine()
        &&& self.stale == Some(stale)
    }

    /// The listing of a directory. What is called off with `stale` is the work
    /// on it that comes later.
    pub fn from_listing(
        path: &PathBuf,
        is_dir: bool,
        entries: &Vec<DirEntry>,
        stale: Stale,
    ) -> (res: Files)
        requires
            forall|i: int| 0 <= i < entries@.len() ==> path_bytes(#[trigger] entries@[i].name).len() > 0,
        ensures
            res.is_listing_of(*path, is_dir, entries@, stale),
            res.len == res.shown_entries().len(),
    {
        let mut listed: Vec<File> = Vec::new();
        let mut nonhidden: usize = 0;
        assert(entries_of(listed@).filter(undotted()).len() == 0) by {
            reveal(Seq::filter);
        }
        for i in 0..entries.len()
            invariant
                forall|i: int|
                    0 <= i < entries@.len() ==> path_bytes(#[trigger] entries@[i].name).len() > 0,
                stand_for(entries_of(listed@), entries@.take(i as int), *path),
                nonhidden == entries_of(listed@).filter(undotted()).len(),
                nonhidden <= i,
        {
            let ghost before = entries_of(listed@);
            let file = File::new_from_nixentry(&entries[i], path);
            if !starts_with_dot(file.name.as_str()) {
                nonhidden = nonhidden + 1;
            }
            listed.push(file);
            proof {
                let now = entries_of(listed@);
                assert(now =~= before.push(file@));
                lemma_filter_step(now, undotted(), i as int);
                assert(now.take(i + 1) =~= now);
                assert(now.take(i as int) =~= before);
            }
        }
        assert(entries@.take(entries@.len() as int) =~= entries@);

        let mut files = Files::default();
        files.directory = File::at_path(path, is_dir);
        files.files = listed;
        files.len = nonhidden;
        files.stale = Some(stale);
        proof {
            lemma_undotted_shown(files.entries(), &files);
        }
        files
    }

    /// The listing of a directory, unless the work has been called off.
    pub fn listing_unless(
        called_off: bool,
        path: &PathBuf,
        is_dir: bool,
        lines: &Vec<DirEntry>,
        stale: Stale,
    ) -> (res: HResult<Files>)
        requires
            forall|i: int| 0 <= i < lines@.len() ==> path_bytes(#[trigger] lines@[i].name).len() > 0,
        ensures
            match res {
                Ok(files) => !called_off && files.is_listing_of(*path, is_dir, lines@, stale)
                    && files.len == files.shown_entries().len(),
                Err(e) => called_off && e == HError::StaleError,
            },
    {
        if called_off {
            Err(HError::StaleError)
        } else {
            Ok(Files::from_listing(path, is_dir, lines, stale))
        }
    }

    /// The listing of a directory, from what reading the directory gave. When
    /// it has been read, `stale` is asked whether the work has been called off;
    /// `record` gets the answer, which decides whether a listing comes out.
    pub fn new_from_path_cancellable(
        path: &PathBuf,
        is_dir: bool,
        entries: Result<Vec<DirEntry>, FileError>,
        stale: Stale,
        record: &mut FlagRecord,
    ) -> (res: HResult<Files>)
        requires
            entries matches Ok(lines) ==> forall|i: int|
                0 <= i < lines@.len() ==> path_bytes(#[trigger] lines@[i].name).len() > 0,
        ensures
            match entries {
                Ok(lines) => {
                    let called_off = final(record)@.last();
                    &&& final(record)@ == old(record)@.push(called_off)
                    &&& final(record).flags() == old(record).flags().push(stale)
                    &&& final(record).cleared() == old(record).cleared()
                    &&& match res {
                        Ok(files) => !called_off && files.is_listing_of(
                            *path,
                            is_dir,
                            lines@,
                            stale,
                        ) && files.len == files.shown_entries().len(),
                        Err(e) => called_off && e == HError::StaleError,
                    }
                },
                Err(error) => res == Err::<Files, HError>(HError::FileError(error))
                    && *final(record) == *old(record),
            },
    {
        match entries {
            Ok(lines) => {
                let called_off = record.ask(&stale);
                Files::listing_unless(called_off, path, is_dir, &lines, stale)
            },
            Err(error) => Err(HError::FileError(error)),
        }
    }
}

/// A new listing shows the files whose name does not begin with a dot.
proof fn lemma_undotted_shown(files: Seq<FileView>, listing: &Files)
    requires
        listing.is_pristine(),
        forall|i: int|
            0 <= i < files.len() ==> #[trigger] files[i].hidden == begins_with_dot(files[i].name),
    ensures
        files.filter(undotted()) == files.filter(listing.viewing().shown()),
    decreases files.len(),
{
    reveal(Seq::filter);
    if files.len() > 0 {
        lemma_undotted_shown(files.drop_last(), listing);
    }
}

/// A new listing has one file for each line that was read, in order: its path is
/// that of the directory, a slash and the name that was read, it is a directory
/// where the line says so, hidden where the name begins with a dot, and nothing
/// else is known of it. The listing counts the files that are not hidden, is
/// sorted by name with directories first, and shows neither hidden files nor is
/// there a filter.
pub proof fn listings_hold_what_was_read(
    listing: &Files,
    path: PathBuf,
    is_dir: bool,
    entries: Seq<DirEntry>,
    stale: Stale,
)
    requires
        listing.is_listing_of(path, is_dir, entries, stale),
    ensures
        listing.files@.len() == entries.len(),
        forall|i: int|
            #![trigger listing.files@[i]]
            0 <= i < entries.len() ==> {
                let file = listing.files@[i]@;
                &&& path_bytes(file.path) == path_bytes(path) + seq![47u8] + path_bytes(
                    entries[i].name,
                )
                &&& file.name == lossy_text(path_bytes(entries[i].name))
                &&& file.kind == Kind::Directory <==> entries[i].file_type == Some(
                    EntryType::Directory,
                )
                &&& file.kind == Kind::Placeholder <==> entries[i].file_type is None
                &&& file.hidden <==> file.name.len() > 0 && file.name.first() == '.'
                &&& file.meta is None && file.dirsize is None && file.target is None
                &&& !file.selected && file.tag is None
            },
        listing.directory.path == path,
        listing.directory.kind == if is_dir {
            Kind::Directory
        } else {
            Kind::File
        },
        listing.len == listing.entries().filter(|file: FileView| !file.hidden).len(),
        listing.sort == SortBy::Name && listing.dirs_first && !listing.reverse,
        !listing.show_hidden && listing.filter is None && !listing.filter_selected,
        listing.jobs@.len() == 0 && !listing.refresh && listing.meta_upto is None,
        listing.stale == Some(stale),
{
    let unhidden = |file: FileView| !file.hidden;
    assert forall|i: int| #![trigger listing.files@[i]] 0 <= i < entries.len() implies stands_for(
        listing.files@[i]@,
        entries[i],
        path,
    ) by {
        assert(listing.entries()[i] == listing.files@[i]@);
    }
    lemma_undotted_unhidden(listing.entries(), unhidden);
}

/// Where the dot in front of the name decides what is hidden, the files without
/// one are those that are not hidden.
proof fn lemma_undotted_unhidden(files: Seq<FileView>, unhidden: spec_fn(FileView) -> bool)
    requires
        forall|file: FileView| #[trigger] unhidden(file) == !file.hidden,
        forall|i: int|
            0 <= i < files.len() ==> #[trigger] files[i].hidden == begins_with_dot(files[i].name),
    ensures
        files.filter(undotted()) == files.filter(unhidden),
    decreases files.len(),
{
    reveal(Seq::filter);
    if files.len() > 0 {
        lemma_undotted_unhidden(files.drop_last(), unhidden);
    }
}

} // verus!
