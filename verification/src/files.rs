//! The listing of a directory.

use vstd::prelude::*;
use std::path::PathBuf;
use async_value::Stale;
use crate::dirty::{DirtyBit, Dirtyable};
use crate::fail::{HError, HResult};
use crate::file::{entries_of, placeholder_for, File, FileView, Kind};
use crate::fscache::FsCache;
use crate::jobs::Job;
use crate::order::{compare_each_name, metadata_is_known, next_sort, order_is_total, par_sort,
    SortBy, Sorter};
use crate::pathname::{components, parent_bytes, parent_of_path, path_bytes, paths_equal,
    same_path};
use crate::refresh::{clone_jobs, FsEvent, Refresh, RefreshPackage};
use crate::stale::FlagRecord;
use crate::text::is_substring;
use crate::viewing::{filter_chars, first_from, len_without_placeholder, only_the_placeholder_goes,
    positions, positions_and_files_agree, selected, without_placeholder, Viewing};

verus! {

/// The listing of a directory, and how it is to be shown.
#[derive(Debug)]
pub struct Files {
    pub directory: File,
    pub files: Vec<File>,
    /// How many files are shown.
    pub len: usize,
    /// A refresh is under way.
    pub refresh: bool,
    /// Up to which of the shown files metadata has been asked for.
    pub meta_upto: Option<usize>,
    pub sort: SortBy,
    pub dirs_first: bool,
    pub reverse: bool,
    pub show_hidden: bool,
    /// Only files whose name contains this are shown.
    pub filter: Option<String>,
    /// Only selected files are shown.
    pub filter_selected: bool,
    pub dirty: DirtyBit,
    /// Metadata that is still to be fetched.
    pub jobs: Vec<Job>,
    /// Whether the listing may ask the cache for slots.
    pub has_cache: bool,
    /// Calls off the work on this listing.
    pub stale: Option<Stale>,
}

/// The directory in which a path is looked for: the path itself, if it is one,
/// or else its parent.
pub open spec fn looks_in(path: PathBuf, is_dir: bool, dir: PathBuf) -> bool {
    if is_dir {
        dir == path
    } else {
        parent_bytes(path_bytes(path)) == Some(path_bytes(dir))
    }
}

impl Files {
    /// The files as entries.
    pub open spec fn entries(&self) -> Seq<FileView> {
        entries_of(self.files@)
    }

    /// What decides which files are shown.
    pub open spec fn viewing(&self) -> Viewing {
        Viewing {
            filter: filter_chars(self.filter),
            filter_selected: self.filter_selected,
            show_hidden: self.show_hidden,
        }
    }

    /// The files that are shown, in order.
    pub open spec fn shown_entries(&self) -> Seq<FileView> {
        self.entries().filter(self.viewing().shown())
    }

    /// The files that are handed out, in order.
    pub open spec fn handed_out_entries(&self) -> Seq<FileView> {
        self.entries().filter(self.viewing().handed_out())
    }

    /// The shown files that are selected, in order.
    pub open spec fn selected_entries(&self) -> Seq<FileView> {
        self.shown_entries().filter(selected())
    }

    /// The file at a position is there, and shown.
    pub open spec fn shows_at(&self, index: int) -> bool {
        0 <= index < self.files@.len() && self.viewing().shows(self.files@[index]@)
    }

    /// The listing holds the same as another.
    pub open spec fn same_as(&self, other: &Files) -> bool {
        &&& self.directory == other.directory
        &&& self.files@ == other.files@
        &&& self.len == other.len
        &&& self.refresh == other.refresh
        &&& self.meta_upto == other.meta_upto
        &&& self.sort == other.sort
        &&& self.dirs_first == other.dirs_first
        &&& self.reverse == other.reverse
        &&& self.show_hidden == other.show_hidden
        &&& self.filter == other.filter
        &&& self.filter_selected == other.filter_selected
        &&& self.dirty == other.dirty
        &&& self.jobs@ == other.jobs@
        &&& self.has_cache == other.has_cache
        &&& self.stale == other.stale
    }
}

/// A listing before anything is known of its directory.
impl Default for Files {
    fn default() -> (res: Files)
        ensures
            path_bytes(res.directory.path) == Seq::<u8>::empty(),
            res.directory@ == placeholder_for(res.directory.path),
            res.files@.len() == 0,
            res.len == 0,
            res.is_pristine(),
            res.stale is None,
    {
        Files {
            directory: File::default(),
            files: Vec::new(),
            len: 0,
            refresh: false,
            meta_upto: None,
            sort: SortBy::Name,
            dirs_first: true,
            reverse: false,
            show_hidden: false,
            filter: None,
            filter_selected: false,
            dirty: DirtyBit::new(),
            jobs: Vec::new(),
            has_cache: false,
            stale: None,
        }
    }
}

impl Clone for Files {
    fn clone(&self) -> (res: Files)
        ensures
            res.same_as(self),
    {
        let files = self.files.clone();
        assert(files@ =~= self.files@);
        Files {
            directory: self.directory.clone(),
            files,
            len: self.len,
            refresh: self.refresh,
            meta_upto: self.meta_upto,
            sort: self.sort,
            dirs_first: self.dirs_first,
            reverse: self.reverse,
            show_hidden: self.show_hidden,
            filter: self.filter.clone(),
            filter_selected: self.filter_selected,
            dirty: self.dirty,
            jobs: clone_jobs(&self.jobs),
            has_cache: self.has_cache,
            stale: self.stale.clone(),
        }
    }
}

impl Dirtyable for Files {
    open spec fn dirty(&self) -> bool {
        self.dirty.0
    }

    fn is_dirty(&self) -> (res: bool) {
        self.dirty.is_dirty()
    }

    fn set_dirty(&mut self)
        ensures
            *final(self) == (Files { dirty: DirtyBit(true), ..*old(self) }),
    {
        self.dirty.set_dirty();
    }

    fn set_clean(&mut self)
        ensures
            *final(self) == (Files { dirty: DirtyBit(false), ..*old(self) }),
    {
        self.dirty.set_clean();
    }
}

impl core::ops::Index<usize> for Files {
    type Output = File;

    /// The file at a position, shown or not.
    fn index(&self, pos: usize) -> (res: &File)
        ensures
            *res == self.files@[pos as int],
    {
        &self.files[pos]
    }
}

impl vstd::std_specs::core::IndexSpecImpl<usize> for Files {
    open spec fn index_req(&self, pos: &usize) -> bool {
        *pos < self.files@.len()
    }
}

impl Files {
    /// The settings of a new listing: sorted by name, directories first,
    /// hidden files left out, no filter, and nothing under way.
    pub open spec fn is_pristine(&self) -> bool {
        &&& !self.refresh
        &&& self.meta_upto is None
        &&& self.sort == SortBy::Name
        &&& self.dirs_first
        &&& !self.reverse
        &&& !self.show_hidden
        &&& self.filter is None
        &&& !self.filter_selected
        &&& self.dirty == DirtyBit(false)
        &&& self.jobs@.len() == 0
        &&& !self.has_cache
    }

    /// How the files are sorted.
    pub open spec fn sorting(&self) -> Sorter {
        Sorter { sort: self.sort, dirs_first: self.dirs_first, reverse: self.reverse }
    }

    /// How the files are sorted.
    pub fn sorter(&self) -> (res: Sorter)
        ensures
            res == self.sorting(),
    {
        Sorter { sort: self.sort, dirs_first: self.dirs_first, reverse: self.reverse }
    }

    /// Sorts the files.
    pub fn sort(&mut self, cache: &FsCache)
        ensures
            old(self).sorting().sorts(old(self).entries(), final(self).entries(), cache@),
            *final(self) == (Files { files: final(self).files, ..*old(self) }),
    {
        let sorter = self.sorter();
        compare_each_name(&self.files);
        par_sort(&mut self.files, &sorter, cache);
        proof {
            if sorter.sort == SortBy::Name || metadata_is_known(old(self).entries(), cache@) {
                order_is_total(sorter, old(self).entries(), cache@);
            }
        }
    }

    /// The listing with the next criterion.
    pub open spec fn cycled(&self) -> Files {
        Files { sort: next_sort(self.sort), ..*self }
    }

    /// The listing with its order turned round.
    pub open spec fn turned(&self) -> Files {
        Files { reverse: !self.reverse, ..*self }
    }

    /// The listing with its filter by selection switched.
    pub open spec fn switched(&self) -> Files {
        Files { filter_selected: !self.filter_selected, ..*self }
    }

    /// Goes on to the next criterion: name, size, time and name again.
    pub fn cycle_sort(&mut self)
        ensures
            *final(self) == old(self).cycled(),
    {
        self.sort = match self.sort {
            SortBy::Name => SortBy::Size,
            SortBy::Size => SortBy::MTime,
            SortBy::MTime => SortBy::Name,
        };
    }

    /// Turns the order round.
    pub fn reverse_sort(&mut self)
        ensures
            *final(self) == old(self).turned(),
    {
        self.reverse = !self.reverse;
    }

    /// `after` is the listing when [`Files::toggle_hidden`] has been called.
    pub open spec fn toggles_hidden(&self, after: &Files) -> bool {
        let view = Viewing { show_hidden: !self.show_hidden, ..self.viewing() };
        let joined = !self.show_hidden && self.len > 1;
        &&& after.entries() == if joined {
            without_placeholder(self.entries(), view, self.directory.path)
        } else {
            self.entries()
        }
        &&& after.len == after.shown_entries().len()
        &&& *after == (Files {
            files: after.files,
            len: after.len,
            show_hidden: !self.show_hidden,
            meta_upto: if joined {
                None
            } else {
                self.meta_upto
            },
            dirty: DirtyBit(true),
            ..*self
        })
    }

    /// Shows the hidden files, or leaves them out again. A placeholder goes
    /// when hidden files come in beside it.
    pub fn toggle_hidden(&mut self)
        ensures
            old(self).toggles_hidden(final(self)),
    {
        self.show_hidden = !self.show_hidden;
        self.set_dirty();
        assert(self.entries() == old(self).entries());

        if self.show_hidden && self.len() > 1 {
            self.remove_placeholder();

            // The files that were hidden have no metadata yet.
            self.meta_upto = None;
        }
        self.recalculate_len();
    }

    /// `after` is the listing when [`Files::set_filter`] has been called.
    pub open spec fn sets_filter(&self, filter: Option<String>, after: &Files) -> bool {
        let view = Viewing { filter: filter_chars(filter), ..self.viewing() };
        let dir = self.directory.path;
        let rest = without_placeholder(self.entries(), view, dir);
        let len = len_without_placeholder(self.entries(), view, dir, self.len);
        &&& after.entries() == if len == 0 {
            rest.push(placeholder_for(dir))
        } else {
            rest
        }
        &&& *after == (Files {
            files: after.files,
            len: if len == 0 {
                1
            } else {
                len
            },
            filter,
            dirty: DirtyBit(true),
            ..*self
        })
    }

    /// Sets the filter, or takes it away. If no file counts as shown, the
    /// directory gets a placeholder.
    pub fn set_filter(&mut self, filter: Option<String>)
        ensures
            old(self).sets_filter(filter, final(self)),
            final(self).len > 0,
    {
        self.filter = filter;
        assert(self.entries() == old(self).entries());

        // An old placeholder must not count when it is asked whether one is
        // needed.
        self.remove_placeholder();

        let ghost rest = self.entries();
        if self.len() == 0 {
            let placeholder = File::placeholder(&self.directory.path);
            self.files.push(placeholder);
            assert(self.entries() =~= rest.push(placeholder_for(self.directory.path)));
            self.len = 1;
        }
        self.set_dirty();
    }

    /// The filter.
    pub fn get_filter(&self) -> (res: Option<String>)
        ensures
            res == self.filter,
    {
        self.filter.clone()
    }

    /// Shows the selected files only, or all of them again.
    pub fn toggle_filter_selected(&mut self)
        ensures
            *final(self) == old(self).switched(),
    {
        self.filter_selected = !self.filter_selected;
    }

    /// How many files are shown.
    pub fn len(&self) -> (res: usize)
        ensures
            res == self.len,
    {
        self.len
    }

    /// Whether a path lies in the listed directory: the path itself, if it is
    /// a directory, or else its parent is the listed one.
    pub fn path_in_here(&self, path: &PathBuf, is_dir: bool) -> (res: HResult<bool>)
        requires
            is_dir || parent_bytes(path_bytes(*path)) is Some,
        ensures
            match res {
                Ok(here) => here && exists|dir: PathBuf|
                    looks_in(*path, is_dir, dir) && same_path(self.directory.path, dir),
                Err(e) => e matches HError::WrongDirectoryError { path: dir, dir: listed }
                    && looks_in(*path, is_dir, dir) && listed == self.directory.path
                    && !same_path(self.directory.path, dir),
            },
            res is Ok == (components(self.directory.path) == if is_dir {
                components(*path)
            } else {
                components(*path).drop_last()
            }),
    {
        let dir = if is_dir {
            path.clone()
        } else {
            parent_of_path(path).unwrap()
        };
        assert(looks_in(*path, is_dir, dir));
        if paths_equal(&self.directory.path, &dir) {
            Ok(true)
        } else {
            Err(HError::WrongDirectoryError { path: dir, dir: self.directory.path.clone() })
        }
    }

    /// As [`Files::path_in_here`], for any path; nothing where the path is no
    /// directory and has no parent.
    pub fn try_path_in_here(&self, path: &PathBuf, is_dir: bool) -> (res: Option<HResult<bool>>)
        ensures
            res is None == (!is_dir && parent_bytes(path_bytes(*path)) is None),
            match res {
                Some(Ok(here)) => here && exists|dir: PathBuf|
                    looks_in(*path, is_dir, dir) && same_path(self.directory.path, dir),
                Some(Err(e)) => e matches HError::WrongDirectoryError { path: dir, dir: listed }
                    && looks_in(*path, is_dir, dir) && listed == self.directory.path && !same_path(
                    self.directory.path,
                    dir,
                ),
                None => true,
            },
            res matches Some(answer) ==> (answer is Ok == (components(self.directory.path)
                == if is_dir {
                components(*path)
            } else {
                components(*path).drop_last()
            })),
    {
        if is_dir || parent_of_path(path).is_some() {
            Some(self.path_in_here(path, is_dir))
        } else {
            None
        }
    }

    /// Whether there are changes to take in and no refresh is under way.
    /// `pending` are the changes of the file system that the listing does not
    /// reflect yet, which it shares with all its copies.
    pub fn ready_to_refresh(&self, pending: &Vec<FsEvent>) -> (res: HResult<bool>)
        ensures
            res == Ok::<bool, HError>(pending@.len() > 0 && !self.refresh),
    {
        Ok(pending.len() > 0 && !self.refresh)
    }

    /// `after` is the listing, and `then` how far the refresh has got, when
    /// [`Files::get_refresh`] has returned `res`.
    pub open spec fn takes_refresh(
        &self,
        progress: Refresh,
        after: &Files,
        then: Refresh,
        res: HResult<Option<RefreshPackage>>,
    ) -> bool {
        match (self.refresh, progress) {
            (true, Refresh::Ready(package)) => {
                &&& then == Refresh::Taken
                &&& match package.new_files {
                    Some(files) => {
                        &&& res matches Ok(Some(rest)) && rest.new_files is None && rest.new_len
                            == package.new_len && rest.jobs@.len() == 0
                        &&& *after == (Files {
                            files,
                            len: package.new_len,
                            jobs: after.jobs,
                            refresh: false,
                            ..*self
                        })
                        &&& after.jobs@ == self.jobs@ + package.jobs@
                    },
                    None => {
                        &&& res == Err::<Option<RefreshPackage>, HError>(HError::NoneError)
                        &&& *after == (Files { refresh: false, ..*self })
                    },
                }
            },
            _ => {
                &&& res == Ok::<Option<RefreshPackage>, HError>(None)
                &&& *after == *self
                &&& then == progress
            },
        }
    }

    /// Takes in the result of the refresh under way, if it is there. What is
    /// returned is the package, with its files and jobs taken out. A refresh
    /// that was called off is an error, and is over. `progress` is how far the
    /// refresh has got, which the copies of the listing share: its result can be
    /// taken once. When it is taken, the listing's flag is cleared.
    pub fn get_refresh(
        &mut self,
        progress: &mut Refresh,
        record: &mut FlagRecord,
    ) -> (res: HResult<Option<RefreshPackage>>)
        ensures
            final(record)@ == old(record)@,
            final(record).flags() == old(record).flags(),
            old(self).takes_refresh(*old(progress), final(self), *final(progress), res),
            final(record).cleared() == match (
                old(self).refresh && *old(progress) is Ready,
                old(self).stale,
            ) {
                (true, Some(stale)) => old(record).cleared().push(stale),
                _ => old(record).cleared(),
            },
    {
        if !self.refresh {
            return Ok(None);
        }
        let mut got = Refresh::Taken;
        core::mem::swap(&mut got, progress);
        match got {
            Refresh::Ready(mut package) => {
                self.refresh = false;
                if let Some(stale) = &self.stale {
                    record.clear(stale);
                }
                match package.new_files.take() {
                    Some(files) => {
                        self.files = files;
                        self.jobs.append(&mut package.jobs);
                        if package.new_len != self.len() {
                            self.len = package.new_len;
                        }
                        Ok(Some(package))
                    },
                    None => Err(HError::NoneError),
                }
            },
            other => {
                *progress = other;
                Ok(None)
            },
        }
    }

    /// `after` is the listing, and `left` are the pending changes, when
    /// [`Files::process_fs_events`] has handed out work.
    pub open spec fn begins_refresh(
        &self,
        pending: Vec<FsEvent>,
        after: &Files,
        left: Vec<FsEvent>,
        work: Option<(Files, Vec<FsEvent>)>,
    ) -> bool {
        &&& left@.len() == 0
        &&& match work {
            Some((files, events)) => {
                &&& pending@.len() > 0
                &&& events == pending
                &&& *after == (Files { refresh: true, ..*self })
                &&& files.same_as(self)
            },
            None => pending@.len() == 0 && *after == *self,
        }
    }

    /// Hands out the changes that the listing does not reflect, with a copy of
    /// the listing, for a refresh to be made of them. From then on a refresh
    /// is under way, and no changes are pending for any copy of the listing.
    pub fn process_fs_events(&mut self, pending: &mut Vec<FsEvent>) -> (res: Option<
        (Files, Vec<FsEvent>),
    >)
        ensures
            old(self).begins_refresh(*old(pending), final(self), *final(pending), res),
    {
        if pending.len() > 0 {
            let mut events: Vec<FsEvent> = Vec::new();
            core::mem::swap(&mut events, pending);
            let files = self.clone();
            self.refresh = true;
            Some((files, events))
        } else {
            None
        }
    }
}

/// Showing the hidden files and leaving them out again gives the same files as
/// before, unless a file stands at the path of the directory itself, as a
/// placeholder does. The count of shown files is then the right one.
pub proof fn toggling_hidden_twice_keeps_the_files(a: Files, b: Files, c: Files)
    requires
        a.toggles_hidden(&b),
        b.toggles_hidden(&c),
        forall|i: int|
            0 <= i < a.files@.len() ==> !same_path(
                #[trigger] a.files@[i].path,
                a.directory.path,
            ),
    ensures
        c.show_hidden == a.show_hidden,
        c.entries() == a.entries(),
        c.len == a.shown_entries().len(),
{
    let dir = a.directory.path;
    lemma_no_placeholder(a.entries(), Viewing { show_hidden: true, ..a.viewing() }, dir, 0);
    assert(a.entries() == b.entries());
    assert(b.entries() == c.entries());
    assert(c.viewing() == a.viewing());
}

/// Where no file has the directory's path, no placeholder is shown.
proof fn lemma_no_placeholder(files: Seq<FileView>, view: Viewing, dir: PathBuf, start: int)
    requires
        0 <= start <= files.len(),
        forall|i: int| 0 <= i < files.len() ==> !same_path((#[trigger] files[i]).path, dir),
    ensures
        first_from(files, view.shown_at(dir), start) == files.len(),
    decreases files.len() - start,
{
    if start < files.len() {
        lemma_no_placeholder(files, view, dir, start + 1);
    }
}

/// Turning the order round twice, or filtering by selection twice, undoes it,
/// and so does going through the three criteria. Once, it alters that setting
/// and no other.
pub proof fn toggling_twice_undoes_it(a: Files)
    ensures
        a.turned().turned() == a,
        a.turned().reverse != a.reverse,
        a.turned() == (Files { reverse: a.turned().reverse, ..a }),
        a.switched().switched() == a,
        a.switched().filter_selected != a.filter_selected,
        a.switched() == (Files { filter_selected: a.switched().filter_selected, ..a }),
        a.cycled().cycled().cycled() == a,
        a.cycled().sort != a.sort,
        a.sort == SortBy::Name ==> a.cycled().sort == SortBy::Size,
        a.cycled() == (Files { sort: a.cycled().sort, ..a }),
{
}

/// A listing is sorted by its own criterion, in its own direction, with its own
/// directories first or not.
pub proof fn listings_sort_by_their_own_settings(listing: &Files)
    ensures
        listing.sorting().sort == listing.sort,
        listing.sorting().reverse == listing.reverse,
        listing.sorting().dirs_first == listing.dirs_first,
{
}

/// A listing shows a file of it exactly where its own filters and its own
/// setting for hidden files let it through. The shown files are in the order of
/// the listing, and none is left out.
pub proof fn listings_show_what_passes(listing: &Files)
    ensures
        ({
            let all = listing.entries();
            let shown = listing.shown_entries();
            let at = positions(all, listing.viewing().shown());
            &&& all.len() == listing.files@.len()
            &&& forall|i: int| 0 <= i < all.len() ==> #[trigger] all[i] == listing.files@[i]@
            &&& shown.len() == at.len()
            &&& forall|k: int|
                #![trigger at[k]]
                0 <= k < at.len() ==> 0 <= at[k] < all.len() && shown[k] == all[at[k]]
            &&& forall|j: int, k: int| 0 <= j < k < at.len() ==> at[j] < at[k]
            &&& forall|i: int|
                #![trigger all[i]]
                0 <= i < all.len() ==> (at.contains(i) <==> (listing.show_hidden || !all[i].hidden)
                    && (all[i].kind == Kind::Placeholder || (listing.filter matches Some(text)
                    ==> is_substring(all[i].name, text@)) && (listing.filter_selected
                    ==> all[i].selected)))
        }),
{
    let all = listing.entries();
    let wanted = listing.viewing().shown();
    let at = positions(all, wanted);
    positions_and_files_agree(all, wanted);
    assert forall|i: int| #![trigger all[i]] 0 <= i < all.len() implies (at.contains(i) <==> wanted(
        all[i],
    )) by {
        if at.contains(i) {
            let k = choose|k: int| 0 <= k < at.len() && at[k] == i;
            assert(wanted(all[at[k]]));
        }
    }
}

/// Setting a filter keeps every file, but that a placeholder of the directory
/// may go or come: one comes, at the end, exactly where the count of shown files
/// would be zero without the old one, and the listing never counts nothing. No
/// other setting changes, and the listing has to be drawn again.
pub proof fn filters_keep_the_files(a: Files, filter: Option<String>, b: Files)
    requires
        a.sets_filter(filter, &b),
    ensures
        b.filter == filter,
        b.len > 0,
        b.dirty.0,
        forall|file: FileView|
            !same_path(file.path, a.directory.path) ==> (#[trigger] b.entries().contains(file)
                <==> a.entries().contains(file)),
        forall|file: FileView| #[trigger]
            b.entries().contains(file) && !a.entries().contains(file) ==> file == placeholder_for(
                a.directory.path,
            ),
        (forall|i: int|
            0 <= i < a.files@.len() ==> !same_path(
                #[trigger] a.files@[i].path,
                a.directory.path,
            )) ==> if a.len == 0 {
            b.len == 1 && b.entries() == a.entries().push(placeholder_for(a.directory.path))
        } else {
            b.len == a.len && b.entries() == a.entries()
        },
        ({
            let all = a.entries();
            let dir = a.directory.path;
            let seen = exists|i: int|
                0 <= i < all.len() && same_path((#[trigger] all[i]).path, dir) && (a.show_hidden
                    || !all[i].hidden) && (all[i].kind == Kind::Placeholder || (
                filter matches Some(text) ==> is_substring(all[i].name, text@)) && (
                a.filter_selected ==> all[i].selected));
            let count = if seen && a.len > 0 {
                a.len - 1
            } else {
                a.len as int
            };
            &&& b.len == if count == 0 {
                1
            } else {
                count
            }
            &&& !seen ==> b.entries() == if count == 0 {
                all.push(placeholder_for(dir))
            } else {
                all
            }
            &&& seen ==> exists|k: int|
                #![trigger all.remove(k)]
                {
                    &&& 0 <= k < all.len()
                    &&& same_path(all[k].path, dir)
                    &&& forall|j: int| 0 <= j < k ==> !same_path((#[trigger] all[j]).path, dir)
                    &&& b.entries() == if count == 0 {
                        all.remove(k).push(placeholder_for(dir))
                    } else {
                        all.remove(k)
                    }
                }
        }),
        b == (Files { files: b.files, len: b.len, filter: b.filter, dirty: b.dirty, ..a }),
{
    let view = Viewing { filter: filter_chars(filter), ..a.viewing() };
    let dir = a.directory.path;
    let rest = without_placeholder(a.entries(), view, dir);
    let len = len_without_placeholder(a.entries(), view, dir, a.len);
    only_the_placeholder_goes(a.entries(), view, dir, a.len);
    if len == 0 {
        let new = placeholder_for(dir);
        assert forall|file: FileView| #[trigger] b.entries().contains(file) implies rest.contains(
            file,
        ) || file == new by {
            let k = choose|k: int| 0 <= k < b.entries().len() && b.entries()[k] == file;
            if k < rest.len() {
                assert(rest[k] == file);
            }
        }
        assert forall|file: FileView| rest.contains(file) implies #[trigger] b.entries().contains(
            file,
        ) by {
            let k = choose|k: int| 0 <= k < rest.len() && rest[k] == file;
            assert(b.entries()[k] == file);
        }
    }
    if forall|i: int|
        0 <= i < a.files@.len() ==> !same_path(#[trigger] a.files@[i].path, a.directory.path) {
        assert forall|i: int| 0 <= i < a.entries().len() implies !same_path(
            (#[trigger] a.entries()[i]).path,
            dir,
        ) by {
            assert(!same_path(a.files@[i].path, dir));
        }
    }
}

/// Showing the hidden files, or leaving them out, keeps every file, but that a
/// placeholder of the directory goes when hidden files come in beside others.
/// The count is then that of the shown files; metadata is asked for from the
/// beginning where hidden files come in beside others. No other setting changes,
/// and the listing has to be drawn again.
pub proof fn hiding_keeps_the_files(a: Files, b: Files)
    requires
        a.toggles_hidden(&b),
    ensures
        b.show_hidden != a.show_hidden,
        b.dirty.0,
        b.len == b.shown_entries().len(),
        forall|file: FileView|
            !same_path(file.path, a.directory.path) ==> (#[trigger] b.entries().contains(file)
                <==> a.entries().contains(file)),
        a.show_hidden || a.len <= 1 ==> b.entries() == a.entries() && b.meta_upto == a.meta_upto,
        !a.show_hidden && a.len > 1 ==> b.meta_upto is None,
        b.entries().len() <= a.entries().len() <= b.entries().len() + 1,
        !a.show_hidden && a.len > 1 ==> {
            let all = a.entries();
            let dir = a.directory.path;
            let seen = exists|i: int|
                0 <= i < all.len() && same_path((#[trigger] all[i]).path, dir) && (all[i].kind
                    == Kind::Placeholder || (a.filter matches Some(text) ==> is_substring(
                    all[i].name,
                    text@,
                )) && (a.filter_selected ==> all[i].selected));
            &&& !seen ==> b.entries() == all
            &&& seen ==> exists|k: int|
                #![trigger all.remove(k)]
                {
                    &&& 0 <= k < all.len()
                    &&& same_path(all[k].path, dir)
                    &&& forall|j: int| 0 <= j < k ==> !same_path((#[trigger] all[j]).path, dir)
                    &&& b.entries() == all.remove(k)
                }
        },
        b == (Files {
            files: b.files,
            len: b.len,
            show_hidden: b.show_hidden,
            meta_upto: b.meta_upto,
            dirty: b.dirty,
            ..a
        }),
{
    let view = Viewing { show_hidden: true, ..a.viewing() };
    only_the_placeholder_goes(a.entries(), view, a.directory.path, a.len);
}

/// What a listing hands out are its files in order, as far as its own filters
/// let them through and a dot in front of the name does not hide them. Its
/// selected files are those among the shown ones that are selected, in order.
pub proof fn listings_hand_out_what_passes(listing: &Files)
    ensures
        ({
            let all = listing.entries();
            let out = listing.handed_out_entries();
            let at = positions(all, listing.viewing().handed_out());
            &&& out.len() == at.len()
            &&& forall|k: int|
                #![trigger at[k]]
                0 <= k < at.len() ==> 0 <= at[k] < all.len() && out[k] == all[at[k]]
            &&& forall|j: int, k: int| 0 <= j < k < at.len() ==> at[j] < at[k]
            &&& forall|i: int|
                #![trigger all[i]]
                0 <= i < all.len() ==> (at.contains(i) <==> (listing.show_hidden || !(
                all[i].name.len() > 0 && all[i].name.first() == '.')) && (all[i].kind
                    == Kind::Placeholder || (listing.filter matches Some(text) ==> is_substring(
                    all[i].name,
                    text@,
                )) && (listing.filter_selected ==> all[i].selected)))
        }),
        ({
            let shown = listing.shown_entries();
            let picked = listing.selected_entries();
            let at = positions(shown, selected());
            &&& picked.len() == at.len()
            &&& forall|k: int|
                #![trigger at[k]]
                0 <= k < at.len() ==> 0 <= at[k] < shown.len() && picked[k] == shown[at[k]]
            &&& forall|j: int, k: int| 0 <= j < k < at.len() ==> at[j] < at[k]
            &&& forall|i: int|
                #![trigger shown[i]]
                0 <= i < shown.len() ==> (at.contains(i) <==> shown[i].selected)
        }),
{
    let all = listing.entries();
    lemma_positions(all, listing.viewing().handed_out());
    lemma_positions(listing.shown_entries(), selected());
}

/// The positions of files that have a property are those where it holds.
proof fn lemma_positions(files: Seq<FileView>, wanted: spec_fn(FileView) -> bool)
    ensures
        ({
            let at = positions(files, wanted);
            &&& at.len() == files.filter(wanted).len()
            &&& forall|k: int|
                #![trigger at[k]]
                0 <= k < at.len() ==> 0 <= at[k] < files.len() && files.filter(wanted)[k]
                    == files[at[k]]
            &&& forall|j: int, k: int| 0 <= j < k < at.len() ==> at[j] < at[k]
            &&& forall|i: int|
                #![trigger files[i]]
                0 <= i < files.len() ==> (at.contains(i) <==> wanted(files[i]))
        }),
{
    let at = positions(files, wanted);
    positions_and_files_agree(files, wanted);
    assert forall|i: int| #![trigger files[i]] 0 <= i < files.len() implies (at.contains(i)
        <==> wanted(files[i])) by {
        if at.contains(i) {
            let k = choose|k: int| 0 <= k < at.len() && at[k] == i;
            assert(wanted(files[at[k]]));
        }
    }
}

/// A file can be reached by its position exactly where the listing shows it.
pub proof fn positions_reach_what_is_shown(listing: &Files, index: int)
    ensures
        listing.shows_at(index) <==> {
            &&& 0 <= index < listing.files@.len()
            &&& listing.show_hidden || !listing.files@[index].hidden
            &&& listing.files@[index].kind == Kind::Placeholder || (listing.filter matches Some(
                text,
            ) ==> is_substring(listing.files@[index].name@, text@)) && (listing.filter_selected
                ==> listing.files@[index].selected)
        },
{
}

/// Work on pending changes takes all of them, once: nothing is pending
/// afterwards, and asked again there is no work. The listing stays as it was,
/// but that a refresh is under way, and the copy that goes with the changes is
/// the listing as it was.
pub proof fn pending_changes_are_handed_out_once(
    a: Files,
    pending: Vec<FsEvent>,
    b: Files,
    left: Vec<FsEvent>,
    work: Option<(Files, Vec<FsEvent>)>,
    c: Files,
    then: Vec<FsEvent>,
    more: Option<(Files, Vec<FsEvent>)>,
)
    requires
        a.begins_refresh(pending, &b, left, work),
        b.begins_refresh(left, &c, then, more),
    ensures
        work is Some <==> pending@.len() > 0,
        work matches Some((copy, events)) ==> events@ == pending@ && copy.directory == a.directory
            && copy.files@ == a.files@ && copy.len == a.len && copy.sort == a.sort && copy.reverse
            == a.reverse && copy.dirs_first == a.dirs_first && copy.show_hidden == a.show_hidden
            && copy.filter == a.filter && copy.filter_selected == a.filter_selected
            && copy.has_cache == a.has_cache && copy.stale == a.stale && b.refresh,
        b == (Files { refresh: b.refresh, ..a }),
        left@.len() == 0,
        more is None,
        c == b,
{
}

/// A refresh is taken in once. The listing then has the new files, their count
/// and, behind its own jobs, the new ones, and no refresh is under way; it keeps
/// all its settings. Before it is ready, and after it was taken, nothing
/// changes.
pub proof fn refreshes_are_taken_in_once(
    a: Files,
    progress: Refresh,
    b: Files,
    then: Refresh,
    res: HResult<Option<RefreshPackage>>,
)
    requires
        a.takes_refresh(progress, &b, then, res),
    ensures
        a.refresh && progress is Ready ==> !b.refresh && then is Taken,
        a.refresh ==> (progress matches Refresh::Ready(package) ==> (package.new_files matches Some(
            files,
        ) ==> b.files == files && b.len == package.new_len && b.jobs@ == a.jobs@ + package.jobs@
            && (res matches Ok(Some(rest)) && rest.new_files is None && rest.new_len
            == package.new_len && rest.jobs@.len() == 0))),
        a.refresh ==> (progress matches Refresh::Ready(package) ==> (package.new_files is None
            ==> (res matches Err(error) && error is NoneError) && b.files == a.files && b.len
            == a.len && b.jobs == a.jobs)),
        !a.refresh || !(progress is Ready) ==> b == a && then == progress && (res matches Ok(None)),
        b == (Files { files: b.files, len: b.len, jobs: b.jobs, refresh: b.refresh, ..a }),
        forall|c: Files, last: Refresh, again: HResult<Option<RefreshPackage>>| #[trigger]
            b.takes_refresh(then, &c, last, again) ==> c == b && last == then && (
            again matches Ok(None)),
{
}

/// A new listing is sorted by name, directories first and not turned round. It
/// shows all files but the hidden ones, nothing about it has changed, and
/// nothing is to be done.
pub proof fn new_listings_are_plain(listing: &Files)
    requires
        listing.is_pristine(),
    ensures
        listing.sorting().sort == SortBy::Name,
        listing.sorting().dirs_first,
        !listing.sorting().reverse,
        forall|file: FileView| #[trigger] listing.viewing().shows(file) <==> !file.hidden,
        !listing.dirty(),
        listing.jobs@.len() == 0,
        !listing.refresh,
        listing.meta_upto is None,
{
}

/// A copy of a listing holds the same files in the same order, shows and counts
/// the same, sorts them the same way, has the same to do and is called off with
/// it.
pub proof fn copies_hold_the_same(a: &Files, b: &Files)
    requires
        a.same_as(b),
    ensures
        a.files@ == b.files@,
        a.entries() == b.entries(),
        a.shown_entries() == b.shown_entries(),
        a.directory == b.directory,
        a.len == b.len && a.meta_upto == b.meta_upto,
        a.sorting() == b.sorting(),
        a.viewing() == b.viewing(),
        a.jobs@ == b.jobs@,
        a.refresh == b.refresh,
        a.dirty() == b.dirty(),
        a.has_cache == b.has_cache,
        a.stale == b.stale,
{
}

/// A directory is looked for in itself, and anything else in the directory that
/// its path without the last component leads to.
pub proof fn paths_are_looked_for_where_they_are(path: PathBuf, is_dir: bool, dir: PathBuf)
    requires
        looks_in(path, is_dir, dir),
    ensures
        is_dir ==> dir == path,
        !is_dir ==> parent_bytes(path_bytes(path)) is Some && parent_bytes(path_bytes(path))->0
            == path_bytes(dir),
{
}

} // verus!
