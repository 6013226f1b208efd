//! The order in which a directory's files are listed.

use vstd::prelude::*;
use core::cmp::Ordering;
use rayon::slice::ParallelSliceMut;
use crate::file::{entries_of, File, FileView, Kind};
use crate::fscache::{CacheView, FsCache};
use crate::jobs::meta_of;

verus! {

/// What files are sorted by.
#[derive(Debug, Copy, Clone, PartialEq, Eq, Hash, Structural)]
pub enum SortBy {
    Name,
    Size,
    MTime,
}

impl SortBy {
    /// The word that [`SortBy::text`] returns.
    pub open spec fn word(self) -> Seq<char> {
        match self {
            SortBy::Name => "name"@,
            SortBy::Size => "size"@,
            SortBy::MTime => "mtime"@,
        }
    }

    /// The criterion in a word.
    pub fn text(&self) -> (res: String)
        ensures
            res@ == self.word(),
    {
        match self {
            SortBy::Name => "name".to_owned(),
            SortBy::Size => "size".to_owned(),
            SortBy::MTime => "mtime".to_owned(),
        }
    }
}

/// The order that `alphanumeric_sort::compare_str` finds between two texts.
pub uninterp spec fn name_order(a: Seq<char>, b: Seq<char>) -> Ordering;

/// Calls `alphanumeric_sort::compare_str`. It goes through both texts piece by
/// piece, a piece being a run of digits or another character: runs go by their
/// number, characters by their code, but behind a run those above 255 before
/// the others, and a text that ends goes before one that does not. Leading
/// zeros decide where nothing else does. That makes a total order: swapped
/// texts compare the opposite way, what does not come after `a` does not come
/// after what `b` does not come after, if `a` does not come after `b`, and equal
/// texts compare alike with all others.
#[verifier::external_body]
pub(crate) fn compare_str(a: &str, b: &str) -> (res: Ordering)
    ensures
        res == name_order(a@, b@),
        name_order(b@, a@) == opposite(res),
        res != Ordering::Greater ==> forall|x: Seq<char>, y: Seq<char>|
            #![trigger name_order(x, a@), name_order(b@, y)]
            name_order(x, a@) != Ordering::Greater && name_order(b@, y) != Ordering::Greater
                ==> name_order(x, y) != Ordering::Greater,
        res == Ordering::Equal ==> forall|x: Seq<char>| #[trigger]
            name_order(x, a@) == opposite(name_order(b@, x)),
{
    alphanumeric_sort::compare_str(a, b)
}

/// The order of two sizes.
pub open spec fn size_order(a: u64, b: u64) -> Ordering {
    if a < b {
        Ordering::Less
    } else if a == b {
        Ordering::Equal
    } else {
        Ordering::Greater
    }
}

/// The order of two points in time.
pub open spec fn time_order(a: i64, b: i64) -> Ordering {
    if a < b {
        Ordering::Less
    } else if a == b {
        Ordering::Equal
    } else {
        Ordering::Greater
    }
}

/// The other direction of an order.
pub open spec fn opposite(order: Ordering) -> Ordering {
    match order {
        Ordering::Less => Ordering::Greater,
        Ordering::Equal => Ordering::Equal,
        Ordering::Greater => Ordering::Less,
    }
}

/// How files are sorted.
#[derive(Debug, Copy, Clone)]
pub struct Sorter {
    pub sort: SortBy,
    pub dirs_first: bool,
    pub reverse: bool,
}

impl Sorter {
    /// Directories before all else, if they are to come first.
    pub open spec fn dir_order(self, a: FileView, b: FileView) -> Ordering {
        if self.dirs_first && a.kind == Kind::Directory && b.kind != Kind::Directory {
            Ordering::Less
        } else if self.dirs_first && a.kind != Kind::Directory && b.kind == Kind::Directory {
            Ordering::Greater
        } else {
            Ordering::Equal
        }
    }

    /// The order by the criterion alone, not reversed. The largest and the
    /// latest file comes first, among equals the last by name; files whose
    /// metadata is unknown are equal to all others.
    pub open spec fn plain_order(self, a: FileView, b: FileView, cache: CacheView) -> Ordering {
        match self.sort {
            SortBy::Name => name_order(a.name, b.name),
            SortBy::Size => match (meta_of(a, cache), meta_of(b, cache)) {
                (Some(ma), Some(mb)) => if ma.size == mb.size {
                    name_order(b.name, a.name)
                } else {
                    size_order(mb.size, ma.size)
                },
                _ => Ordering::Equal,
            },
            SortBy::MTime => match (meta_of(a, cache), meta_of(b, cache)) {
                (Some(ma), Some(mb)) => if ma.mtime == mb.mtime {
                    name_order(b.name, a.name)
                } else {
                    time_order(mb.mtime, ma.mtime)
                },
                _ => Ordering::Equal,
            },
        }
    }

    /// The order of two files. Reversing does not touch the place of the
    /// directories.
    pub open spec fn order(self, a: FileView, b: FileView, cache: CacheView) -> Ordering {
        let by_kind = self.dir_order(a, b);
        if by_kind != Ordering::Equal {
            by_kind
        } else if self.reverse {
            self.plain_order(b, a, cache)
        } else {
            self.plain_order(a, b, cache)
        }
    }

    /// The order is a total one on these files: the same seen from either
    /// side, and transitive.
    pub open spec fn is_total_on(self, files: Seq<FileView>, cache: CacheView) -> bool {
        &&& forall|i: int, j: int|
            #![trigger files[i], files[j]]
            0 <= i < files.len() && 0 <= j < files.len() ==> self.order(files[j], files[i], cache)
                == opposite(self.order(files[i], files[j], cache))
        &&& forall|i: int, j: int, k: int|
            #![trigger files[i], files[j], files[k]]
            0 <= i < files.len() && 0 <= j < files.len() && 0 <= k < files.len() && self.order(
                files[i],
                files[j],
                cache,
            ) != Ordering::Greater && self.order(files[j], files[k], cache) != Ordering::Greater
                ==> self.order(files[i], files[k], cache) != Ordering::Greater
    }

    /// No file comes after one that should follow it.
    pub open spec fn is_sorted(self, files: Seq<FileView>, cache: CacheView) -> bool {
        forall|i: int, j: int|
            #![trigger files[i], files[j]]
            0 <= i < j < files.len() ==> self.order(files[i], files[j], cache) != Ordering::Greater
    }

    /// The same files in another order, which is sorted where the order is a
    /// total one.
    pub open spec fn sorts_where_total(
        self,
        before: Seq<FileView>,
        after: Seq<FileView>,
        cache: CacheView,
    ) -> bool {
        &&& after.to_multiset() == before.to_multiset()
        &&& self.is_total_on(before, cache) ==> self.is_sorted(after, cache)
    }

    /// The same files, sorted. By size or time that can only be promised where
    /// the order is a total one, as it is where all metadata is known.
    pub open spec fn sorts(
        self,
        before: Seq<FileView>,
        after: Seq<FileView>,
        cache: CacheView,
    ) -> bool {
        &&& self.sorts_where_total(before, after, cache)
        &&& self.sort == SortBy::Name || metadata_is_known(before, cache) ==> self.is_sorted(
            after,
            cache,
        )
    }

    /// Compares two files by their kind.
    fn compare_kinds(&self, a: &File, b: &File) -> (res: Ordering)
        ensures
            res == self.dir_order(a@, b@),
    {
        if self.dirs_first && a.is_dir() && !b.is_dir() {
            Ordering::Less
        } else if self.dirs_first && !a.is_dir() && b.is_dir() {
            Ordering::Greater
        } else {
            Ordering::Equal
        }
    }

    /// Compares two files by the criterion.
    fn compare_plain(&self, a: &File, b: &File, cache: &FsCache) -> (res: Ordering)
        ensures
            res == self.plain_order(a@, b@, cache@),
            self.plain_order(b@, a@, cache@) == opposite(res),
    {
        match self.sort {
            SortBy::Name => compare_str(a.name.as_str(), b.name.as_str()),
            SortBy::Size => match (a.meta(cache), b.meta(cache)) {
                (Some(ma), Some(mb)) => if ma.size == mb.size {
                    compare_str(b.name.as_str(), a.name.as_str())
                } else {
                    mb.size.cmp(&ma.size)
                },
                _ => Ordering::Equal,
            },
            SortBy::MTime => match (a.meta(cache), b.meta(cache)) {
                (Some(ma), Some(mb)) => if ma.mtime == mb.mtime {
                    compare_str(b.name.as_str(), a.name.as_str())
                } else {
                    mb.mtime.cmp(&ma.mtime)
                },
                _ => Ordering::Equal,
            },
        }
    }

    /// Compares two files. The other way round the answer is the opposite one,
    /// so that a file is equal to itself.
    pub fn compare(&self, a: &File, b: &File, cache: &FsCache) -> (res: Ordering)
        ensures
            res == self.order(a@, b@, cache@),
            self.order(b@, a@, cache@) == opposite(res),
    {
        match self.compare_kinds(a, b) {
            Ordering::Equal => if self.reverse {
                self.compare_plain(b, a, cache)
            } else {
                self.compare_plain(a, b, cache)
            },
            by_kind => by_kind,
        }
    }
}

/// Calls rayon's `par_sort_unstable_by` with [`Sorter::compare`]. The slice
/// keeps its elements, and is sorted where the comparison is a total order on
/// them; how elements that compare equal end up is left open.
#[verifier::external_body]
pub(crate) fn par_sort(files: &mut Vec<File>, sorter: &Sorter, cache: &FsCache)
    ensures
        sorter.sorts_where_total(entries_of(old(files)@), entries_of(final(files)@), cache@),
{
    files.par_sort_unstable_by(|a, b| sorter.compare(a, b, cache));
}

/// The names of some files are totally ordered by [`name_order`].
pub open spec fn names_are_ordered(files: Seq<FileView>) -> bool {
    &&& forall|i: int, j: int|
        #![trigger files[i], files[j]]
        0 <= i < files.len() && 0 <= j < files.len() ==> name_order(files[j].name, files[i].name)
            == opposite(name_order(files[i].name, files[j].name))
    &&& forall|i: int, j: int, k: int|
        #![trigger files[i], files[j], files[k]]
        0 <= i < files.len() && 0 <= j < files.len() && 0 <= k < files.len() && name_order(
            files[i].name,
            files[j].name,
        ) != Ordering::Greater && name_order(files[j].name, files[k].name) != Ordering::Greater
            ==> name_order(files[i].name, files[k].name) != Ordering::Greater
}

/// Compares each name with itself, which shows that the names are totally
/// ordered.
pub(crate) fn compare_each_name(files: &Vec<File>)
    ensures
        names_are_ordered(entries_of(files@)),
{
    let ghost all = entries_of(files@);
    for i in 0..files.len()
        invariant
            all == entries_of(files@),
            forall|j: int, x: Seq<char>|
                0 <= j < i ==> #[trigger] name_order(x, all[j].name) == opposite(
                    name_order(all[j].name, x),
                ),
            forall|j: int, x: Seq<char>, y: Seq<char>|
                #![trigger name_order(x, all[j].name), name_order(all[j].name, y)]
                0 <= j < i && name_order(x, all[j].name) != Ordering::Greater && name_order(
                    all[j].name,
                    y,
                ) != Ordering::Greater ==> name_order(x, y) != Ordering::Greater,
    {
        let name = files[i].name.as_str();
        assert(forall|j: int| j == i ==> all[j].name == name@);
        let _ = compare_str(name, name);
    }
}

/// The metadata of all files is known.
pub open spec fn metadata_is_known(files: Seq<FileView>, cache: CacheView) -> bool {
    forall|i: int| 0 <= i < files.len() ==> meta_of(#[trigger] files[i], cache) is Some
}

/// Files can be sorted by name if their names are totally ordered, and by size
/// or time if besides their metadata is known.
pub proof fn order_is_total(sorter: Sorter, files: Seq<FileView>, cache: CacheView)
    requires
        names_are_ordered(files),
        sorter.sort == SortBy::Name || metadata_is_known(files, cache),
    ensures
        sorter.is_total_on(files, cache),
{
    assert forall|i: int, j: int, k: int|
        #![trigger files[i], files[j], files[k]]
        0 <= i < files.len() && 0 <= j < files.len() && 0 <= k < files.len() && sorter.order(
            files[i],
            files[j],
            cache,
        ) != Ordering::Greater && sorter.order(files[j], files[k], cache)
            != Ordering::Greater implies sorter.order(files[i], files[k], cache)
        != Ordering::Greater by {
        let (a, b, c) = (files[i], files[j], files[k]);
        assert(name_order(b.name, a.name) == opposite(name_order(a.name, b.name)));
        assert(name_order(c.name, b.name) == opposite(name_order(b.name, c.name)));
        assert(name_order(c.name, a.name) == opposite(name_order(a.name, c.name)));
        assert(name_order(a.name, b.name) != Ordering::Greater && name_order(b.name, c.name)
            != Ordering::Greater ==> name_order(a.name, c.name) != Ordering::Greater);
        assert(name_order(c.name, b.name) != Ordering::Greater && name_order(b.name, a.name)
            != Ordering::Greater ==> name_order(c.name, a.name) != Ordering::Greater);
    }
}

/// In a sorted listing that puts directories first, no directory follows a
/// file that is none.
pub proof fn directories_come_first(sorter: Sorter, files: Seq<FileView>, cache: CacheView)
    requires
        sorter.dirs_first,
        sorter.is_sorted(files, cache),
    ensures
        forall|i: int, j: int|
            #![trigger files[i], files[j]]
            0 <= i < j < files.len() && files[j].kind == Kind::Directory ==> files[i].kind
                == Kind::Directory,
{
}

/// Turning the order round swaps any two files, but for a directory and a file
/// that is none if directories come first: those stay as they are.
pub proof fn reversing_swaps_all_but_kinds(
    sorter: Sorter,
    a: FileView,
    b: FileView,
    cache: CacheView,
)
    ensures
        ({
            let turned = Sorter { reverse: !sorter.reverse, ..sorter };
            if sorter.dirs_first && (a.kind == Kind::Directory) != (b.kind == Kind::Directory) {
                turned.order(a, b, cache) == sorter.order(a, b, cache)
            } else {
                turned.order(a, b, cache) == sorter.order(b, a, cache)
            }
        }),
{
}

/// In a listing sorted by size, no larger file follows a smaller one of the
/// same kind; by time, no later one an earlier one.
pub proof fn largest_and_latest_come_first(
    sorter: Sorter,
    files: Seq<FileView>,
    cache: CacheView,
    i: int,
    j: int,
)
    requires
        !sorter.reverse,
        sorter.is_sorted(files, cache),
        0 <= i < j < files.len(),
        !sorter.dirs_first || (files[i].kind == Kind::Directory) == (files[j].kind
            == Kind::Directory),
    ensures
        meta_of(files[i], cache) matches Some(mi) ==> meta_of(files[j], cache) matches Some(mj)
            ==> {
            &&& sorter.sort == SortBy::Size ==> mi.size >= mj.size
            &&& sorter.sort == SortBy::MTime ==> mi.mtime >= mj.mtime
        },
{
    assert(sorter.order(files[i], files[j], cache) != Ordering::Greater);
}

/// The criterion that follows another.
pub open spec fn next_sort(sort: SortBy) -> SortBy {
    match sort {
        SortBy::Name => SortBy::Size,
        SortBy::Size => SortBy::MTime,
        SortBy::MTime => SortBy::Name,
    }
}

/// By size follows by name, by time follows by size, and by name again follows
/// by time. Each criterion is called by its own word.
pub proof fn criteria_follow_each_other(sort: SortBy)
    ensures
        next_sort(sort) == SortBy::Size <==> sort == SortBy::Name,
        next_sort(sort) == SortBy::MTime <==> sort == SortBy::Size,
        next_sort(sort) == SortBy::Name <==> sort == SortBy::MTime,
        sort.word() == "name"@ <==> sort == SortBy::Name,
        sort.word() == "size"@ <==> sort == SortBy::Size,
        sort.word() == "mtime"@ <==> sort == SortBy::MTime,
{
    reveal_strlit("name");
    reveal_strlit("size");
    reveal_strlit("mtime");
    assert("name"@[0] != "size"@[0]);
}

/// Three steps lead back to the same criterion, and fewer do not.
pub proof fn three_steps_cycle_through_the_criteria(sort: SortBy)
    ensures
        next_sort(next_sort(next_sort(sort))) == sort,
        next_sort(sort) != sort,
        next_sort(next_sort(sort)) != sort,
{
}

/// In a sorted listing, of any two files that no kind parts, the one that
/// stands first does not come after the other: by name, the earlier name first,
/// or the later one if the order is turned round; by size and time, the larger
/// and the later file first, or the other way round, and among equals the later
/// name first, or the earlier one. No directory follows a file that is none, if
/// directories come first. No file is lost or added.
pub proof fn sorted_files_follow_the_settings(
    sorter: Sorter,
    before: Seq<FileView>,
    after: Seq<FileView>,
    cache: CacheView,
    i: int,
    j: int,
)
    requires
        sorter.sorts(before, after, cache),
        sorter.sort == SortBy::Name || forall|k: int|
            0 <= k < before.len() ==> meta_of(#[trigger] before[k], cache) is Some,
        0 <= i < j < after.len(),
    ensures
        after.to_multiset() == before.to_multiset(),
        after.len() == before.len(),
        sorter.dirs_first && after[j].kind == Kind::Directory ==> after[i].kind == Kind::Directory,
        !sorter.dirs_first || (after[i].kind == Kind::Directory) == (after[j].kind
            == Kind::Directory) ==> {
            let forwards = name_order(after[i].name, after[j].name) != Ordering::Greater;
            let backwards = name_order(after[j].name, after[i].name) != Ordering::Greater;
            match sorter.sort {
                SortBy::Name => if sorter.reverse {
                    backwards
                } else {
                    forwards
                },
                SortBy::Size => meta_of(after[i], cache) matches Some(mi) && meta_of(
                    after[j],
                    cache,
                ) matches Some(mj) && if sorter.reverse {
                    mi.size < mj.size || mi.size == mj.size && forwards
                } else {
                    mi.size > mj.size || mi.size == mj.size && backwards
                },
                SortBy::MTime => meta_of(after[i], cache) matches Some(mi) && meta_of(
                    after[j],
                    cache,
                ) matches Some(mj) && if sorter.reverse {
                    mi.mtime < mj.mtime || mi.mtime == mj.mtime && forwards
                } else {
                    mi.mtime > mj.mtime || mi.mtime == mj.mtime && backwards
                },
            }
        },
{
    before.to_multiset_ensures();
    after.to_multiset_ensures();
    lemma_from_before(before, after, i);
    lemma_from_before(before, after, j);
    assert(sorter.sort == SortBy::Name || metadata_is_known(before, cache));
    assert(sorter.order(after[i], after[j], cache) != Ordering::Greater);
}

/// Where the same files stand in another order, each was there before.
proof fn lemma_from_before(before: Seq<FileView>, after: Seq<FileView>, i: int)
    requires
        after.to_multiset() == before.to_multiset(),
        0 <= i < after.len(),
    ensures
        exists|k: int| 0 <= k < before.len() && #[trigger] before[k] == after[i],
{
    before.to_multiset_ensures();
    after.to_multiset_ensures();
    assert(after.contains(after[i]));
    assert(before.to_multiset().count(after[i]) > 0);
    assert(before.contains(after[i]));
}

} // verus!
