//! When two listings count as equal.
//!
//! What is equal is what is shown and how. Jobs, a refresh under way and the
//! flag that calls it off play no part.

use vstd::prelude::*;
use vstd::std_specs::cmp::PartialEqSpec;
use crate::file::File;
use crate::files::Files;
use crate::pathname::same_path;
use crate::refresh::RefreshPackage;
use crate::viewing::filter_chars;

verus! {

/// Two lists of files are equal: as many files, and each equal to the one in
/// the same place.
pub open spec fn equal_files(a: Seq<File>, b: Seq<File>) -> bool {
    &&& a.len() == b.len()
    &&& forall|i: int| 0 <= i < a.len() ==> same_path(#[trigger] a[i].path, b[i].path)
}

/// Two packages have equal files, or neither has any.
pub open spec fn equal_packages(a: Option<Vec<File>>, b: Option<Vec<File>>) -> bool {
    match (a, b) {
        (Some(a), Some(b)) => equal_files(a@, b@),
        (None, None) => true,
        _ => false,
    }
}

/// Whether two lists of files are equal.
fn files_equal(a: &Vec<File>, b: &Vec<File>) -> (res: bool)
    ensures
        res == equal_files(a@, b@),
{
    if a.len() != b.len() {
        return false;
    }
    for i in 0..a.len()
        invariant
            a@.len() == b@.len(),
            forall|j: int| 0 <= j < i ==> same_path(#[trigger] a@[j].path, b@[j].path),
    {
        if a[i] != b[i] {
            assert(!same_path(a@[i as int].path, b@[i as int].path));
            return false;
        }
    }
    true
}

/// Whether two filters are equal.
fn filters_equal(a: &Option<String>, b: &Option<String>) -> (res: bool)
    ensures
        res == (filter_chars(*a) == filter_chars(*b)),
{
    match (a, b) {
        (Some(a), Some(b)) => *a == *b,
        (None, None) => true,
        _ => false,
    }
}

impl PartialEq for RefreshPackage {
    fn eq(&self, other: &RefreshPackage) -> (res: bool) {
        let files = match (&self.new_files, &other.new_files) {
            (Some(a), Some(b)) => files_equal(a, b),
            (None, None) => true,
            _ => false,
        };
        files && self.new_len == other.new_len
    }
}

impl vstd::std_specs::cmp::PartialEqSpecImpl for RefreshPackage {
    open spec fn obeys_eq_spec() -> bool {
        true
    }

    open spec fn eq_spec(&self, other: &RefreshPackage) -> bool {
        &&& equal_packages(self.new_files, other.new_files)
        &&& self.new_len == other.new_len
    }
}

impl Eq for RefreshPackage {

}

impl PartialEq for Files {
    fn eq(&self, other: &Files) -> (res: bool) {
        self.directory == other.directory && files_equal(&self.files, &other.files) && self.len
            == other.len && self.meta_upto == other.meta_upto && self.sort == other.sort
            && self.dirs_first == other.dirs_first && self.reverse == other.reverse
            && self.show_hidden == other.show_hidden && filters_equal(&self.filter, &other.filter)
            && self.filter_selected == other.filter_selected && self.dirty == other.dirty
    }
}

impl vstd::std_specs::cmp::PartialEqSpecImpl for Files {
    open spec fn obeys_eq_spec() -> bool {
        true
    }

    open spec fn eq_spec(&self, other: &Files) -> bool {
        &&& same_path(self.directory.path, other.directory.path)
        &&& equal_files(self.files@, other.files@)
        &&& self.len == other.len
        &&& self.meta_upto == other.meta_upto
        &&& self.sorting() == other.sorting()
        &&& self.viewing() == other.viewing()
        &&& self.dirty == other.dirty
    }
}

impl Eq for Files {

}

/// Being equal is an equivalence between listings.
pub proof fn listing_equality_is_an_equivalence(a: Files, b: Files, c: Files)
    ensures
        a.eq_spec(&a),
        a.eq_spec(&b) == b.eq_spec(&a),
        a.eq_spec(&b) && b.eq_spec(&c) ==> a.eq_spec(&c),
{
    lemma_equal_files(a.files@, b.files@);
    lemma_equal_files(b.files@, a.files@);
    if a.eq_spec(&b) && b.eq_spec(&c) {
        assert forall|i: int| 0 <= i < a.files@.len() implies same_path(
            #[trigger] a.files@[i].path,
            c.files@[i].path,
        ) by {
            assert(same_path(b.files@[i].path, c.files@[i].path));
        }
    }
}

/// Equality of lists of files is the same seen from either side.
proof fn lemma_equal_files(a: Seq<File>, b: Seq<File>)
    ensures
        equal_files(a, b) ==> equal_files(b, a),
{
    if equal_files(a, b) {
        assert forall|i: int| 0 <= i < b.len() implies same_path(#[trigger] b[i].path, a[i].path) by {
            assert(same_path(a[i].path, b[i].path));
        }
    }
}

/// A copy of a listing is equal to it.
pub proof fn copies_are_equal(a: Files, b: Files)
    requires
        a.same_as(&b),
    ensures
        a.eq_spec(&b),
{
}

/// Two listings are equal exactly where they are of the same directory, have as
/// many files, each with the path of the one in the same place, count as many as
/// shown, and agree in how they are sorted, filtered and drawn.
pub proof fn equal_listings_show_the_same(a: Files, b: Files)
    ensures
        a.eq_spec(&b) <==> {
            &&& same_path(a.directory.path, b.directory.path)
            &&& a.files@.len() == b.files@.len()
            &&& forall|i: int|
                0 <= i < a.files@.len() ==> same_path(#[trigger] a.files@[i].path, b.files@[i].path)
            &&& a.len == b.len
            &&& a.meta_upto == b.meta_upto
            &&& a.sort == b.sort && a.dirs_first == b.dirs_first && a.reverse == b.reverse
            &&& a.show_hidden == b.show_hidden && a.filter_selected == b.filter_selected
            &&& filter_chars(a.filter) == filter_chars(b.filter)
            &&& a.dirty == b.dirty
        },
{
    assert(a.viewing() == b.viewing() <==> a.show_hidden == b.show_hidden && a.filter_selected
        == b.filter_selected && filter_chars(a.filter) == filter_chars(b.filter));
}

/// Two packages are equal exactly where they count as many files as shown and
/// have the same ones, by path and in order, or none.
pub proof fn equal_packages_hold_the_same(a: RefreshPackage, b: RefreshPackage)
    ensures
        a.eq_spec(&b) <==> {
            &&& a.new_len == b.new_len
            &&& a.new_files is Some <==> b.new_files is Some
            &&& a.new_files matches Some(x) ==> (b.new_files matches Some(y) ==> x@.len() == y@.len()
                && forall|i: int|
                0 <= i < x@.len() ==> same_path(#[trigger] x@[i].path, y@[i].path))
        },
{
}

} // verus!
