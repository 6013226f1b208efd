//! The flag by which one thread tells another that its work is no longer
//! wanted.

use vstd::prelude::*;
use async_value::Stale;

verus! {

/// `async_value::Stale`, a flag that all its clones share. Any thread may set
/// or clear it at any time.
#[verifier::external_type_specification]
#[verifier::external_body]
pub struct ExStale(Stale);

/// `Stale::new` makes a flag of its own, which is not set. Whoever gets a
/// clone of it may set it, so nothing is promised.
pub assume_specification[ Stale::new ]() -> Stale;

/// `Stale::clone` gives another hold on the same flag.
pub assume_specification[ <Stale as Clone>::clone ](stale: &Stale) -> (res: Stale)
    ensures
        res == *stale,
;

/// Calls `Stale::is_stale`, and takes a failure for a set flag. Other threads
/// decide what it returns, so nothing is promised of it.
#[verifier::external_body]
fn is_stale(stale: &Stale) -> (res: bool) {
    stale.is_stale().unwrap_or(true)
}

/// Calls `Stale::set_fresh`, which clears the flag. It may be set again before
/// anyone reads it, so nothing is promised.
#[verifier::external_body]
fn set_fresh(stale: &Stale) {
    stale.set_fresh().ok();
}

/// What was done with flags: the answers they gave when they were asked, which
/// they were, and which were cleared, all in order. Only asking and clearing
/// add to it.
pub struct FlagRecord {
    given: Vec<bool>,
    asked: Ghost<Seq<Stale>>,
    cleared: Ghost<Seq<Stale>>,
}

impl View for FlagRecord {
    type V = Seq<bool>;

    /// The answers.
    closed spec fn view(&self) -> Seq<bool> {
        self.given@
    }
}

impl FlagRecord {
    /// The flags that were asked, one for each answer.
    pub closed spec fn flags(&self) -> Seq<Stale> {
        self.asked@
    }

    /// The flags that were cleared.
    pub closed spec fn cleared(&self) -> Seq<Stale> {
        self.cleared@
    }

    /// Nothing has been done yet.
    pub fn new() -> (res: FlagRecord)
        ensures
            res@ == Seq::<bool>::empty(),
            res.flags() == Seq::<Stale>::empty(),
            res.cleared() == Seq::<Stale>::empty(),
    {
        FlagRecord { given: Vec::new(), asked: Ghost(Seq::empty()), cleared: Ghost(Seq::empty()) }
    }

    /// Asks a flag whether work has been called off.
    pub fn ask(&mut self, stale: &Stale) -> (res: bool)
        ensures
            final(self)@ == old(self)@.push(res),
            final(self).flags() == old(self).flags().push(*stale),
            final(self).cleared() == old(self).cleared(),
    {
        let answer = is_stale(stale);
        self.given.push(answer);
        self.asked = Ghost(self.asked@.push(*stale));
        answer
    }

    /// Clears a flag: work is wanted again.
    pub fn clear(&mut self, stale: &Stale)
        ensures
            final(self)@ == old(self)@,
            final(self).flags() == old(self).flags(),
            final(self).cleared() == old(self).cleared().push(*stale),
    {
        set_fresh(stale);
        self.cleared = Ghost(self.cleared@.push(*stale));
    }

    /// The answers in order.
    pub fn as_slice(&self) -> (res: &[bool])
        ensures
            res@ == self@,
    {
        self.given.as_slice()
    }
}

} // verus!
