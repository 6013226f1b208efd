//! Whether something has to be drawn again.

use vstd::prelude::*;

verus! {

/// Something that remembers whether it has changed since it was last drawn.
pub trait Dirtyable {
    spec fn dirty(&self) -> bool;

    fn is_dirty(&self) -> (res: bool)
        ensures
            res == self.dirty(),
    ;

    fn set_dirty(&mut self)
        ensures
            final(self).dirty(),
    ;

    fn set_clean(&mut self)
        ensures
            !final(self).dirty(),
    ;
}

/// A mark for things that have to be drawn again.
#[derive(Debug, Copy, Clone, PartialEq, Eq, Structural)]
pub struct DirtyBit(pub bool);

impl DirtyBit {
    /// A mark that is not set.
    pub fn new() -> (res: DirtyBit)
        ensures
            res == DirtyBit(false),
    {
        DirtyBit(false)
    }
}

impl Dirtyable for DirtyBit {
    open spec fn dirty(&self) -> bool {
        self.0
    }

    fn is_dirty(&self) -> (res: bool) {
        self.0
    }

    fn set_dirty(&mut self) {
        self.0 = true;
    }

    fn set_clean(&mut self) {
        self.0 = false;
    }
}

} // verus!
