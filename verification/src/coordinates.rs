//! Places on the screen.

use vstd::prelude::*;
use vstd::std_specs::cmp::PartialEqSpec;

verus! {

/// A width and a height.
#[derive(Debug, Copy, Clone)]
pub struct Size(pub (u16, u16));

/// A column and a row.
#[derive(Debug, Copy, Clone)]
pub struct Position(pub (u16, u16));

/// A rectangle of the screen.
#[derive(Debug, Copy, Clone)]
pub struct Coordinates {
    pub size: Size,
    pub position: Position,
}

impl PartialEq for Size {
    fn eq(&self, other: &Size) -> (res: bool) {
        self.0.0 == other.0.0 && self.0.1 == other.0.1
    }
}

impl vstd::std_specs::cmp::PartialEqSpecImpl for Size {
    open spec fn obeys_eq_spec() -> bool {
        true
    }

    open spec fn eq_spec(&self, other: &Size) -> bool {
        *self == *other
    }
}

impl Eq for Size {

}

impl PartialEq for Position {
    fn eq(&self, other: &Position) -> (res: bool) {
        self.0.0 == other.0.0 && self.0.1 == other.0.1
    }
}

impl vstd::std_specs::cmp::PartialEqSpecImpl for Position {
    open spec fn obeys_eq_spec() -> bool {
        true
    }

    open spec fn eq_spec(&self, other: &Position) -> bool {
        *self == *other
    }
}

impl Eq for Position {

}

impl PartialEq for Coordinates {
    fn eq(&self, other: &Coordinates) -> (res: bool) {
        self.size == other.size && self.position == other.position
    }
}

impl vstd::std_specs::cmp::PartialEqSpecImpl for Coordinates {
    open spec fn obeys_eq_spec() -> bool {
        true
    }

    open spec fn eq_spec(&self, other: &Coordinates) -> bool {
        *self == *other
    }
}

impl Eq for Coordinates {

}

impl Position {
    /// The column.
    pub fn x(&self) -> (res: u16)
        ensures
            res == self.0.0,
    {
        self.0.0
    }
}

impl Coordinates {
    /// The width.
    pub fn xsize(&self) -> (res: u16)
        ensures
            res == self.size.0.0,
    {
        self.size.0.0
    }

    /// The height.
    pub fn ysize(&self) -> (res: u16)
        ensures
            res == self.size.0.1,
    {
        self.size.0.1
    }

    /// The upper left corner.
    pub fn top(&self) -> (res: Position)
        ensures
            res == self.position,
    {
        self.position
    }
}

/// Places are equal exactly where all four of their numbers are.
pub proof fn equal_places_agree_in_all_numbers(a: Coordinates, b: Coordinates)
    ensures
        a.size.eq_spec(&b.size) <==> a.size.0.0 == b.size.0.0 && a.size.0.1 == b.size.0.1,
        a.position.eq_spec(&b.position) <==> a.position.0.0 == b.position.0.0 && a.position.0.1
            == b.position.0.1,
        a.eq_spec(&b) <==> a.size.eq_spec(&b.size) && a.position.eq_spec(&b.position),
{
}

} // verus!
