//! What can stand on the screen.

use vstd::prelude::*;
use termion::event::Key;
use crate::coordinates::{Coordinates, Position, Size};
use crate::text::texts;

verus! {

/// `termion::event::Key`, a key that was pressed. It is only passed on.
#[verifier::external_type_specification]
#[verifier::external_body]
pub struct ExKey(Key);

/// Something that has a place on the screen, can be drawn there and takes
/// keys. What a widget does beyond that it says itself, in the relations that
/// tie its results, and what it has become, to what it was. One that leaves
/// them as they are here can be called at any time and promises nothing.
pub trait Widget: Sized {
    /// The widget has a size.
    open spec fn has_size(&self, size: Size) -> bool {
        true
    }

    /// The widget has a position.
    open spec fn has_position(&self, position: Position) -> bool {
        true
    }

    /// The widget stands in an area.
    open spec fn is_at(&self, area: Coordinates) -> bool {
        true
    }

    /// The widget can be put somewhere.
    open spec fn can_take(&self, coordinates: Coordinates) -> bool {
        true
    }

    /// The widget can be put somewhere, now and wherever else it has been put
    /// meanwhile.
    open spec fn can_always_take(&self, coordinates: Coordinates) -> bool {
        true
    }

    /// `after` is the widget when it has been put somewhere.
    open spec fn takes(&self, coordinates: Coordinates, after: &Self) -> bool {
        true
    }

    /// `after` is the widget with another size, and as it was otherwise.
    open spec fn resizes(&self, size: Size, after: &Self) -> bool {
        true
    }

    /// `after` is the widget with another position, and as it was otherwise.
    open spec fn moves(&self, position: Position, after: &Self) -> bool {
        true
    }

    /// The widget can be laid out anew.
    open spec fn can_refresh(&self) -> bool {
        true
    }

    /// `after` is the widget when it has been laid out anew.
    open spec fn refreshes(&self, after: &Self) -> bool {
        true
    }

    /// The widget can be drawn.
    open spec fn can_draw(&self) -> bool {
        true
    }

    /// A text draws the widget.
    open spec fn draws(&self, text: Seq<char>) -> bool {
        true
    }

    /// The widget has these lines.
    open spec fn renders(&self, lines: Seq<Seq<char>>) -> bool {
        true
    }

    /// The widget has this header.
    open spec fn is_headed(&self, header: Seq<char>) -> bool {
        true
    }

    /// The widget can take a key.
    open spec fn can_key(&self, key: Key) -> bool {
        true
    }

    /// `after` is the widget when it has taken a key.
    open spec fn keys(&self, key: Key, after: &Self) -> bool {
        true
    }

    fn render(&self) -> (res: Vec<String>)
        ensures
            self.renders(texts(res@)),
    ;

    fn get_size(&self) -> (res: &Size)
        ensures
            self.has_size(*res),
    ;

    fn get_position(&self) -> (res: &Position)
        ensures
            self.has_position(*res),
    ;

    fn set_size(&mut self, size: Size)
        ensures
            old(self).resizes(size, final(self)),
    ;

    fn set_position(&mut self, position: Position)
        ensures
            old(self).moves(position, final(self)),
    ;

    fn get_coordinates(&self) -> (res: &Coordinates)
        ensures
            self.is_at(*res),
    ;

    /// Puts the widget somewhere, where it can then be put again. Where it could
    /// always be put, it still can.
    fn set_coordinates(&mut self, coordinates: &Coordinates)
        requires
            old(self).can_take(*coordinates),
        ensures
            old(self).takes(*coordinates, final(self)),
            final(self).is_at(*coordinates),
            final(self).can_take(*coordinates),
            forall|c: Coordinates| #[trigger]
                old(self).can_always_take(c) ==> {
                    &&& final(self).can_always_take(c)
                    &&& final(self).can_take(c)
                },
    ;

    fn render_header(&self) -> (res: String)
        ensures
            self.is_headed(res@),
    ;

    fn refresh(&mut self)
        requires
            old(self).can_refresh(),
        ensures
            old(self).refreshes(final(self)),
    ;

    fn get_drawlist(&self) -> (res: String)
        requires
            self.can_draw(),
        ensures
            self.draws(res@),
    ;

    fn on_key(&mut self, key: Key)
        requires
            old(self).can_key(key),
        ensures
            old(self).keys(key, final(self)),
    ;
}

} // verus!
