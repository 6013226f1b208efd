//! A stack of widgets of which the two topmost stand side by side, with a
//! preview beside them.

use vstd::prelude::*;
use vstd::string::StringExecFns;
use termion::event::Key;
use crate::coordinates::{Coordinates, Position, Size};
use crate::text::texts;
use crate::widget::Widget;

verus! {

/// Three columns: the widget below the top of the stack, the one on top of it,
/// and the preview.
pub struct MillerColumns<T, P> {
    pub widgets: Vec<T>,
    pub preview: P,
    /// The width of each column, in hundredths of the whole.
    pub ratio: (u16, u16, u16),
    pub coordinates: Coordinates,
}

/// A part of a width, in hundredths.
pub open spec fn share(width: u16, hundredths: u16) -> int {
    width * hundredths / 100
}

/// The columns can be computed: no width or position is too large for its type.
pub open spec fn fits(area: Coordinates, ratio: (u16, u16, u16)) -> bool {
    let width = area.size.0.0;
    &&& width * ratio.0 <= u16::MAX
    &&& width * ratio.1 <= u16::MAX
    &&& width * ratio.2 <= u16::MAX
    &&& share(width, ratio.0) + share(width, ratio.1) + 3 <= u16::MAX
}

/// The left column. It begins where the whole begins.
pub open spec fn left_area(area: Coordinates, ratio: (u16, u16, u16)) -> Coordinates {
    Coordinates {
        size: Size((share(area.size.0.0, ratio.0) as u16, area.size.0.1)),
        position: area.position,
    }
}

/// The middle column. Its row is the column in which the whole begins.
pub open spec fn main_area(area: Coordinates, ratio: (u16, u16, u16)) -> Coordinates {
    Coordinates {
        size: Size((share(area.size.0.0, ratio.1) as u16, area.size.0.1)),
        position: Position(((share(area.size.0.0, ratio.0) + 2) as u16, area.position.0.0)),
    }
}

/// The right column. Its row is the column in which the whole begins.
pub open spec fn preview_area(area: Coordinates, ratio: (u16, u16, u16)) -> Coordinates {
    Coordinates {
        size: Size((share(area.size.0.0, ratio.2) as u16, area.size.0.1)),
        position: Position(
            (
                (share(area.size.0.0, ratio.0) + share(area.size.0.0, ratio.1) + 3) as u16,
                area.position.0.0,
            ),
        ),
    }
}

/// The widgets and the preview can be put into their columns.
pub open spec fn can_lay_out<T: Widget, P: Widget>(
    widgets: Seq<T>,
    preview: P,
    area: Coordinates,
    ratio: (u16, u16, u16),
) -> bool {
    &&& fits(area, ratio)
    &&& widgets.len() > 0
    &&& widgets.last().can_take(main_area(area, ratio))
    &&& widgets.len() >= 2 ==> widgets[widgets.len() - 2].can_take(left_area(area, ratio))
    &&& preview.can_take(preview_area(area, ratio))
}

/// The widgets and the preview can be put into their columns, and could still
/// be if they had been put elsewhere meanwhile.
pub open spec fn can_always_lay_out<T: Widget, P: Widget>(
    widgets: Seq<T>,
    preview: P,
    area: Coordinates,
    ratio: (u16, u16, u16),
) -> bool {
    &&& can_lay_out(widgets, preview, area, ratio)
    &&& widgets.last().can_always_take(main_area(area, ratio))
    &&& widgets.len() >= 2 ==> widgets[widgets.len() - 2].can_always_take(left_area(area, ratio))
    &&& preview.can_always_take(preview_area(area, ratio))
}

/// `after` is a widget when it has been put into an area: it stands there, can
/// be put there again, and can be put wherever it always could.
pub open spec fn puts<T: Widget>(before: T, area: Coordinates, after: T) -> bool {
    &&& before.takes(area, &after)
    &&& after.is_at(area)
    &&& after.can_take(area)
    &&& forall|c: Coordinates| #[trigger]
        before.can_always_take(c) ==> after.can_always_take(c) && after.can_take(c)
}

impl<T: Widget, P: Widget> MillerColumns<T, P> {
    /// `after` is this with the widgets and the preview put into the columns
    /// of an area: those that are not seen stay as they were.
    pub open spec fn lays_out(&self, area: Coordinates, after: &Self) -> bool {
        let n = self.widgets@.len();
        &&& after.widgets@.len() == n
        &&& forall|i: int| 0 <= i < n - 2 ==> #[trigger] after.widgets@[i] == self.widgets@[i]
        &&& n >= 2 ==> puts(
            self.widgets@[n - 2],
            left_area(area, self.ratio),
            after.widgets@[n - 2],
        )
        &&& n >= 1 ==> puts(
            self.widgets@[n - 1],
            main_area(area, self.ratio),
            after.widgets@[n - 1],
        )
        &&& puts(self.preview, preview_area(area, self.ratio), after.preview)
        &&& after.ratio == self.ratio
        &&& after.coordinates == area
    }

    /// `after` is this with a widget on top of the stack: it is put into the
    /// middle column, and then all are laid out.
    pub open spec fn pushes(&self, widget: T, after: &Self) -> bool {
        exists|placed: T, stacked: Self|
            #![trigger puts(widget, main_area(self.coordinates, self.ratio), placed),
                stacked.lays_out(self.coordinates, after)]
            {
                &&& puts(widget, main_area(self.coordinates, self.ratio), placed)
                &&& stacked.widgets@ == self.widgets@.push(placed)
                &&& stacked == (MillerColumns { widgets: stacked.widgets, ..*self })
                &&& stacked.lays_out(self.coordinates, after)
            }
    }

    /// `after` is this without the topmost widget, and the rest laid out.
    pub open spec fn pops(&self, after: &Self) -> bool {
        exists|rest: Self|
            #![trigger rest.lays_out(self.coordinates, after)]
            {
                &&& rest.widgets@ == self.widgets@.drop_last()
                &&& rest == (MillerColumns { widgets: rest.widgets, ..*self })
                &&& rest.lays_out(self.coordinates, after)
            }
    }

    /// `after` is this with a widget, put into the left column, below all
    /// others.
    pub open spec fn prepends(&self, widget: T, after: &Self) -> bool {
        &&& after.widgets@.len() == self.widgets@.len() + 1
        &&& puts(widget, left_area(self.coordinates, self.ratio), after.widgets@[0])
        &&& after.widgets@.drop_first() == self.widgets@
        &&& *after == (MillerColumns { widgets: after.widgets, ..*self })
    }

    /// A text draws the left column, which is empty where there is no widget
    /// for it.
    pub open spec fn draws_left(&self, text: Seq<char>) -> bool {
        if self.widgets@.len() >= 2 {
            self.widgets@[self.widgets@.len() - 2].draws(text)
        } else {
            text.len() == 0
        }
    }

    /// Columns of equal width, with nothing in them but a preview.
    pub fn new(coordinates: Coordinates, preview: P) -> (res: Self)
        ensures
            res.widgets@.len() == 0,
            res.preview == preview,
            res.ratio == (33u16, 33u16, 33u16),
            res.coordinates == coordinates,
    {
        MillerColumns { widgets: Vec::new(), coordinates, ratio: (33, 33, 33), preview }
    }

    /// The areas of the left, the middle and the right column.
    pub fn calculate_coordinates(&self) -> (res: (Coordinates, Coordinates, Coordinates))
        requires
            fits(self.coordinates, self.ratio),
        ensures
            res.0 == left_area(self.coordinates, self.ratio),
            res.1 == main_area(self.coordinates, self.ratio),
            res.2 == preview_area(self.coordinates, self.ratio),
    {
        let xsize = self.coordinates.xsize();
        let ysize = self.coordinates.ysize();
        let top = self.coordinates.top().x();
        let ratio = self.ratio;

        let left_xsize: u16 = xsize * ratio.0 / 100;
        let left_size = Size((left_xsize, ysize));
        let left_pos = self.coordinates.top();

        let main_xsize: u16 = xsize * ratio.1 / 100;
        let main_size = Size((main_xsize, ysize));
        let main_pos = Position((left_xsize + 2, top));

        let preview_xsize: u16 = xsize * ratio.2 / 100;
        let preview_size = Size((preview_xsize, ysize));
        let preview_pos = Position((left_xsize + main_xsize + 3, top));

        let left_coords = Coordinates { size: left_size, position: left_pos };
        let main_coords = Coordinates { size: main_size, position: main_pos };
        let preview_coords = Coordinates { size: preview_size, position: preview_pos };
        (left_coords, main_coords, preview_coords)
    }

    /// Puts a widget on top of the stack, into the middle column.
    pub fn push_widget(&mut self, widget: T)
        requires
            can_lay_out(
                old(self).widgets@.push(widget),
                old(self).preview,
                old(self).coordinates,
                old(self).ratio,
            ),
        ensures
            old(self).pushes(widget, final(self)),
    {
        let ghost pushed = widget;
        let mut widget = widget;
        let main_coords = self.calculate_coordinates().1;
        widget.set_coordinates(&main_coords);
        assert(puts(pushed, main_coords, widget));
        self.widgets.push(widget);
        let ghost stacked = *self;
        self.refresh();
        assert(stacked.lays_out(old(self).coordinates, self));
    }

    /// Takes the topmost widget off the stack. One must be left.
    pub fn pop_widget(&mut self) -> (res: Option<T>)
        requires
            old(self).widgets@.len() >= 2,
            can_lay_out(
                old(self).widgets@.drop_last(),
                old(self).preview,
                old(self).coordinates,
                old(self).ratio,
            ),
        ensures
            res == Some(old(self).widgets@.last()),
            old(self).pops(final(self)),
    {
        let widget = self.widgets.pop();
        let ghost rest = *self;
        assert(rest.widgets@ =~= old(self).widgets@.drop_last());
        self.refresh();
        assert(rest.lays_out(old(self).coordinates, self));
        widget
    }

    /// Puts a widget below all others, for the left column.
    pub fn prepend_widget(&mut self, widget: T)
        requires
            fits(old(self).coordinates, old(self).ratio),
            widget.can_take(left_area(old(self).coordinates, old(self).ratio)),
        ensures
            old(self).prepends(widget, final(self)),
    {
        let mut widget = widget;
        let left_coords = self.calculate_coordinates().0;
        widget.set_coordinates(&left_coords);
        self.widgets.insert(0, widget);
        assert(self.widgets@.drop_first() =~= old(self).widgets@);
    }

    /// The widget in the left column, if there is one.
    pub fn get_left_widget(&self) -> (res: Option<&T>)
        ensures
            match res {
                Some(widget) => self.widgets@.len() >= 2 && *widget
                    == self.widgets@[self.widgets@.len() - 2],
                None => self.widgets@.len() < 2,
            },
    {
        let len = self.widgets.len();
        if len < 2 {
            return None;
        }
        Some(&self.widgets[len - 2])
    }

    /// The widget in the left column, if there is one.
    pub fn get_left_widget_mut(&mut self) -> (res: Option<&mut T>)
        ensures
            match res {
                Some(widget) => {
                    let i = old(self).widgets@.len() - 2;
                    &&& i >= 0
                    &&& *widget == old(self).widgets@[i]
                    &&& final(self).widgets@ == old(self).widgets@.update(i, *final(widget))
                    &&& *final(self) == (MillerColumns {
                        widgets: final(self).widgets,
                        ..*old(self)
                    })
                },
                None => old(self).widgets@.len() < 2 && *final(self) == *old(self),
            },
    {
        let len = self.widgets.len();
        if len < 2 {
            return None;
        }
        Some(&mut self.widgets[len - 2])
    }

    /// The widget in the middle column. There must be one.
    pub fn get_main_widget(&self) -> (res: &T)
        requires
            self.widgets@.len() > 0,
        ensures
            *res == self.widgets@.last(),
    {
        &self.widgets[self.widgets.len() - 1]
    }

    /// The widget in the middle column. There must be one.
    pub fn get_main_widget_mut(&mut self) -> (res: &mut T)
        requires
            old(self).widgets@.len() > 0,
        ensures
            *res == old(self).widgets@.last(),
            final(self).widgets@ == old(self).widgets@.update(
                old(self).widgets@.len() - 1,
                *final(res),
            ),
            *final(self) == (MillerColumns { widgets: final(self).widgets, ..*old(self) }),
    {
        let last: usize = self.widgets.len() - 1;
        &mut self.widgets[last]
    }
}

impl<T: Widget, P: Widget> Widget for MillerColumns<T, P> {
    open spec fn has_size(&self, size: Size) -> bool {
        size == self.coordinates.size
    }

    open spec fn has_position(&self, position: Position) -> bool {
        position == self.coordinates.position
    }

    open spec fn is_at(&self, area: Coordinates) -> bool {
        area == self.coordinates
    }

    open spec fn can_take(&self, coordinates: Coordinates) -> bool {
        self.coordinates == coordinates || can_lay_out(
            self.widgets@,
            self.preview,
            coordinates,
            self.ratio,
        )
    }

    open spec fn can_always_take(&self, coordinates: Coordinates) -> bool {
        can_always_lay_out(self.widgets@, self.preview, coordinates, self.ratio)
    }

    /// Nothing happens where the columns stand there already.
    open spec fn takes(&self, coordinates: Coordinates, after: &Self) -> bool {
        if self.coordinates == coordinates {
            *after == *self
        } else {
            self.lays_out(coordinates, after)
        }
    }

    open spec fn can_refresh(&self) -> bool {
        can_lay_out(self.widgets@, self.preview, self.coordinates, self.ratio)
    }

    open spec fn refreshes(&self, after: &Self) -> bool {
        self.lays_out(self.coordinates, after)
    }

    open spec fn can_draw(&self) -> bool {
        let n = self.widgets@.len();
        &&& n > 0
        &&& self.widgets@.last().can_draw()
        &&& n >= 2 ==> self.widgets@[n - 2].can_draw()
        &&& self.preview.can_draw()
    }

    /// What draws the middle column, the left one if there is one, and the
    /// preview, one behind the other.
    open spec fn draws(&self, text: Seq<char>) -> bool {
        exists|main: Seq<char>, left: Seq<char>, preview: Seq<char>|
            #![trigger self.widgets@.last().draws(main), self.draws_left(left),
                self.preview.draws(preview)]
            {
                &&& self.widgets@.last().draws(main)
                &&& self.draws_left(left)
                &&& self.preview.draws(preview)
                &&& text == main + left + preview
            }
    }

    open spec fn renders(&self, lines: Seq<Seq<char>>) -> bool {
        lines.len() == 0
    }

    open spec fn is_headed(&self, header: Seq<char>) -> bool {
        header.len() == 0
    }

    /// Keys go to the middle column.
    open spec fn can_key(&self, key: Key) -> bool {
        self.widgets@.len() > 0 && self.widgets@.last().can_key(key)
    }

    open spec fn keys(&self, key: Key, after: &Self) -> bool {
        let n = self.widgets@.len();
        &&& after.widgets@ == self.widgets@.update(n - 1, after.widgets@[n - 1])
        &&& self.widgets@[n - 1].keys(key, &after.widgets@[n - 1])
        &&& *after == (MillerColumns { widgets: after.widgets, ..*self })
    }

    open spec fn resizes(&self, size: Size, after: &Self) -> bool {
        *after == (MillerColumns {
            coordinates: Coordinates { size, ..self.coordinates },
            ..*self
        })
    }

    open spec fn moves(&self, position: Position, after: &Self) -> bool {
        *after == (MillerColumns {
            coordinates: Coordinates { position, ..self.coordinates },
            ..*self
        })
    }

    fn render(&self) -> (res: Vec<String>) {
        let res: Vec<String> = Vec::new();
        assert(texts(res@) =~= seq![]);
        res
    }

    fn get_size(&self) -> (res: &Size) {
        &self.coordinates.size
    }

    fn get_position(&self) -> (res: &Position) {
        &self.coordinates.position
    }

    fn set_size(&mut self, size: Size) {
        self.coordinates.size = size;
    }

    fn set_position(&mut self, position: Position) {
        self.coordinates.position = position;
    }

    fn get_coordinates(&self) -> (res: &Coordinates) {
        &self.coordinates
    }

    fn set_coordinates(&mut self, coordinates: &Coordinates) {
        if self.coordinates == *coordinates {
            return;
        }
        self.coordinates = *coordinates;
        self.refresh();
    }

    fn render_header(&self) -> (res: String) {
        String::new()
    }

    fn refresh(&mut self) {
        let (left_coords, main_coords, preview_coords) = self.calculate_coordinates();

        if let Some(left_widget) = self.get_left_widget_mut() {
            left_widget.set_coordinates(&left_coords);
        }
        let main_widget = self.get_main_widget_mut();
        main_widget.set_coordinates(&main_coords);

        self.preview.set_coordinates(&preview_coords);
    }

    fn get_drawlist(&self) -> (res: String) {
        let left_widget = match self.get_left_widget() {
            Some(widget) => widget.get_drawlist(),
            None => String::new(),
        };
        let main_widget = self.get_main_widget().get_drawlist();
        let preview = self.preview.get_drawlist();
        assert(self.draws_left(left_widget@));
        main_widget.concat(left_widget.as_str()).concat(preview.as_str())
    }

    fn on_key(&mut self, key: Key) {
        self.get_main_widget_mut().on_key(key);
        assert(self.widgets@ =~= old(self).widgets@.update(
            old(self).widgets@.len() - 1,
            self.widgets@[old(self).widgets@.len() - 1],
        ));
    }
}

/// The columns stand side by side. The middle one ends before the preview
/// begins, and the left one before the middle one, unless the whole begins
/// too far to the right; together they are no wider than the whole, if they
/// share no more than the whole of it.
pub proof fn columns_do_not_overlap(area: Coordinates, ratio: (u16, u16, u16))
    requires
        fits(area, ratio),
    ensures
        ({
            let left = left_area(area, ratio);
            let main = main_area(area, ratio);
            let preview = preview_area(area, ratio);
            &&& main.position.0.0 + main.size.0.0 < preview.position.0.0
            &&& area.position.0.0 <= 2 ==> left.position.0.0 + left.size.0.0 <= main.position.0.0
            &&& ratio.0 + ratio.1 + ratio.2 <= 100 ==> left.size.0.0 + main.size.0.0
                + preview.size.0.0 <= area.size.0.0
            &&& left.size.0.1 == area.size.0.1
            &&& main.size.0.1 == area.size.0.1
            &&& preview.size.0.1 == area.size.0.1
        }),
{
    let width = area.size.0.0 as int;
    assert(width * ratio.0 + width * ratio.1 + width * ratio.2 == width * (ratio.0 + ratio.1
        + ratio.2)) by (nonlinear_arith);
    if ratio.0 + ratio.1 + ratio.2 <= 100 {
        assert(width * (ratio.0 + ratio.1 + ratio.2) <= width * 100) by (nonlinear_arith)
            requires
                0 <= width,
                ratio.0 + ratio.1 + ratio.2 <= 100,
        ;
    }
}

/// What was put on top of the stack is what comes off it: the widget, put into
/// the middle column when it was stacked and again when the columns were laid
/// out. The stack is then what it was, with the same widgets in the same order:
/// the topmost was put into the left column and back into the middle one, the
/// one below it into the left one, and the others were not touched.
pub proof fn what_is_pushed_is_popped<T: Widget, P: Widget>(
    before: MillerColumns<T, P>,
    widget: T,
    pushed: MillerColumns<T, P>,
    after: MillerColumns<T, P>,
)
    requires
        before.widgets@.len() >= 1,
        before.pushes(widget, &pushed),
        pushed.pops(&after),
    ensures
        ({
            let n = before.widgets@.len() as int;
            let left = left_area(before.coordinates, before.ratio);
            let main = main_area(before.coordinates, before.ratio);
            &&& put_twice(widget, main, main, pushed.widgets@.last())
            &&& after.widgets@.len() == n
            &&& forall|i: int| 0 <= i < n - 2 ==> #[trigger] after.widgets@[i] == before.widgets@[i]
            &&& n >= 2 ==> puts(before.widgets@[n - 2], left, after.widgets@[n - 2])
            &&& put_twice(before.widgets@[n - 1], left, main, after.widgets@[n - 1])
            &&& after.coordinates == before.coordinates
            &&& after.ratio == before.ratio
        }),
{
    let n = before.widgets@.len() as int;
    let left = left_area(before.coordinates, before.ratio);
    let main = main_area(before.coordinates, before.ratio);
    let (placed, stacked) = choose|placed: T, stacked: MillerColumns<T, P>|
        #![trigger puts(widget, main, placed), stacked.lays_out(before.coordinates, &pushed)]
        {
            &&& puts(widget, main, placed)
            &&& stacked.widgets@ == before.widgets@.push(placed)
            &&& stacked == (MillerColumns { widgets: stacked.widgets, ..before })
            &&& stacked.lays_out(before.coordinates, &pushed)
        };
    let rest = choose|rest: MillerColumns<T, P>|
        #![trigger rest.lays_out(pushed.coordinates, &after)]
        {
            &&& rest.widgets@ == pushed.widgets@.drop_last()
            &&& rest == (MillerColumns { widgets: rest.widgets, ..pushed })
            &&& rest.lays_out(pushed.coordinates, &after)
        };
    assert(puts(placed, main, pushed.widgets@[n]));
    assert(puts(before.widgets@[n - 1], left, pushed.widgets@[n - 1]));
    assert(puts(pushed.widgets@[n - 1], main, after.widgets@[n - 1]));
    assert forall|i: int| 0 <= i < n - 2 implies #[trigger] after.widgets@[i]
        == before.widgets@[i] by {
        assert(after.widgets@[i] == rest.widgets@[i]);
        assert(pushed.widgets@[i] == stacked.widgets@[i]);
    }
    if n >= 2 {
        assert(pushed.widgets@[n - 2] == stacked.widgets@[n - 2]);
    }
}

/// `after` is a widget when it has been put into one area and then another.
pub open spec fn put_twice<T: Widget>(
    before: T,
    first: Coordinates,
    second: Coordinates,
    after: T,
) -> bool {
    exists|between: T|
        #![trigger puts(before, first, between), puts(between, second, after)]
        puts(before, first, between) && puts(between, second, after)
}

/// A widget that was put on top of others can be taken off again, if the others
/// could always be laid out.
pub proof fn what_is_pushed_can_be_popped<T: Widget, P: Widget>(
    before: MillerColumns<T, P>,
    widget: T,
    pushed: MillerColumns<T, P>,
)
    requires
        before.can_always_take(before.coordinates),
        before.pushes(widget, &pushed),
    ensures
        pushed.widgets@.len() >= 2,
        can_always_lay_out(
            pushed.widgets@.drop_last(),
            pushed.preview,
            pushed.coordinates,
            pushed.ratio,
        ),
{
    let n = before.widgets@.len() as int;
    let (placed, stacked) = choose|placed: T, stacked: MillerColumns<T, P>|
        #![trigger puts(widget, main_area(before.coordinates, before.ratio), placed),
            stacked.lays_out(before.coordinates, &pushed)]
        {
            &&& puts(widget, main_area(before.coordinates, before.ratio), placed)
            &&& stacked.widgets@ == before.widgets@.push(placed)
            &&& stacked == (MillerColumns { widgets: stacked.widgets, ..before })
            &&& stacked.lays_out(before.coordinates, &pushed)
        };
    assert(stacked.widgets@[n - 1] == before.widgets@[n - 1]);
    if n >= 2 {
        assert(pushed.widgets@[n - 2] == stacked.widgets@[n - 2]);
        assert(stacked.widgets@[n - 2] == before.widgets@[n - 2]);
    }
}

/// Each column has its hundredths of the width, rounded down, and the whole
/// height. The left one stands where the whole does; the middle one begins two
/// columns behind the width of the left one, and the right one three behind the
/// widths of both.
pub proof fn columns_have_their_share(area: Coordinates, ratio: (u16, u16, u16))
    requires
        fits(area, ratio),
    ensures
        ({
            let (left, main, preview) = (
                left_area(area, ratio),
                main_area(area, ratio),
                preview_area(area, ratio),
            );
            let width = area.size.0.0;
            &&& left.size.0.0 * 100 <= width * ratio.0 < (left.size.0.0 + 1) * 100
            &&& main.size.0.0 * 100 <= width * ratio.1 < (main.size.0.0 + 1) * 100
            &&& preview.size.0.0 * 100 <= width * ratio.2 < (preview.size.0.0 + 1) * 100
            &&& left.size.0.1 == area.size.0.1
            &&& main.size.0.1 == area.size.0.1
            &&& preview.size.0.1 == area.size.0.1
            &&& left.position == area.position
            &&& main.position.0.0 == left.size.0.0 + 2
            &&& preview.position.0.0 == left.size.0.0 + main.size.0.0 + 3
            &&& main.position.0.1 == area.position.0.0
            &&& preview.position.0.1 == area.position.0.0
        }),
{
}

/// When the columns are laid out, the topmost widget stands in the middle one,
/// the widget below it in the left one and the preview in the right one. All
/// other widgets stay as they were, and in their places.
pub proof fn topmost_widgets_stand_in_the_columns<T: Widget, P: Widget>(
    before: MillerColumns<T, P>,
    area: Coordinates,
    after: MillerColumns<T, P>,
)
    requires
        before.lays_out(area, &after),
        before.widgets@.len() > 0,
    ensures
        ({
            let n = before.widgets@.len() as int;
            &&& after.widgets@.len() == n
            &&& before.widgets@[n - 1].takes(main_area(area, before.ratio), &after.widgets@[n - 1])
            &&& after.widgets@[n - 1].is_at(main_area(area, before.ratio))
            &&& n >= 2 ==> before.widgets@[n - 2].takes(
                left_area(area, before.ratio),
                &after.widgets@[n - 2],
            ) && after.widgets@[n - 2].is_at(left_area(area, before.ratio))
            &&& before.preview.takes(preview_area(area, before.ratio), &after.preview)
            &&& after.preview.is_at(preview_area(area, before.ratio))
            &&& forall|i: int| 0 <= i < n - 2 ==> #[trigger] after.widgets@[i] == before.widgets@[i]
            &&& after.coordinates == area
            &&& after.ratio == before.ratio
        }),
{
}

/// The columns are drawn one behind the other: the middle one, the left one and
/// the preview. Without a widget for the left one there is nothing between.
pub proof fn columns_are_drawn_in_order<T: Widget, P: Widget>(
    columns: MillerColumns<T, P>,
    text: Seq<char>,
)
    requires
        columns.widgets@.len() > 0,
        columns.draws(text),
    ensures
        exists|main: Seq<char>, left: Seq<char>, preview: Seq<char>|
            #![trigger columns.widgets@.last().draws(main), columns.draws_left(left),
                columns.preview.draws(preview)]
            {
                &&& columns.widgets@[columns.widgets@.len() - 1].draws(main)
                &&& if columns.widgets@.len() >= 2 {
                    columns.widgets@[columns.widgets@.len() - 2].draws(left)
                } else {
                    left.len() == 0
                }
                &&& columns.preview.draws(preview)
                &&& text == main + left + preview
            },
{
}

/// A key goes to the topmost widget and to no other.
pub proof fn keys_go_to_the_topmost_widget<T: Widget, P: Widget>(
    before: MillerColumns<T, P>,
    key: Key,
    after: MillerColumns<T, P>,
)
    requires
        before.widgets@.len() > 0,
        before.keys(key, &after),
    ensures
        after.widgets@.len() == before.widgets@.len(),
        before.widgets@.last().keys(key, &after.widgets@.last()),
        forall|i: int|
            0 <= i < before.widgets@.len() - 1 ==> #[trigger] after.widgets@[i]
                == before.widgets@[i],
        after.preview == before.preview,
        after.ratio == before.ratio,
        after.coordinates == before.coordinates,
{
}

/// A widget that is put on top of the stack comes into the middle column, above
/// all others. The one that was topmost comes into the left column, and those
/// below it stay as they were. So does the place of the whole.
pub proof fn pushed_widgets_come_on_top<T: Widget, P: Widget>(
    before: MillerColumns<T, P>,
    widget: T,
    after: MillerColumns<T, P>,
)
    requires
        before.pushes(widget, &after),
    ensures
        ({
            let n = before.widgets@.len() as int;
            let (area, ratio) = (before.coordinates, before.ratio);
            &&& after.widgets@.len() == n + 1
            &&& exists|placed: T|
                #![trigger placed.takes(main_area(area, ratio), &after.widgets@[n])]
                widget.takes(main_area(area, ratio), &placed) && placed.is_at(
                    main_area(area, ratio),
                ) && placed.takes(main_area(area, ratio), &after.widgets@[n])
            &&& after.widgets@[n].is_at(main_area(area, ratio))
            &&& n >= 1 ==> before.widgets@[n - 1].takes(
                left_area(area, ratio),
                &after.widgets@[n - 1],
            ) && after.widgets@[n - 1].is_at(left_area(area, ratio))
            &&& forall|i: int| 0 <= i < n - 1 ==> #[trigger] after.widgets@[i] == before.widgets@[i]
            &&& before.preview.takes(preview_area(area, ratio), &after.preview)
            &&& after.coordinates == area
            &&& after.ratio == ratio
        }),
{
    let n = before.widgets@.len() as int;
    let main = main_area(before.coordinates, before.ratio);
    let (placed, stacked) = choose|placed: T, stacked: MillerColumns<T, P>|
        #![trigger puts(widget, main, placed), stacked.lays_out(before.coordinates, &after)]
        {
            &&& puts(widget, main, placed)
            &&& stacked.widgets@ == before.widgets@.push(placed)
            &&& stacked == (MillerColumns { widgets: stacked.widgets, ..before })
            &&& stacked.lays_out(before.coordinates, &after)
        };
    assert(stacked.widgets@[n] == placed);
    assert(placed.takes(main, &after.widgets@[n]));
    if n >= 1 {
        assert(stacked.widgets@[n - 1] == before.widgets@[n - 1]);
    }
    assert forall|i: int| 0 <= i < n - 1 implies #[trigger] after.widgets@[i]
        == before.widgets@[i] by {
        assert(after.widgets@[i] == stacked.widgets@[i]);
    }
}

/// When the topmost widget is taken off, the one below it comes into the middle
/// column and the next into the left one. Those below them stay as they were.
pub proof fn widgets_below_the_popped_one_come_up<T: Widget, P: Widget>(
    before: MillerColumns<T, P>,
    after: MillerColumns<T, P>,
)
    requires
        before.widgets@.len() > 0,
        before.pops(&after),
    ensures
        ({
            let n = before.widgets@.len() - 1;
            let (area, ratio) = (before.coordinates, before.ratio);
            &&& after.widgets@.len() == n
            &&& n >= 1 ==> before.widgets@[n - 1].takes(
                main_area(area, ratio),
                &after.widgets@[n - 1],
            ) && after.widgets@[n - 1].is_at(main_area(area, ratio))
            &&& n >= 2 ==> before.widgets@[n - 2].takes(
                left_area(area, ratio),
                &after.widgets@[n - 2],
            ) && after.widgets@[n - 2].is_at(left_area(area, ratio))
            &&& forall|i: int| 0 <= i < n - 2 ==> #[trigger] after.widgets@[i] == before.widgets@[i]
            &&& before.preview.takes(preview_area(area, ratio), &after.preview)
            &&& after.coordinates == area
            &&& after.ratio == ratio
        }),
{
    let n = before.widgets@.len() - 1;
    let rest = choose|rest: MillerColumns<T, P>|
        #![trigger rest.lays_out(before.coordinates, &after)]
        {
            &&& rest.widgets@ == before.widgets@.drop_last()
            &&& rest == (MillerColumns { widgets: rest.widgets, ..before })
            &&& rest.lays_out(before.coordinates, &after)
        };
    assert forall|i: int| 0 <= i < n - 2 implies #[trigger] after.widgets@[i]
        == before.widgets@[i] by {
        assert(after.widgets@[i] == rest.widgets@[i]);
    }
}

/// Columns that are sent where they stand do not move, nor does what is in them.
/// Sent elsewhere they stand there, laid out anew in that area. Drawing them
/// anew lays them out where they stand. A new size or position alone touches no
/// widget and not the other of the two.
pub proof fn columns_stand_where_they_are_sent<T: Widget, P: Widget>(
    before: MillerColumns<T, P>,
    area: Coordinates,
    after: MillerColumns<T, P>,
)
    ensures
        before.takes(area, &after) ==> after.coordinates == area && after.ratio == before.ratio
            && after.widgets@.len() == before.widgets@.len() && after.is_at(area),
        before.takes(area, &after) && before.coordinates == area ==> after == before,
        before.takes(area, &after) && before.coordinates != area && before.widgets@.len() > 0
            ==> before.widgets@.last().takes(
            main_area(area, before.ratio),
            &after.widgets@.last(),
        ),
        before.refreshes(&after) ==> after.coordinates == before.coordinates && (
        before.widgets@.len() > 0 ==> before.widgets@.last().takes(
            main_area(before.coordinates, before.ratio),
            &after.widgets@.last(),
        )),
        before.resizes(area.size, &after) ==> after.coordinates.size == area.size
            && after.coordinates.position == before.coordinates.position && after.widgets
            == before.widgets && after.preview == before.preview && after.ratio == before.ratio,
        before.moves(area.position, &after) ==> after.coordinates.position == area.position
            && after.coordinates.size == before.coordinates.size && after.widgets == before.widgets
            && after.preview == before.preview && after.ratio == before.ratio,
{
}

/// A widget that comes below all others stands in the left column. The others
/// move up by one place and are not touched, nor is anything else.
pub proof fn prepended_widgets_come_below_all_others<T: Widget, P: Widget>(
    before: MillerColumns<T, P>,
    widget: T,
    after: MillerColumns<T, P>,
)
    requires
        before.prepends(widget, &after),
    ensures
        after.widgets@.len() == before.widgets@.len() + 1,
        widget.takes(left_area(before.coordinates, before.ratio), &after.widgets@[0]),
        after.widgets@[0].is_at(left_area(before.coordinates, before.ratio)),
        forall|i: int|
            0 <= i < before.widgets@.len() ==> after.widgets@[i + 1]
                == #[trigger] before.widgets@[i],
        after.preview == before.preview,
        after.coordinates == before.coordinates && after.ratio == before.ratio,
{
    assert forall|i: int| 0 <= i < before.widgets@.len() implies after.widgets@[i + 1]
        == #[trigger] before.widgets@[i] by {
        assert(after.widgets@.drop_first()[i] == before.widgets@[i]);
    }
}

} // verus!
