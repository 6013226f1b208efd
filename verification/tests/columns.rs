use hunter_files::coordinates::{Coordinates, Position, Size};
use hunter_files::miller_columns::MillerColumns;
use hunter_files::widget::Widget;
use termion::event::Key;

#[derive(Debug, PartialEq)]
struct Pane {
    name: &'static str,
    coordinates: Coordinates,
    keys: Vec<Key>,
}

impl Widget for Pane {
    fn render(&self) -> Vec<String> {
        vec![self.name.to_string()]
    }
    fn get_size(&self) -> &Size {
        &self.coordinates.size
    }
    fn get_position(&self) -> &Position {
        &self.coordinates.position
    }
    fn set_size(&mut self, size: Size) {
        self.coordinates.size = size;
    }
    fn set_position(&mut self, position: Position) {
        self.coordinates.position = position;
    }
    fn get_coordinates(&self) -> &Coordinates {
        &self.coordinates
    }
    fn set_coordinates(&mut self, coordinates: &Coordinates) {
        self.coordinates = *coordinates;
    }
    fn render_header(&self) -> String {
        self.name.to_string()
    }
    fn refresh(&mut self) {}
    fn get_drawlist(&self) -> String {
        format!("<{}>", self.name)
    }
    fn on_key(&mut self, key: Key) {
        self.keys.push(key);
    }
}

fn area(width: u16, height: u16, x: u16, y: u16) -> Coordinates {
    Coordinates { size: Size((width, height)), position: Position((x, y)) }
}

fn pane(name: &'static str) -> Pane {
    Pane { name, coordinates: area(0, 0, 0, 0), keys: vec![] }
}

fn columns() -> MillerColumns<Pane, Pane> {
    MillerColumns::new(area(100, 50, 1, 2), pane("preview"))
}

#[test]
fn columns_begin_empty() {
    let columns = columns();
    assert!(columns.widgets.is_empty());
    assert_eq!(columns.ratio, (33, 33, 33));
    assert_eq!(*columns.get_size(), Size((100, 50)));
    assert_eq!(*columns.get_position(), Position((1, 2)));
    assert!(columns.render().is_empty());
    assert_eq!(columns.render_header(), "");
}

#[test]
fn columns_share_the_width() {
    let (left, main, preview) = columns().calculate_coordinates();
    assert_eq!(left, area(33, 50, 1, 2));
    assert_eq!(main, area(33, 50, 35, 1));
    assert_eq!(preview, area(33, 50, 69, 1));
    let mut uneven = columns();
    uneven.coordinates = area(81, 20, 3, 4);
    uneven.ratio = (20, 30, 49);
    let (left, main, preview) = uneven.calculate_coordinates();
    assert_eq!(left, area(16, 20, 3, 4));
    assert_eq!(main, area(24, 20, 18, 3));
    assert_eq!(preview, area(39, 20, 43, 3));
}

#[test]
fn the_topmost_widgets_are_laid_out() {
    let mut columns = columns();
    columns.push_widget(pane("a"));
    assert!(columns.get_left_widget().is_none());
    assert!(columns.get_left_widget_mut().is_none());
    assert_eq!(columns.get_main_widget().coordinates, area(33, 50, 35, 1));
    assert_eq!(columns.preview.coordinates, area(33, 50, 69, 1));
    columns.push_widget(pane("b"));
    assert_eq!(columns.get_left_widget().unwrap().name, "a");
    assert_eq!(columns.get_left_widget().unwrap().coordinates, area(33, 50, 1, 2));
    assert_eq!(columns.get_main_widget().name, "b");
    assert_eq!(columns.get_main_widget().coordinates, area(33, 50, 35, 1));
}

#[test]
fn what_is_pushed_comes_off() {
    let mut columns = columns();
    columns.push_widget(pane("a"));
    columns.push_widget(pane("b"));
    columns.push_widget(pane("c"));
    assert_eq!(columns.pop_widget().unwrap().name, "c");
    assert_eq!(columns.get_main_widget().name, "b");
    assert_eq!(columns.get_main_widget().coordinates, area(33, 50, 35, 1));
    assert_eq!(columns.pop_widget().unwrap().name, "b");
    assert_eq!(columns.widgets.len(), 1);
}

#[test]
fn widgets_can_be_put_below() {
    let mut columns = columns();
    columns.push_widget(pane("b"));
    columns.prepend_widget(pane("a"));
    let names: Vec<&str> = columns.widgets.iter().map(|w| w.name).collect();
    assert_eq!(names, ["a", "b"]);
    assert_eq!(columns.widgets[0].coordinates, area(33, 50, 1, 2));
}

#[test]
fn moving_the_columns_moves_what_is_in_them() {
    let mut columns = columns();
    columns.push_widget(pane("a"));
    columns.push_widget(pane("b"));
    let there = area(200, 10, 0, 0);
    columns.set_coordinates(&there);
    assert_eq!(*columns.get_coordinates(), there);
    assert_eq!(columns.get_left_widget().unwrap().coordinates, area(66, 10, 0, 0));
    assert_eq!(columns.get_main_widget().coordinates, area(66, 10, 68, 0));
    assert_eq!(columns.preview.coordinates, area(66, 10, 135, 0));
    columns.get_main_widget_mut().coordinates = area(1, 1, 1, 1);
    columns.set_coordinates(&there);
    assert_eq!(columns.get_main_widget().coordinates, area(1, 1, 1, 1));
    columns.refresh();
    assert_eq!(columns.get_main_widget().coordinates, area(66, 10, 68, 0));
}

#[test]
fn size_and_position_can_be_set_alone() {
    let mut columns = columns();
    columns.set_size(Size((10, 20)));
    columns.set_position(Position((5, 6)));
    assert_eq!(*columns.get_coordinates(), area(10, 20, 5, 6));
}

#[test]
fn the_main_column_is_drawn_first() {
    let mut columns = columns();
    columns.push_widget(pane("a"));
    assert_eq!(columns.get_drawlist(), "<a><preview>");
    columns.push_widget(pane("b"));
    assert_eq!(columns.get_drawlist(), "<b><a><preview>");
}

#[test]
fn keys_go_to_the_main_column() {
    let mut columns = columns();
    columns.push_widget(pane("a"));
    columns.push_widget(pane("b"));
    columns.on_key(Key::Char('x'));
    assert_eq!(columns.get_main_widget().keys, [Key::Char('x')]);
    assert!(columns.get_left_widget_mut().unwrap().keys.is_empty());
    assert_eq!(columns.get_main_widget().coordinates.top().x(), 35);
}
