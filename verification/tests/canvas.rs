use textdraw::canvas::{all_fit, map_to_bounding_box, objs_to_map, pixels_to_bounding_box, render, Item};
use textdraw::error::Error;
use textdraw::geometry::{BoundingBox, Point};
use textdraw::glyph::LineStyle;
use textdraw::pixel::{combine_weight, Pixel, PixelGroup};
use textdraw::style::{AnsiColor, Color, Effects, TextStyle};
use textdraw::text_path::TextPath;
use textdraw::PointMap;

fn plain(c: char, x: isize, y: isize) -> Pixel {
    Pixel::new(c, Point::new(x, y), TextStyle::default(), Some(1))
}

#[test]
fn single_pixel_renders_as_its_character() {
    let out = render(&vec![Item::Pixel(plain('X', 0, 0))]);
    assert_eq!(out, Ok("X\n".to_string()));
}

#[test]
fn rows_run_from_top_to_bottom_with_blanks() {
    let items = vec![
        Item::Pixel(plain('a', 0, 0)),
        Item::Pixel(plain('b', 2, 1)),
        Item::Pixel(plain('c', 1, -1)),
    ];
    assert_eq!(render(&items), Ok("  b\na  \n c \n".to_string()));
}

#[test]
fn nothing_renders_as_one_blank_cell() {
    assert_eq!(render(&vec![]), Ok(" \n".to_string()));
}

#[test]
fn later_items_overwrite_earlier_ones() {
    let items = vec![Item::Pixel(plain('a', 0, 0)), Item::Pixel(plain('b', 0, 0))];
    assert_eq!(render(&items), Ok("b\n".to_string()));
}

#[test]
fn group_weight_adds_to_pixel_weight() {
    let child = Pixel::new('x', Point::new(0, 0), TextStyle::default(), Some(1));
    let group = PixelGroup::new(vec![child], Point::new(2, 3), TextStyle::default(), Some(2));
    let map = objs_to_map(&vec![Item::Group(group)]).unwrap();
    let placed = map.get(Point::new(2, 3)).unwrap();
    assert_eq!(placed.position, Point::new(2, 3));
    assert_eq!(placed.weight, Some(3));
    assert_eq!(placed.character, 'x');
    assert!(map.get(Point::new(0, 0)).is_none());
}

#[test]
fn unset_group_weight_unsets_the_pixel_weight() {
    let child = Pixel::new('x', Point::new(0, 0), TextStyle::default(), Some(1));
    let group = PixelGroup::new(vec![child], Point::new(2, 3), TextStyle::default(), None);
    let map = objs_to_map(&vec![Item::Group(group)]).unwrap();
    assert_eq!(map.get(Point::new(2, 3)).unwrap().weight, None);
    assert_eq!(combine_weight(None, Some(4)), None);
    assert_eq!(combine_weight(Some(4), None), None);
    assert_eq!(combine_weight(Some(4), Some(5)), Some(9));
}

#[test]
fn pixel_style_is_laid_over_group_style() {
    let red = TextStyle { effects: Effects::none(), fg: Color::Ansi(AnsiColor::Red), bg: Color::default() };
    let mut bold = Effects::none();
    bold.bold = true;
    let group_style =
        TextStyle { effects: bold, fg: Color::Ansi(AnsiColor::Blue), bg: Color::Ansi(AnsiColor::White) };
    let pixels = vec![
        Pixel::new('a', Point::new(0, 0), red, Some(0)),
        Pixel::new('b', Point::new(1, 0), TextStyle::default(), Some(0)),
    ];
    let group = PixelGroup::new(pixels, Point::new(0, 0), group_style, Some(0));
    let map = objs_to_map(&vec![Item::Group(group)]).unwrap();
    let a = map.get(Point::new(0, 0)).unwrap();
    assert_eq!(a.style.fg, Color::Ansi(AnsiColor::Red));
    assert_eq!(a.style.bg, Color::Ansi(AnsiColor::White));
    assert!(a.style.effects.bold);
    let b = map.get(Point::new(1, 0)).unwrap();
    assert_eq!(b.style.fg, Color::Ansi(AnsiColor::Blue));
}

#[test]
fn bounding_box_is_tight() {
    let map = objs_to_map(&vec![
        Item::Pixel(plain('a', -2, 5)),
        Item::Pixel(plain('b', 4, -1)),
        Item::Pixel(plain('c', 0, 0)),
    ])
    .unwrap();
    assert_eq!(map_to_bounding_box(&map), BoundingBox::new(5, 4, -1, -2));
    assert_eq!(map_to_bounding_box(&PointMap::new()), BoundingBox::new(0, 0, 0, 0));
    assert_eq!(
        pixels_to_bounding_box(&vec![plain('a', -2, 5), plain('b', 4, -1)]),
        BoundingBox::new(5, 4, -1, -2)
    );
    assert_eq!(pixels_to_bounding_box(&vec![]), BoundingBox::new(0, 0, 0, 0));
    assert_eq!(pixels_to_bounding_box(&vec![plain('a', 3, 3)]), BoundingBox::new(3, 3, 3, 3));
}

#[test]
fn path_of_one_cell_cannot_be_drawn() {
    let path = TextPath::new(
        Point::new(1, 1),
        Point::new(1, 1),
        TextStyle::default(),
        LineStyle::Regular,
        None,
        None,
        None,
        1,
        &vec![],
        &vec![],
        &vec![],
        None,
    )
    .unwrap();
    assert_eq!(path.path, vec![Point::new(1, 1)]);
    assert_eq!(path.as_group().err(), Some(Error::PathTooShort));
    assert_eq!(render(&vec![Item::Path(path)]), Err(Error::PathTooShort));
    assert_eq!(Error::PathTooShort.message(), "path must have at least two elements");
}

#[test]
fn styled_pixel_renders_with_escape_codes() {
    let red = TextStyle { effects: Effects::none(), fg: Color::Ansi(AnsiColor::Red), bg: Color::default() };
    let out = render(&vec![Item::Pixel(Pixel::new('X', Point::new(0, 0), red, None))]);
    assert_eq!(out, Ok("\u{1b}[31mX\u{1b}[0m\n".to_string()));
}

#[test]
fn fitting_is_checked_before_drawing() {
    let far = Pixel::new('x', Point::new(isize::MAX, 0), TextStyle::default(), Some(usize::MAX));
    let moved = PixelGroup::new(vec![far], Point::new(1, 0), TextStyle::default(), Some(0));
    assert!(!moved.check_fits());
    let heavy = PixelGroup::new(vec![far], Point::new(0, 0), TextStyle::default(), Some(1));
    assert!(!heavy.check_fits());
    let fine = PixelGroup::new(vec![far], Point::new(-1, 0), TextStyle::default(), None);
    assert!(fine.check_fits());
    assert!(all_fit(&vec![Item::Pixel(far), Item::Group(fine.clone())]));
    assert!(!all_fit(&vec![Item::Group(fine), Item::Group(heavy)]));
}

#[test]
fn group_moves_to_another_offset() {
    let group = PixelGroup::new(vec![plain('a', 1, 1)], Point::new(0, 0), TextStyle::default(), Some(2));
    let moved = group.at(Point::new(5, -5));
    assert_eq!(moved.position, Point::new(5, -5));
    assert_eq!(moved.pixels, group.pixels);
    assert_eq!(moved.weight, Some(2));
    let map = objs_to_map(&vec![Item::Group(moved)]).unwrap();
    assert_eq!(map.get(Point::new(6, -4)).unwrap().character, 'a');
}
