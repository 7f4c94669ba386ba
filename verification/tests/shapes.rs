use textdraw::canvas::{render, Item};
use textdraw::geometry::{BoundingBox, Point};
use textdraw::glyph::{ArrowType, Direction, LineStyle};
use textdraw::layout::{Alignment, Justification};
use textdraw::pixel::Pixel;
use textdraw::style::TextStyle;
use textdraw::text_box::Box;
use textdraw::text_path::TextPath;

fn text_box(text: &str, width: Option<usize>, padding: (usize, usize, usize, usize)) -> Box {
    Box::new(
        text.to_string(),
        Point::new(0, 0),
        width,
        None,
        TextStyle::default(),
        TextStyle::default(),
        Some(LineStyle::Regular),
        Some(1),
        Some(padding),
        TextStyle::default(),
        Alignment::Top,
        Justification::Left,
        None,
        false,
        false,
    )
}

#[test]
fn glyphs_join_their_neighbours() {
    let r = LineStyle::Regular;
    assert_eq!(r.get_char((false, false, false, false)), ' ');
    assert_eq!(r.get_char((true, true, true, true)), '┼');
    assert_eq!(r.get_char((false, true, false, true)), '─');
    assert_eq!(r.get_char((true, false, true, false)), '│');
    assert_eq!(r.get_char((false, true, true, false)), '┌');
    assert_eq!(r.get_char((true, false, false, true)), '┘');
    assert_eq!(LineStyle::Thick.get_char((true, true, true, true)), '╋');
    assert_eq!(LineStyle::Double.get_char((false, false, true, true)), '╗');
    let regular: Vec<char> = " ╴╷┐╶─┌┬╵┘│┤└┴├┼".chars().collect();
    let thick: Vec<char> = " ━┃┓━━┏┳┃┛┃┫┗┻┣╋".chars().collect();
    let double: Vec<char> = " ═║╗══╔╦║╝║╣╚╩╠╬".chars().collect();
    for i in 0..16usize {
        let n = (i & 8 != 0, i & 4 != 0, i & 2 != 0, i & 1 != 0);
        assert_eq!(LineStyle::Regular.get_char(n), regular[i]);
        assert_eq!(LineStyle::Thick.get_char(n), thick[i]);
        assert_eq!(LineStyle::Double.get_char(n), double[i]);
    }
}

#[test]
fn directions_step_one_cell() {
    assert_eq!(Direction::Up.delta(), Point::new(0, 1));
    assert_eq!(Direction::Right.delta(), Point::new(1, 0));
    assert_eq!(Direction::Down.delta(), Point::new(0, -1));
    assert_eq!(Direction::Left.delta(), Point::new(-1, 0));
    assert_eq!(Direction::all(), [Direction::Up, Direction::Right, Direction::Down, Direction::Left]);
    assert_eq!(Direction::from_step(Point::new(1, 1), Point::new(1, 0)), Some(Direction::Down));
    assert_eq!(Direction::from_step(Point::new(1, 1), Point::new(2, 2)), None);
    assert_eq!(Direction::Left.step_from(Point::new(isize::MIN, 0)), None);
}

#[test]
fn box_is_drawn_with_border_and_padding() {
    let b = text_box("hi", None, (0, 1, 0, 1));
    assert_eq!(b.get_bbox(), BoundingBox::new(1, 3, -1, -2));
    let out = render(&vec![Item::Box(b)]).unwrap();
    assert_eq!(out, "┌────┐\n│ hi │\n└────┘\n");
}

#[test]
fn box_truncates_and_wraps_its_text() {
    let mut b = text_box("abcdef", Some(3), (0, 0, 0, 0));
    b.truncate_string = Some("…".to_string());
    assert_eq!(render(&vec![Item::Box(b)]).unwrap(), "┌───┐\n│ab…│\n└───┘\n");
    let b = text_box("ab cd", Some(4), (0, 0, 0, 0));
    assert_eq!(render(&vec![Item::Box(b)]).unwrap(), "┌────┐\n│ab  │\n│cd  │\n└────┘\n");
}

#[test]
fn box_text_pixels_carry_position_and_weight() {
    let mut b = text_box("a b", Some(4), (0, 0, 0, 0));
    b.position = Point::new(10, 20);
    b.weight = Some(4);
    let (pixels, bbox) = b.format_text();
    assert_eq!(bbox, BoundingBox::new(20, 13, 20, 10));
    assert_eq!(pixels.get(Point::new(10, 20)).unwrap().character, 'a');
    assert_eq!(pixels.get(Point::new(11, 20)).unwrap().character, ' ');
    assert_eq!(pixels.get(Point::new(12, 20)).unwrap().weight, Some(4));
    assert_eq!(pixels.get(Point::new(13, 20)).unwrap().character, ' ');
    assert!(pixels.get(Point::new(14, 20)).is_none());
    b.transparent = true;
    let (pixels, _) = b.format_text();
    assert_eq!(pixels.get(Point::new(11, 20)).unwrap().character, ' ');
    assert_eq!(pixels.get(Point::new(12, 20)).unwrap().character, 'b');
    assert!(pixels.get(Point::new(13, 20)).is_none());
}

#[test]
fn transparent_box_lets_others_show_through() {
    let mut b = text_box("a", Some(3), (0, 0, 0, 0));
    let under = Pixel::new('#', Point::new(1, 0), TextStyle::default(), Some(1));
    let out = render(&vec![Item::Pixel(under), Item::Box(b.clone())]).unwrap();
    assert_eq!(out, "┌───┐\n│a  │\n└───┘\n");
    b.transparent = true;
    let out = render(&vec![Item::Pixel(under), Item::Box(b.clone())]).unwrap();
    assert_eq!(out, "┌───┐\n│a  │\n└───┘\n");
    b.transparent_padding = true;
    let out = render(&vec![Item::Pixel(under), Item::Box(b)]).unwrap();
    assert_eq!(out, "┌───┐\n│a# │\n└───┘\n");
}

#[test]
fn border_without_line_style_is_blank() {
    let b = BoundingBox::new(2, 2, 0, 0);
    let map = b.as_map(&TextStyle::default(), &TextStyle::default(), None, Some(1), false);
    assert_eq!(map.get(Point::new(0, 0)).unwrap().character, ' ');
    assert_eq!(map.get(Point::new(1, 1)).unwrap().character, ' ');
    let map = b.as_map(&TextStyle::default(), &TextStyle::default(), Some(LineStyle::Double), Some(1), true);
    assert_eq!(map.get(Point::new(0, 0)).unwrap().character, '╚');
    assert_eq!(map.get(Point::new(2, 2)).unwrap().character, '╗');
    assert_eq!(map.get(Point::new(1, 2)).unwrap().character, '═');
    assert_eq!(map.get(Point::new(0, 1)).unwrap().character, '║');
    assert!(map.get(Point::new(1, 1)).is_none());
}

fn route(start: (isize, isize), end: (isize, isize), barriers: &Vec<Item>) -> TextPath {
    TextPath::new(
        Point::new(start.0, start.1),
        Point::new(end.0, end.1),
        TextStyle::default(),
        LineStyle::Regular,
        Some(1),
        None,
        None,
        1,
        &vec![],
        barriers,
        &vec![],
        Some(BoundingBox::new(3, 6, -3, -1)),
    )
    .unwrap()
}

#[test]
fn straight_path_is_a_line() {
    let path = route((0, 0), (3, 0), &vec![]);
    assert_eq!(path.path.len(), 4);
    assert_eq!(render(&vec![Item::Path(path)]).unwrap(), "────\n");
}

#[test]
fn path_ends_follow_the_given_directions() {
    let mut path = route((0, 0), (3, 0), &vec![]);
    path.start_direction = Some(Direction::Up);
    path.end_direction = Some(Direction::Down);
    assert_eq!(render(&vec![Item::Path(path)]).unwrap(), "└──┐\n");
}

#[test]
fn path_ends_take_arrowheads() {
    let path = route((0, 0), (3, 0), &vec![]).with_ends(
        TextStyle::default(),
        Some(ArrowType::OpenArrow),
        TextStyle::default(),
        Some(ArrowType::Arrow),
    );
    assert_eq!(render(&vec![Item::Path(path)]).unwrap(), "◁──▶\n");
}

#[test]
fn path_bends_around_a_barrier() {
    let barrier = Item::Pixel(Pixel::new('#', Point::new(1, 0), TextStyle::default(), Some(1)));
    let path = route((0, 0), (2, 0), &vec![barrier.clone()]);
    assert!(!path.path.contains(&Point::new(1, 0)));
    let group = path.as_group().unwrap();
    assert_eq!(group.weight, Some(0));
    assert_eq!(group.len(), path.path.len());
    for i in 0..group.len() {
        assert_eq!(group.get(i).position, path.path[i]);
        assert_eq!(group.get(i).weight, Some(1));
    }
    let out = render(&vec![barrier, Item::Path(path)]).unwrap();
    assert!(out == "┌─┐\n│#│\n" || out == "│#│\n└─┘\n", "{}", out);
}

#[test]
fn path_joins_the_paths_drawn_before() {
    let first = route((0, 0), (4, 0), &vec![]);
    let second = TextPath::new(
        Point::new(2, -2),
        Point::new(2, -1),
        TextStyle::default(),
        LineStyle::Regular,
        Some(1),
        None,
        None,
        1,
        &vec![],
        &vec![],
        &vec![Item::Path(first.clone())],
        Some(BoundingBox::new(0, 4, -2, 0)),
    )
    .unwrap();
    let out = render(&vec![Item::Path(first), Item::Path(second)]).unwrap();
    assert_eq!(out, "─────\n  │  \n  │  \n");
}

#[test]
fn box_at_the_edge_of_the_grid_does_not_fit() {
    let mut b = text_box("hi", None, (0, 1, 0, 1));
    assert!(b.check_fits());
    b.position = Point::new(isize::MAX - 2, 0);
    assert!(!b.check_fits());
    b.position = Point::new(isize::MAX - 3, 0);
    assert!(b.check_fits());
    b.position = Point::new(isize::MIN + 1, 0);
    assert!(!b.check_fits());
}

#[test]
fn box_group_has_one_pixel_for_each_cell() {
    let b = text_box("a", None, (0, 0, 0, 0));
    let group = b.as_group();
    assert_eq!(group.len(), 9);
    for i in 0..group.len() {
        for j in i + 1..group.len() {
            assert_ne!(group.get(i).position, group.get(j).position);
        }
        assert!(b.get_bbox().contains_point(&group.get(i).position));
    }
    let centre = (0..group.len()).map(|i| group.get(i)).find(|p| p.position == Point::new(0, 0));
    assert_eq!(centre.unwrap().character, 'a');
    let wide = text_box("hello world", Some(5), (1, 2, 1, 2));
    let group = wide.as_group();
    let bbox = wide.get_bbox();
    assert_eq!(group.len(), (bbox.width() + 1) * (bbox.height() + 1));
}

#[test]
fn arrowhead_takes_the_place_of_the_glyph() {
    let path = route((0, 0), (3, 0), &vec![]).with_ends(
        TextStyle::default(),
        Some(ArrowType::OpenArrow),
        TextStyle::default(),
        None,
    );
    let group = path.as_group().unwrap();
    assert_eq!(group.len(), 4);
    assert_eq!(group.get(0).character, '◁');
    assert_eq!(group.get(3).character, '─');
}

#[test]
fn path_runs_straight_in_an_empty_region() {
    for bend in [0usize, 1, 9] {
        let path = TextPath::new(
            Point::new(-2, 1),
            Point::new(4, 1),
            TextStyle::default(),
            LineStyle::Regular,
            None,
            None,
            None,
            bend,
            &vec![],
            &vec![],
            &vec![],
            Some(BoundingBox::new(5, 6, -5, -4)),
        )
        .unwrap();
        assert_eq!(path.path, (-2..=4).map(|x| Point::new(x, 1)).collect::<Vec<_>>());
    }
}

#[test]
fn path_runs_straight_over_the_paths_drawn_before() {
    let marked = |x: isize| Item::Pixel(Pixel::new('-', Point::new(x, 0), TextStyle::default(), Some(100)));
    let cells = vec![marked(1), marked(2)];
    let path = TextPath::new(
        Point::new(0, 0),
        Point::new(3, 0),
        TextStyle::default(),
        LineStyle::Regular,
        None,
        None,
        None,
        1,
        &cells,
        &vec![],
        &cells,
        Some(BoundingBox::new(1, 3, 0, 0)),
    )
    .unwrap();
    assert_eq!(path.path, (0..=3).map(|x| Point::new(x, 0)).collect::<Vec<_>>());
    let costly = TextPath::new(
        Point::new(0, 0),
        Point::new(3, 0),
        TextStyle::default(),
        LineStyle::Regular,
        None,
        None,
        None,
        1,
        &cells,
        &vec![],
        &vec![],
        Some(BoundingBox::new(1, 3, 0, 0)),
    )
    .unwrap();
    assert!(costly.path.iter().any(|p| p.y == 1));
}
