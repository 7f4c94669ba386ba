//! Directions, line styles and the table of connective glyphs.

use vstd::prelude::*;
use crate::geometry::Point;

verus! {

/// One of the four grid directions. `Up` is toward larger `y`.
#[derive(Clone, Copy, Debug, PartialEq, Eq, Structural, Hash)]
pub enum Direction {
    Up,
    Right,
    Down,
    Left,
}

impl Direction {
    /// The horizontal step of the direction.
    pub open spec fn dx(self) -> int {
        match self {
            Direction::Up => 0,
            Direction::Right => 1,
            Direction::Down => 0,
            Direction::Left => -1,
        }
    }

    /// The vertical step of the direction.
    pub open spec fn dy(self) -> int {
        match self {
            Direction::Up => 1,
            Direction::Right => 0,
            Direction::Down => -1,
            Direction::Left => 0,
        }
    }

    /// The direction with the given position in the fixed order up, right, down, left.
    pub open spec fn nth(i: int) -> Direction {
        if i == 0 {
            Direction::Up
        } else if i == 1 {
            Direction::Right
        } else if i == 2 {
            Direction::Down
        } else {
            Direction::Left
        }
    }

    /// The unit step of the direction.
    pub fn delta(self) -> (p: Point)
        ensures
            p.x == self.dx(),
            p.y == self.dy(),
    {
        match self {
            Direction::Up => Point { x: 0, y: 1 },
            Direction::Right => Point { x: 1, y: 0 },
            Direction::Down => Point { x: 0, y: -1 },
            Direction::Left => Point { x: -1, y: 0 },
        }
    }

    /// The four directions in the fixed order up, right, down, left.
    pub fn all() -> (d: [Direction; 4])
        ensures
            forall|i: int| 0 <= i < 4 ==> d@[i] == Direction::nth(i),
    {
        [Direction::Up, Direction::Right, Direction::Down, Direction::Left]
    }

    /// The direction of the unit step from `from` to `to`, if they are one step apart.
    pub open spec fn between(from: Point, to: Point) -> Option<Direction> {
        let dx = to.x - from.x;
        let dy = to.y - from.y;
        if dx == 0 && dy == 1 {
            Some(Direction::Up)
        } else if dx == 1 && dy == 0 {
            Some(Direction::Right)
        } else if dx == 0 && dy == -1 {
            Some(Direction::Down)
        } else if dx == -1 && dy == 0 {
            Some(Direction::Left)
        } else {
            None
        }
    }

    pub fn from_step(from: Point, to: Point) -> (d: Option<Direction>)
        ensures
            d == Direction::between(from, to),
    {
        if to.x == from.x {
            if from.y < isize::MAX && to.y == from.y + 1 {
                Some(Direction::Up)
            } else if from.y > isize::MIN && to.y == from.y - 1 {
                Some(Direction::Down)
            } else {
                None
            }
        } else if to.y == from.y {
            if from.x < isize::MAX && to.x == from.x + 1 {
                Some(Direction::Right)
            } else if from.x > isize::MIN && to.x == from.x - 1 {
                Some(Direction::Left)
            } else {
                None
            }
        } else {
            None
        }
    }

    /// The cell one step from `p` in this direction, or `None` at the edge of
    /// the representable grid.
    pub fn step_from(self, p: Point) -> (q: Option<Point>)
        ensures
            match q {
                Some(q) => q.x == p.x + self.dx() && q.y == p.y + self.dy(),
                None => !crate::geometry::fits_isize(p.x + self.dx()) || !crate::geometry::fits_isize(
                    p.y + self.dy(),
                ),
            },
    {
        p.checked_add(self.delta())
    }
}

impl Default for Direction {
    fn default() -> (d: Direction)
        ensures
            d == Direction::Up,
    {
        Direction::Up
    }
}

/// The weight of a line's strokes.
#[derive(Clone, Copy, Debug, PartialEq, Eq, Structural, Hash)]
pub enum LineStyle {
    Regular,
    Thick,
    Double,
}

/// Which of the four neighbours of a cell a line reaches: up, right, down, left.
pub type Neighbors = (bool, bool, bool, bool);

/// The position of a neighbour mask in a glyph table: up counts 8, right 4,
/// down 2 and left 1.
pub open spec fn mask_index(n: Neighbors) -> int {
    (if n.0 { 8int } else { 0 }) + (if n.1 { 4int } else { 0 }) + (if n.2 { 2int } else { 0 }) + (if n.3 {
        1int
    } else {
        0
    })
}

impl LineStyle {
    /// The sixteen glyphs of a line style, by neighbour mask.
    pub open spec fn table(self) -> Seq<char> {
        match self {
            LineStyle::Regular => seq![
                ' ', '╴', '╷', '┐', '╶', '─', '┌', '┬', '╵', '┘', '│', '┤', '└', '┴', '├', '┼',
            ],
            LineStyle::Thick => seq![
                ' ', '━', '┃', '┓', '━', '━', '┏', '┳', '┃', '┛', '┃', '┫', '┗', '┻', '┣', '╋',
            ],
            LineStyle::Double => seq![
                ' ', '═', '║', '╗', '═', '═', '╔', '╦', '║', '╝', '║', '╣', '╚', '╩', '╠', '╬',
            ],
        }
    }

    /// The glyph that joins exactly the given neighbours.
    pub open spec fn glyph(self, n: Neighbors) -> char {
        self.table()[mask_index(n)]
    }

    pub fn get_char(&self, neighbors: Neighbors) -> (c: char)
        ensures
            c == self.glyph(neighbors),
    {
        let table: [char; 16] = match self {
            LineStyle::Regular => [
                ' ', '╴', '╷', '┐', '╶', '─', '┌', '┬', '╵', '┘', '│', '┤', '└', '┴', '├', '┼',
            ],
            LineStyle::Thick => [
                ' ', '━', '┃', '┓', '━', '━', '┏', '┳', '┃', '┛', '┃', '┫', '┗', '┻', '┣', '╋',
            ],
            LineStyle::Double => [
                ' ', '═', '║', '╗', '═', '═', '╔', '╦', '║', '╝', '║', '╣', '╚', '╩', '╠', '╬',
            ],
        };
        let mut index: usize = 0;
        if neighbors.0 {
            index += 8;
        }
        if neighbors.1 {
            index += 4;
        }
        if neighbors.2 {
            index += 2;
        }
        if neighbors.3 {
            index += 1;
        }
        table[index]
    }
}

impl Default for LineStyle {
    fn default() -> (s: LineStyle)
        ensures
            s == LineStyle::Regular,
    {
        LineStyle::Regular
    }
}

/// The glyph of a border or fill cell: a connective glyph where a line style
/// is given, a blank where none is.
pub open spec fn border_glyph(line_style: Option<LineStyle>, n: Neighbors) -> char {
    match line_style {
        Some(ls) => ls.glyph(n),
        None => ' ',
    }
}

pub fn border_char(line_style: Option<LineStyle>, n: Neighbors) -> (c: char)
    ensures
        c == border_glyph(line_style, n),
{
    match line_style {
        Some(ls) => ls.get_char(n),
        None => ' ',
    }
}

/// A family of arrowheads, one glyph for each direction.
#[derive(Clone, Copy, Debug, PartialEq, Eq, Structural)]
pub enum ArrowType {
    Arrow,
    OpenArrow,
    Custom { up: char, right: char, down: char, left: char },
}

impl ArrowType {
    /// The arrowhead that points in `direction`.
    pub open spec fn head(self, direction: Direction) -> char {
        match self {
            ArrowType::Arrow => match direction {
                Direction::Up => '▲',
                Direction::Right => '▶',
                Direction::Down => '▼',
                Direction::Left => '◀',
            },
            ArrowType::OpenArrow => match direction {
                Direction::Up => '△',
                Direction::Right => '▷',
                Direction::Down => '▽',
                Direction::Left => '◁',
            },
            ArrowType::Custom { up, right, down, left } => match direction {
                Direction::Up => up,
                Direction::Right => right,
                Direction::Down => down,
                Direction::Left => left,
            },
        }
    }

    pub fn arrow_char(&self, direction: Direction) -> (c: char)
        ensures
            c == self.head(direction),
    {
        match self {
            ArrowType::Arrow => match direction {
                Direction::Up => '▲',
                Direction::Right => '▶',
                Direction::Down => '▼',
                Direction::Left => '◀',
            },
            ArrowType::OpenArrow => match direction {
                Direction::Up => '△',
                Direction::Right => '▷',
                Direction::Down => '▽',
                Direction::Left => '◁',
            },
            ArrowType::Custom { up, right, down, left } => match direction {
                Direction::Up => *up,
                Direction::Right => *right,
                Direction::Down => *down,
                Direction::Left => *left,
            },
        }
    }
}

impl Default for ArrowType {
    fn default() -> (a: ArrowType)
        ensures
            a == ArrowType::Arrow,
    {
        ArrowType::Arrow
    }
}

} // verus!
