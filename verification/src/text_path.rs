//! Connector lines: a route between two cells, drawn with connective glyphs.

use vstd::prelude::*;
use crate::canvas::{bounds, composed, drawable, fit, map_to_bounding_box, objs_to_map, Item};
use crate::error::Error;
use crate::geometry::{fits_isize, BoundingBox, Point};
use crate::glyph::{ArrowType, Direction, LineStyle, Neighbors};
use crate::pixel::{keyed, Pixel, PixelGroup};
use crate::point_map::{lemma_map_of_push, map_of, PointMap};
use crate::router::{astar, is_route, is_simple, reachable, NodeCost};
use crate::search_steps::{finds_no_route, is_found_route, Rules};
use crate::straight::{clear_line, straight};
use crate::style::TextStyle;

verus! {

/// The cell one step from `p` in direction `d`, as unbounded integers.
pub open spec fn beyond(p: Point, d: Direction) -> (int, int) {
    (p.x + d.dx(), p.y + d.dy())
}

/// True when `q` is a cell of `path`.
pub open spec fn on_path(path: Seq<Point>, q: (int, int)) -> bool {
    exists|i: int| 0 <= i < path.len() && (#[trigger] path[i]).coords() == q
}

/// True when `q` is a cell of `extras`.
pub open spec fn among(extras: Map<Point, Pixel>, q: (int, int)) -> bool {
    fits_isize(q.0) && fits_isize(q.1) && extras.contains_key(
        Point { x: q.0 as isize, y: q.1 as isize },
    )
}

/// The direction in which a path leaves its first cell backward: the one
/// given, else the direction from the second cell to the first.
pub open spec fn start_dir_of(path: Seq<Point>, given: Option<Direction>) -> Option<Direction> {
    match given {
        Some(d) => Some(d),
        None => Direction::between(path[1], path[0]),
    }
}

/// The direction in which a path leaves its last cell forward: the one
/// given, else the direction from the cell before the last to the last.
pub open spec fn end_dir_of(path: Seq<Point>, given: Option<Direction>) -> Option<Direction> {
    match given {
        Some(d) => Some(d),
        None => Direction::between(path[path.len() - 2], path[path.len() - 1]),
    }
}

/// The cell one step beyond `p` in direction `d`, where there is a direction.
pub open spec fn virtual_cell(p: Point, d: Option<Direction>) -> Option<(int, int)> {
    match d {
        Some(d) => Some(beyond(p, d)),
        None => None,
    }
}

/// What the glyphs of a path connect to.
pub struct Surroundings {
    pub path: Seq<Point>,
    /// Cells of other paths that this path joins.
    pub extras: Map<Point, Pixel>,
    /// The cell beyond the first cell, which is not drawn.
    pub before: Option<(int, int)>,
    /// The cell beyond the last cell, which is not drawn.
    pub after: Option<(int, int)>,
}

impl Surroundings {
    /// True when a line runs through `q`.
    pub open spec fn occupied(self, q: (int, int)) -> bool {
        on_path(self.path, q) || among(self.extras, q) || self.before == Some(q) || self.after
            == Some(q)
    }

    /// Which neighbours of `p` a line runs through.
    pub open spec fn neighbors(self, p: Point) -> Neighbors {
        (
            self.occupied(beyond(p, Direction::Up)),
            self.occupied(beyond(p, Direction::Right)),
            self.occupied(beyond(p, Direction::Down)),
            self.occupied(beyond(p, Direction::Left)),
        )
    }
}

/// The pixels of a map, each with the weight `w`.
pub open spec fn reweighed(m: Map<Point, Pixel>, w: Option<usize>) -> Map<Point, Pixel> {
    Map::new(|p: Point| m.contains_key(p), |p: Point| Pixel { weight: w, ..m[p] })
}

/// What a route pays to enter a cell of the given weight.
pub open spec fn weight_cost(w: Option<usize>) -> NodeCost {
    match w {
        Some(cost) => NodeCost::Cost { cost, group: None },
        None => NodeCost::Blocked,
    }
}

/// What a route pays to enter each cell of a map of pixels.
pub open spec fn costs(m: Map<Point, Pixel>) -> Map<Point, NodeCost> {
    Map::new(|p: Point| m.contains_key(p), |p: Point| weight_cost(m[p].weight))
}

/// What a route finds in its way: the environment as it is drawn, over it
/// the barriers, which cannot be entered, and over them the paths drawn
/// before, which are entered for free.
pub open spec fn obstacles(environment: Seq<Item>, barriers: Seq<Item>, paths: Seq<Item>) -> Map<
    Point,
    Pixel,
> {
    composed(environment).union_prefer_right(
        reweighed(composed(barriers), None),
    ).union_prefer_right(reweighed(composed(paths), Some(0usize)))
}

/// The region that a route is searched in: the box given, or else the
/// bounding box of the obstacles, grown to hold the start and the end.
pub open spec fn search_region(
    bbox: Option<BoundingBox>,
    obstacles: Map<Point, Pixel>,
    start: Point,
    end: Point,
) -> BoundingBox {
    (match bbox {
        Some(b) => b,
        None => bounds(obstacles.dom()),
    }).extended(start).extended(end)
}

/// What the search for a path is given: the goal, what the obstacles cost,
/// the bend penalty, the region, and no group.
pub open spec fn search_rules(
    start: Point,
    end: Point,
    bend_penalty: usize,
    environment: Seq<Item>,
    barriers: Seq<Item>,
    paths: Seq<Item>,
    bbox: Option<BoundingBox>,
) -> Rules {
    Rules {
        goal: end,
        env: costs(obstacles(environment, barriers, paths)),
        bend_penalty,
        region: search_region(bbox, obstacles(environment, barriers, paths), start, end),
        group: None,
    }
}

/// Draws the pixels of `over` over `under`, each with the weight `w`.
fn lay_over(under: &mut PointMap<Pixel>, over: &PointMap<Pixel>, w: Option<usize>)
    requires
        keyed(old(under).entries@),
        keyed(over.entries@),
    ensures
        keyed(final(under).entries@),
        final(under)@ == old(under)@.union_prefer_right(reweighed(over@, w)),
{
    let ghost base = under@;
    let mut i: usize = 0;
    assert(over.entries@.subrange(0, 0) =~= Seq::<(Point, Pixel)>::empty());
    assert(under@ =~= base.union_prefer_right(reweighed(map_of(over.entries@.subrange(0, 0)), w)));
    while i < over.entries.len()
        invariant
            i <= over.entries@.len(),
            keyed(under.entries@),
            keyed(over.entries@),
            under@ == base.union_prefer_right(
                reweighed(map_of(over.entries@.subrange(0, i as int)), w),
            ),
        decreases over.entries@.len() - i,
    {
        let position = over.entries[i].0;
        let pixel = over.entries[i].1.with_weight(w);
        proof {
            let upto = over.entries@.subrange(0, i as int);
            assert(over.entries@.subrange(0, i + 1) =~= upto.push(over.entries@[i as int]));
            lemma_map_of_push(upto, position, over.entries@[i as int].1);
            assert(over.entries@[i as int] == (position, over.entries@[i as int].1));
        }
        under.insert(position, pixel);
        proof {
            assert(under@ =~= base.union_prefer_right(
                reweighed(map_of(over.entries@.subrange(0, i + 1)), w),
            ));
        }
        i += 1;
    }
    assert(over.entries@.subrange(0, over.entries@.len() as int) =~= over.entries@);
}

/// What a route pays to enter each cell of a map of pixels.
fn cost_map_of(pixels: &PointMap<Pixel>) -> (map: PointMap<NodeCost>)
    ensures
        map@ == costs(pixels@),
{
    let mut map: PointMap<NodeCost> = PointMap::new();
    let mut i: usize = 0;
    assert(pixels.entries@.subrange(0, 0) =~= Seq::<(Point, Pixel)>::empty());
    assert(map@ =~= costs(map_of(pixels.entries@.subrange(0, 0))));
    while i < pixels.entries.len()
        invariant
            i <= pixels.entries@.len(),
            map@ == costs(map_of(pixels.entries@.subrange(0, i as int))),
        decreases pixels.entries@.len() - i,
    {
        let position = pixels.entries[i].0;
        let cost = NodeCost::from_weight(pixels.entries[i].1.weight);
        proof {
            let upto = pixels.entries@.subrange(0, i as int);
            assert(pixels.entries@.subrange(0, i + 1) =~= upto.push(pixels.entries@[i as int]));
            lemma_map_of_push(upto, position, pixels.entries@[i as int].1);
            assert(pixels.entries@[i as int] == (position, pixels.entries@[i as int].1));
        }
        map.insert(position, cost);
        proof {
            assert(map@ =~= costs(map_of(pixels.entries@.subrange(0, i + 1))));
        }
        i += 1;
    }
    assert(pixels.entries@.subrange(0, pixels.entries@.len() as int) =~= pixels.entries@);
    map
}

/// A routing specification and the route resolved for it.
#[derive(Clone, Debug)]
pub struct TextPath {
    /// The route, from `start` to `end`.
    pub path: Vec<Point>,
    pub style: TextStyle,
    pub line_style: LineStyle,
    pub weight: Option<usize>,
    /// The direction in which the line leaves the first cell; taken from the
    /// route where `None`.
    pub start_direction: Option<Direction>,
    /// The direction in which the line leaves the last cell; taken from the
    /// route where `None`.
    pub end_direction: Option<Direction>,
    pub start: Point,
    pub end: Point,
    /// The paths drawn before, which this path may join.
    pub paths: PointMap<Pixel>,
    /// The style of the first cell.
    pub start_style: TextStyle,
    /// The style of the last cell.
    pub end_style: TextStyle,
    /// The arrowhead that takes the place of the glyph of the first cell.
    pub start_arrow: Option<ArrowType>,
    /// The arrowhead that takes the place of the glyph of the last cell.
    pub end_arrow: Option<ArrowType>,
}

/// Two steps lead to the same cell.
fn same_cell(p: Point, d: Direction, q: Point, e: Direction) -> (same: bool)
    ensures
        same == (beyond(p, d) == beyond(q, e)),
{
    let dp = d.delta();
    let dq = e.delta();
    (p.x as i128 + dp.x as i128 == q.x as i128 + dq.x as i128) && (p.y as i128 + dp.y as i128 == q.y as i128
        + dq.y as i128)
}

fn path_has(path: &Vec<Point>, q: Point) -> (found: bool)
    ensures
        found == on_path(path@, q.coords()),
{
    let mut i: usize = 0;
    while i < path.len()
        invariant
            i <= path@.len(),
            forall|j: int| 0 <= j < i ==> (#[trigger] path@[j]).coords() != q.coords(),
        decreases path@.len() - i,
    {
        if path[i] == q {
            return true;
        }
        i += 1;
    }
    false
}

impl TextPath {
    /// Routes a line from `start` to `end` around what is drawn already.
    ///
    /// The cells of `environment` cost their weight, those of `barriers`
    /// cannot be entered and those of `paths` are free; a turn costs
    /// `bend_penalty`. The route is searched in `bbox`, or in the bounding
    /// box of all these, grown to hold `start` and `end`. The first and the last cell take the style of the
    /// line, and no arrowhead.
    pub fn new(
        start: Point,
        end: Point,
        style: TextStyle,
        line_style: LineStyle,
        weight: Option<usize>,
        start_direction: Option<Direction>,
        end_direction: Option<Direction>,
        bend_penalty: usize,
        environment: &Vec<Item>,
        barriers: &Vec<Item>,
        paths: &Vec<Item>,
        bbox: Option<BoundingBox>,
    ) -> (r: Result<TextPath, Error>)
        requires
            fit(environment@),
            fit(barriers@),
            fit(paths@),
        ensures
            match r {
                Ok(t) => {
                    &&& drawable(environment@) && drawable(barriers@) && drawable(paths@)
                    &&& is_route(
                        t.path@,
                        start,
                        end,
                        costs(obstacles(environment@, barriers@, paths@)),
                        search_region(bbox, obstacles(environment@, barriers@, paths@), start, end),
                    )
                    &&& is_simple(t.path@)
                    &&& is_found_route(
                        start,
                        search_rules(start, end, bend_penalty, environment@, barriers@, paths@, bbox),
                        t.path@,
                    )
                    &&& forall|d: Direction, n: nat| #[trigger]
                        clear_line(
                            start,
                            end,
                            d,
                            n,
                            costs(obstacles(environment@, barriers@, paths@)),
                            search_region(bbox, obstacles(environment@, barriers@, paths@), start, end),
                            None,
                        ) ==> t.path@ == straight(start, d, n)
                    &&& t.style == style
                    &&& t.line_style == line_style
                    &&& t.weight == weight
                    &&& t.start_direction == start_direction
                    &&& t.end_direction == end_direction
                    &&& t.start == start
                    &&& t.end == end
                    &&& t.paths@ == composed(paths@)
                    &&& t.start_style == style
                    &&& t.end_style == style
                    &&& t.start_arrow is None
                    &&& t.end_arrow is None
                },
                Err(e) => if drawable(environment@) && drawable(barriers@) && drawable(paths@) {
                    e == Error::NoPath && finds_no_route(
                        start,
                        search_rules(start, end, bend_penalty, environment@, barriers@, paths@, bbox),
                    ) && (forall|d: Direction, n: nat|
                        !clear_line(
                            start,
                            end,
                            d,
                            n,
                            costs(obstacles(environment@, barriers@, paths@)),
                            search_region(bbox, obstacles(environment@, barriers@, paths@), start, end),
                            None,
                        )) && !reachable(
                        start,
                        end,
                        costs(obstacles(environment@, barriers@, paths@)),
                        search_region(bbox, obstacles(environment@, barriers@, paths@), start, end),
                    )
                } else {
                    e == Error::PathTooShort
                },
            },
    {
        let mut around = match objs_to_map(environment) {
            Ok(map) => map,
            Err(e) => {
                return Err(e);
            },
        };
        let barred = match objs_to_map(barriers) {
            Ok(map) => map,
            Err(e) => {
                return Err(e);
            },
        };
        let joined = match objs_to_map(paths) {
            Ok(map) => map,
            Err(e) => {
                return Err(e);
            },
        };
        lay_over(&mut around, &barred, None);
        lay_over(&mut around, &joined, Some(0));
        let region = match bbox {
            Some(b) => b,
            None => map_to_bounding_box(&around),
        };
        let region = region.add_point(start).add_point(end);
        let cost_map = cost_map_of(&around);
        match astar(start, end, &cost_map, bend_penalty, region, None) {
            Ok(path) => Ok(
                TextPath {
                    path,
                    style,
                    line_style,
                    weight,
                    start_direction,
                    end_direction,
                    start,
                    end,
                    paths: joined,
                    start_style: style,
                    end_style: style,
                    start_arrow: None,
                    end_arrow: None,
                },
            ),
            Err(e) => Err(e),
        }
    }

    /// The same path with its ends drawn in styles of their own and with
    /// arrowheads.
    pub fn with_ends(
        self,
        start_style: TextStyle,
        start_arrow: Option<ArrowType>,
        end_style: TextStyle,
        end_arrow: Option<ArrowType>,
    ) -> (t: TextPath)
        ensures
            t == (TextPath { start_style, start_arrow, end_style, end_arrow, ..self }),
    {
        TextPath { start_style, start_arrow, end_style, end_arrow, ..self }
    }

    /// What the glyphs of the path connect to.
    pub open spec fn surroundings(&self) -> Surroundings {
        Surroundings {
            path: self.path@,
            extras: self.paths@,
            before: virtual_cell(self.path@[0], start_dir_of(self.path@, self.start_direction)),
            after: virtual_cell(
                self.path@[self.path@.len() - 1],
                end_dir_of(self.path@, self.end_direction),
            ),
        }
    }

    /// The style of the cell `p`: that of the first cell, that of the last
    /// cell, or that of the line.
    pub open spec fn style_at(&self, p: Point) -> TextStyle {
        if p == self.path@[0] {
            self.start_style
        } else if p == self.path@[self.path@.len() - 1] {
            self.end_style
        } else {
            self.style
        }
    }

    /// The pixel of the `i`-th cell of the path: the glyph that connects it
    /// to the neighbours a line runs through.
    pub open spec fn line_pixel(&self, i: int) -> Pixel {
        let p = self.path@[i];
        Pixel {
            character: self.line_style.glyph(self.surroundings().neighbors(p)),
            position: p,
            style: self.style_at(p),
            weight: self.weight,
        }
    }

    /// The arrowhead of the first cell, if it has one.
    pub open spec fn start_head(&self) -> Option<char> {
        match (self.start_arrow, start_dir_of(self.path@, self.start_direction)) {
            (Some(a), Some(d)) => Some(a.head(d)),
            _ => None,
        }
    }

    /// The arrowhead of the last cell, if it has one.
    pub open spec fn end_head(&self) -> Option<char> {
        match (self.end_arrow, end_dir_of(self.path@, self.end_direction)) {
            (Some(a), Some(d)) => Some(a.head(d)),
            _ => None,
        }
    }

    /// The pixel drawn for the `i`-th cell of the path: the arrowhead of the
    /// last or of the first cell where the cell is that cell and has one,
    /// in the style of that end, and else the connective glyph.
    pub open spec fn cell_pixel(&self, i: int) -> Pixel {
        let p = self.path@[i];
        if p == self.path@[self.path@.len() - 1] && self.end_head() is Some {
            Pixel {
                character: self.end_head()->0,
                position: p,
                style: self.end_style,
                weight: self.weight,
            }
        } else if p == self.path@[0] && self.start_head() is Some {
            Pixel {
                character: self.start_head()->0,
                position: p,
                style: self.start_style,
                weight: self.weight,
            }
        } else {
            self.line_pixel(i)
        }
    }

    /// The pixels of the path: one for each cell of the route, in its order.
    pub open spec fn drawn_pixels(&self) -> Seq<Pixel> {
        Seq::new(self.path@.len(), |i: int| self.cell_pixel(i))
    }

    /// True when a line runs through the neighbour of `p` in direction `d`.
    fn runs_through(
        &self,
        p: Point,
        d: Direction,
        before: Option<Direction>,
        after: Option<Direction>,
    ) -> (yes: bool)
        requires
            self.path@.len() >= 2,
            before == start_dir_of(self.path@, self.start_direction),
            after == end_dir_of(self.path@, self.end_direction),
        ensures
            yes == self.surroundings().occupied(beyond(p, d)),
    {
        let first = self.path[0];
        let last = self.path[self.path.len() - 1];
        let at_before = match before {
            Some(e) => same_cell(p, d, first, e),
            None => false,
        };
        let at_after = match after {
            Some(e) => same_cell(p, d, last, e),
            None => false,
        };
        if at_before || at_after {
            return true;
        }
        match d.step_from(p) {
            Some(q) => {
                assert(q.coords() == beyond(p, d));
                assert(Point { x: q.coords().0 as isize, y: q.coords().1 as isize } == q);
                path_has(&self.path, q) || self.paths.contains_key(q)
            },
            None => {
                assert(!on_path(self.path@, beyond(p, d)));
                false
            },
        }
    }

    /// The path as a group of pixels at the origin.
    pub fn as_group(&self) -> (r: Result<PixelGroup, Error>)
        ensures
            match r {
                Ok(g) => {
                    &&& self.path@.len() >= 2
                    &&& g.pixels@ == self.drawn_pixels()
                    &&& g.position == (Point { x: 0, y: 0 })
                    &&& g.style == TextStyle::plain()
                    &&& g.weight == Some(0usize)
                },
                Err(e) => e == Error::PathTooShort && self.path@.len() < 2,
            },
    {
        let n = self.path.len();
        if n < 2 {
            return Err(Error::PathTooShort);
        }
        let first = self.path[0];
        let last = self.path[n - 1];
        let before = match self.start_direction {
            Some(d) => Some(d),
            None => Direction::from_step(self.path[1], first),
        };
        let after = match self.end_direction {
            Some(d) => Some(d),
            None => Direction::from_step(self.path[n - 2], last),
        };
        let start_head = match (self.start_arrow, before) {
            (Some(a), Some(d)) => Some(a.arrow_char(d)),
            _ => None,
        };
        let end_head = match (self.end_arrow, after) {
            (Some(a), Some(d)) => Some(a.arrow_char(d)),
            _ => None,
        };
        let mut pixels: Vec<Pixel> = Vec::new();
        let mut i: usize = 0;
        while i < n
            invariant
                i <= n,
                n == self.path@.len(),
                n >= 2,
                first == self.path@[0],
                last == self.path@[n - 1],
                before == start_dir_of(self.path@, self.start_direction),
                after == end_dir_of(self.path@, self.end_direction),
                start_head == self.start_head(),
                end_head == self.end_head(),
                pixels@.len() == i,
                forall|j: int| 0 <= j < i ==> #[trigger] pixels@[j] == self.cell_pixel(j),
            decreases n - i,
        {
            let p = self.path[i];
            let head: Option<(char, TextStyle)> = if p == last && end_head.is_some() {
                Some((end_head.unwrap(), self.end_style))
            } else if p == first && start_head.is_some() {
                Some((start_head.unwrap(), self.start_style))
            } else {
                None
            };
            match head {
                Some((character, style)) => {
                    pixels.push(Pixel { character, position: p, style, weight: self.weight });
                },
                None => {
                    let up = self.runs_through(p, Direction::Up, before, after);
                    let right = self.runs_through(p, Direction::Right, before, after);
                    let down = self.runs_through(p, Direction::Down, before, after);
                    let left = self.runs_through(p, Direction::Left, before, after);
                    let style = if p == first {
                        self.start_style
                    } else if p == last {
                        self.end_style
                    } else {
                        self.style
                    };
                    pixels.push(
                        Pixel {
                            character: self.line_style.get_char((up, right, down, left)),
                            position: p,
                            style,
                            weight: self.weight,
                        },
                    );
                },
            }
            i += 1;
        }
        assert(pixels@ =~= self.drawn_pixels());
        Ok(
            PixelGroup {
                pixels,
                position: Point { x: 0, y: 0 },
                style: TextStyle::default(),
                weight: Some(0),
            },
        )
    }
}

} // verus!
