//! The frame of a rectangle: its border line and the fill of its interior.

use vstd::prelude::*;
use crate::geometry::{BoundingBox, Point};
use crate::glyph::{border_char, border_glyph, LineStyle, Neighbors};
use crate::pixel::{keyed, weighing, Pixel};
use crate::point_map::PointMap;
use crate::style::TextStyle;

verus! {

/// How a frame is drawn.
#[derive(Clone, Copy, Debug, PartialEq, Eq, Structural)]
pub struct FrameLook {
    /// The style of the border cells.
    pub border_style: TextStyle,
    /// The style of the cells inside the border.
    pub fill_style: TextStyle,
    /// The strokes of the border; a border of blanks where `None`.
    pub line_style: Option<LineStyle>,
    /// The weight of every cell of the frame.
    pub weight: Option<usize>,
    /// Where set, the cells inside the border are left out.
    pub transparent: bool,
}

/// How far the drawing of a frame has come. The frame is drawn in this
/// order: the horizontal edges column by column, the vertical edges row by
/// row, the four corners, then the interior column by column.
pub struct Progress {
    /// The horizontal edges are drawn in the columns left of `edge_x`.
    pub edge_x: int,
    /// The vertical edges are drawn in the rows below `edge_y`.
    pub edge_y: int,
    /// Number of corners drawn, in the order top right, bottom right, top
    /// left, bottom left.
    pub corners: int,
    /// The interior is drawn in the columns left of `fill_x`,
    pub fill_x: int,
    /// and in column `fill_x` in the rows below `fill_y`.
    pub fill_y: int,
}

impl FrameLook {
    /// The pixel of this look with the given glyph.
    pub open spec fn edge(self, p: Point, n: Neighbors) -> Pixel {
        Pixel {
            character: border_glyph(self.line_style, n),
            position: p,
            style: self.border_style,
            weight: self.weight,
        }
    }

    /// The pixel of an interior cell.
    pub open spec fn filling(self, p: Point) -> Pixel {
        Pixel { character: ' ', position: p, style: self.fill_style, weight: self.weight }
    }

    /// The pixel that the frame of `b` has at `p` once drawn as far as `done`.
    pub open spec fn partial(self, b: BoundingBox, done: Progress, p: Point) -> Option<Pixel> {
        let between_x = b.left < p.x < b.right;
        let between_y = b.bottom < p.y < b.top;
        if between_x && between_y && (p.x < done.fill_x || (p.x == done.fill_x && p.y < done.fill_y)) {
            Some(self.filling(p))
        } else if done.corners >= 4 && p.x == b.left && p.y == b.bottom {
            Some(self.edge(p, (true, true, false, false)))
        } else if done.corners >= 3 && p.x == b.left && p.y == b.top {
            Some(self.edge(p, (false, true, true, false)))
        } else if done.corners >= 2 && p.x == b.right && p.y == b.bottom {
            Some(self.edge(p, (true, false, false, true)))
        } else if done.corners >= 1 && p.x == b.right && p.y == b.top {
            Some(self.edge(p, (false, false, true, true)))
        } else if between_y && p.y < done.edge_y && (p.x == b.left || p.x == b.right) {
            Some(self.edge(p, (true, false, true, false)))
        } else if between_x && p.x < done.edge_x && (p.y == b.top || p.y == b.bottom) {
            Some(self.edge(p, (false, true, false, true)))
        } else {
            None
        }
    }

    /// The pixel that the finished frame of `b` has at `p`, if it has one.
    ///
    /// The corners come first, then the vertical and the horizontal edges
    /// between them, then the interior, unless it is transparent.
    pub open spec fn pixel_at(self, b: BoundingBox, p: Point) -> Option<Pixel> {
        let between_x = b.left < p.x < b.right;
        let between_y = b.bottom < p.y < b.top;
        if p.x == b.left && p.y == b.bottom {
            Some(self.edge(p, (true, true, false, false)))
        } else if p.x == b.left && p.y == b.top {
            Some(self.edge(p, (false, true, true, false)))
        } else if p.x == b.right && p.y == b.bottom {
            Some(self.edge(p, (true, false, false, true)))
        } else if p.x == b.right && p.y == b.top {
            Some(self.edge(p, (false, false, true, true)))
        } else if between_y && (p.x == b.left || p.x == b.right) {
            Some(self.edge(p, (true, false, true, false)))
        } else if between_x && (p.y == b.top || p.y == b.bottom) {
            Some(self.edge(p, (false, true, false, true)))
        } else if between_x && between_y && !self.transparent {
            Some(self.filling(p))
        } else {
            None
        }
    }

    /// The frame of `b` drawn as far as `done`, as a map.
    pub open spec fn partial_map(self, b: BoundingBox, done: Progress) -> Map<Point, Pixel> {
        Map::new(|p: Point| self.partial(b, done, p) is Some, |p: Point| self.partial(b, done, p)->0)
    }

    /// The finished frame of `b`, as a map.
    pub open spec fn frame_map(self, b: BoundingBox) -> Map<Point, Pixel> {
        Map::new(|p: Point| self.pixel_at(b, p) is Some, |p: Point| self.pixel_at(b, p)->0)
    }
}

fn put(m: &mut PointMap<Pixel>, look: &FrameLook, x: isize, y: isize, n: Neighbors)
    requires
        keyed(old(m).entries@),
        weighing(old(m).entries@, look.weight),
    ensures
        keyed(final(m).entries@),
        weighing(final(m).entries@, look.weight),
        final(m)@ == old(m)@.insert(Point { x, y }, look.edge(Point { x, y }, n)),
{
    let p = Point { x, y };
    m.insert(
        p,
        Pixel {
            character: border_char(look.line_style, n),
            position: p,
            style: look.border_style,
            weight: look.weight,
        },
    );
}

impl BoundingBox {
    /// The border of the box, drawn on its outermost cells, and the fill of
    /// the cells inside it.
    pub fn as_map(
        &self,
        border_style: &TextStyle,
        fill_style: &TextStyle,
        line_style: Option<LineStyle>,
        weight: Option<usize>,
        transparent: bool,
    ) -> (m: PointMap<Pixel>)
        ensures
            m@ == (FrameLook {
                border_style: *border_style,
                fill_style: *fill_style,
                line_style,
                weight,
                transparent,
            }).frame_map(*self),
            keyed(m.entries@),
            weighing(m.entries@, weight),
    {
        let b = *self;
        let look = &FrameLook {
            border_style: *border_style,
            fill_style: *fill_style,
            line_style,
            weight,
            transparent,
        };
        let mut m: PointMap<Pixel> = PointMap::new();
        let ghost mut done = Progress {
            edge_x: b.left + 1,
            edge_y: b.bottom + 1,
            corners: 0,
            fill_x: b.left + 1,
            fill_y: b.bottom + 1,
        };
        assert(m@ =~= look.partial_map(b, done));
        if b.left < b.right {
            let mut i: isize = b.left + 1;
            while i < b.right
                invariant
                    b.left < i <= b.right,
                    keyed(m.entries@),
                    weighing(m.entries@, look.weight),
                    done == (Progress {
                        edge_x: i as int,
                        edge_y: b.bottom + 1,
                        corners: 0,
                        fill_x: b.left + 1,
                        fill_y: b.bottom + 1,
                    }),
                    m@ == look.partial_map(b, done),
                decreases b.right - i,
            {
                put(&mut m, look, i, b.top, (false, true, false, true));
                put(&mut m, look, i, b.bottom, (false, true, false, true));
                i += 1;
                proof {
                    done = Progress { edge_x: i as int, ..done };
                    assert(m@ =~= look.partial_map(b, done));
                }
            }
        }
        proof {
            let all = Progress { edge_x: b.right as int, ..done };
            assert(look.partial_map(b, done) =~= look.partial_map(b, all));
            done = all;
        }
        if b.bottom < b.top {
            let mut j: isize = b.bottom + 1;
            while j < b.top
                invariant
                    b.bottom < j <= b.top,
                    keyed(m.entries@),
                    weighing(m.entries@, look.weight),
                    done == (Progress {
                        edge_x: b.right as int,
                        edge_y: j as int,
                        corners: 0,
                        fill_x: b.left + 1,
                        fill_y: b.bottom + 1,
                    }),
                    m@ == look.partial_map(b, done),
                decreases b.top - j,
            {
                put(&mut m, look, b.left, j, (true, false, true, false));
                put(&mut m, look, b.right, j, (true, false, true, false));
                j += 1;
                proof {
                    done = Progress { edge_y: j as int, ..done };
                    assert(m@ =~= look.partial_map(b, done));
                }
            }
        }
        proof {
            let all = Progress { edge_y: b.top as int, ..done };
            assert(look.partial_map(b, done) =~= look.partial_map(b, all));
            done = all;
        }
        put(&mut m, look, b.right, b.top, (false, false, true, true));
        proof {
            done = Progress { corners: 1, ..done };
            assert(m@ =~= look.partial_map(b, done));
        }
        put(&mut m, look, b.right, b.bottom, (true, false, false, true));
        proof {
            done = Progress { corners: 2, ..done };
            assert(m@ =~= look.partial_map(b, done));
        }
        put(&mut m, look, b.left, b.top, (false, true, true, false));
        proof {
            done = Progress { corners: 3, ..done };
            assert(m@ =~= look.partial_map(b, done));
        }
        put(&mut m, look, b.left, b.bottom, (true, true, false, false));
        proof {
            done = Progress { corners: 4, ..done };
            assert(m@ =~= look.partial_map(b, done));
        }
        if !look.transparent && b.left < b.right && b.bottom < b.top {
            let mut i: isize = b.left + 1;
            while i < b.right
                invariant
                    b.left < i <= b.right,
                    b.bottom < b.top,
                    keyed(m.entries@),
                    weighing(m.entries@, look.weight),
                    done == (Progress {
                        edge_x: b.right as int,
                        edge_y: b.top as int,
                        corners: 4,
                        fill_x: i as int,
                        fill_y: b.bottom + 1,
                    }),
                    m@ == look.partial_map(b, done),
                decreases b.right - i,
            {
                let mut j: isize = b.bottom + 1;
                while j < b.top
                    invariant
                        b.left < i < b.right,
                        b.bottom < j <= b.top,
                        keyed(m.entries@),
                        weighing(m.entries@, look.weight),
                    weighing(m.entries@, look.weight),
                        done == (Progress {
                            edge_x: b.right as int,
                            edge_y: b.top as int,
                            corners: 4,
                            fill_x: i as int,
                            fill_y: j as int,
                        }),
                        m@ == look.partial_map(b, done),
                    decreases b.top - j,
                {
                    let p = Point { x: i, y: j };
                    m.insert(
                        p,
                        Pixel {
                            character: ' ',
                            position: p,
                            style: look.fill_style,
                            weight: look.weight,
                        },
                    );
                    j += 1;
                    proof {
                        done = Progress { fill_y: j as int, ..done };
                        assert(m@ =~= look.partial_map(b, done));
                    }
                }
                i += 1;
                proof {
                    let next = Progress { fill_x: i as int, fill_y: b.bottom + 1, ..done };
                    assert(look.partial_map(b, done) =~= look.partial_map(b, next));
                    done = next;
                }
            }
            assert(m@ =~= look.frame_map(b));
        } else {
            assert(m@ =~= look.frame_map(b));
        }
        m
    }
}

} // verus!
