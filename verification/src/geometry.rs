//! Integer grid geometry: points and axis-aligned rectangles.
//!
//! The `y` axis grows upward: the `top` edge of a rectangle is its largest `y`.

use vstd::prelude::*;

verus! {

/// Half of `n`, rounded toward zero.
pub open spec fn half(n: int) -> int {
    if n >= 0 {
        n / 2
    } else {
        -((-n) / 2)
    }
}

/// True when `n` is representable as an `isize`.
pub open spec fn fits_isize(n: int) -> bool {
    isize::MIN <= n <= isize::MAX
}

/// An integer grid coordinate.
#[derive(Clone, Copy, Debug, PartialEq, Eq, Structural, Hash)]
pub struct Point {
    pub x: isize,
    pub y: isize,
}

impl Point {
    pub fn new(x: isize, y: isize) -> (p: Point)
        ensures
            p == (Point { x, y }),
    {
        Point { x, y }
    }

    pub fn x(&self) -> (x: isize)
        ensures
            x == self.x,
    {
        self.x
    }

    pub fn y(&self) -> (y: isize)
        ensures
            y == self.y,
    {
        self.y
    }

    /// The pair of unbounded integers this point stands for.
    pub open spec fn coords(self) -> (int, int) {
        (self.x as int, self.y as int)
    }

    /// True when `self + other` is representable.
    pub open spec fn can_add(self, other: Point) -> bool {
        fits_isize(self.x + other.x) && fits_isize(self.y + other.y)
    }

    /// True when `self - other` is representable.
    pub open spec fn can_sub(self, other: Point) -> bool {
        fits_isize(self.x - other.x) && fits_isize(self.y - other.y)
    }

    /// Component-wise sum.
    pub open spec fn plus(self, other: Point) -> Point {
        Point { x: (self.x + other.x) as isize, y: (self.y + other.y) as isize }
    }

    /// Component-wise difference.
    pub open spec fn minus(self, other: Point) -> Point {
        Point { x: (self.x - other.x) as isize, y: (self.y - other.y) as isize }
    }

    /// The point halfway between two points, each coordinate rounded toward zero.
    pub open spec fn spec_midpoint(self, other: Point) -> Point {
        Point { x: half(self.x + other.x) as isize, y: half(self.y + other.y) as isize }
    }

    /// Component-wise sum, or `None` when a coordinate would leave the `isize` range.
    pub fn checked_add(self, other: Point) -> (r: Option<Point>)
        ensures
            r == (if self.can_add(other) {
                Some(self.plus(other))
            } else {
                None
            }),
    {
        match (self.x.checked_add(other.x), self.y.checked_add(other.y)) {
            (Some(x), Some(y)) => Some(Point { x, y }),
            _ => None,
        }
    }

    pub fn midpoint(&self, other: &Point) -> (m: Point)
        requires
            self.can_add(*other),
        ensures
            m == self.spec_midpoint(*other),
    {
        Point { x: (self.x + other.x) / 2, y: (self.y + other.y) / 2 }
    }

    pub fn from_pair(value: (isize, isize)) -> (p: Point)
        ensures
            p == (Point { x: value.0, y: value.1 }),
    {
        Point { x: value.0, y: value.1 }
    }
}

impl core::ops::Add for Point {
    type Output = Point;

    fn add(self, rhs: Point) -> (r: Point) {
        Point { x: self.x + rhs.x, y: self.y + rhs.y }
    }
}

impl vstd::std_specs::ops::AddSpecImpl for Point {
    open spec fn obeys_add_spec() -> bool {
        true
    }

    open spec fn add_req(self, rhs: Point) -> bool {
        self.can_add(rhs)
    }

    open spec fn add_spec(self, rhs: Point) -> Point {
        self.plus(rhs)
    }
}

impl core::ops::Sub for Point {
    type Output = Point;

    fn sub(self, rhs: Point) -> (r: Point) {
        Point { x: self.x - rhs.x, y: self.y - rhs.y }
    }
}

impl vstd::std_specs::ops::SubSpecImpl for Point {
    open spec fn obeys_sub_spec() -> bool {
        true
    }

    open spec fn sub_req(self, rhs: Point) -> bool {
        self.can_sub(rhs)
    }

    open spec fn sub_spec(self, rhs: Point) -> Point {
        self.minus(rhs)
    }
}

impl Default for Point {
    fn default() -> (p: Point)
        ensures
            p == (Point { x: 0, y: 0 }),
    {
        Point { x: 0, y: 0 }
    }
}

/// The larger of two coordinates.
pub open spec fn max_of(a: int, b: int) -> int {
    if a >= b {
        a
    } else {
        b
    }
}

/// The smaller of two coordinates.
pub open spec fn min_of(a: int, b: int) -> int {
    if a <= b {
        a
    } else {
        b
    }
}

fn larger(a: isize, b: isize) -> (m: isize)
    ensures
        m == max_of(a as int, b as int),
{
    if a >= b {
        a
    } else {
        b
    }
}

fn smaller(a: isize, b: isize) -> (m: isize)
    ensures
        m == min_of(a as int, b as int),
{
    if a <= b {
        a
    } else {
        b
    }
}

/// The distance between two coordinates on one axis.
pub open spec fn gap(a: int, b: int) -> int {
    if a >= b {
        a - b
    } else {
        b - a
    }
}

/// The distance between two coordinates on one axis. It always fits in a `usize`.
pub fn span(a: isize, b: isize) -> (d: usize)
    ensures
        d == gap(a as int, b as int),
{
    let (hi, lo) = if a >= b {
        (a, b)
    } else {
        (b, a)
    };
    if lo >= 0 {
        (hi - lo) as usize
    } else if hi < 0 {
        (hi - lo) as usize
    } else {
        let below: usize = (-(lo + 1)) as usize;
        hi as usize + below + 1
    }
}

/// The coordinate `d` cells above `x`.
pub fn shift_up(x: isize, d: usize) -> (r: isize)
    requires
        fits_isize(x + d),
    ensures
        r == x + d,
{
    if d <= isize::MAX as usize {
        x + d as isize
    } else {
        let rest: usize = d - isize::MAX as usize;
        (x + isize::MAX + 1) + (rest - 1) as isize
    }
}

/// The coordinate `d` cells below `x`.
pub fn shift_down(x: isize, d: usize) -> (r: isize)
    requires
        fits_isize(x - d),
    ensures
        r == x - d,
{
    if d <= isize::MAX as usize {
        x - d as isize
    } else {
        let rest: usize = d - isize::MAX as usize;
        (x - isize::MAX - 1) - (rest - 1) as isize
    }
}

/// An axis-aligned rectangle of grid cells, edges inclusive.
///
/// A box whose `left` exceeds its `right`, or whose `bottom` exceeds its `top`,
/// holds no cell.
#[derive(Clone, Copy, Debug, PartialEq, Eq, Structural)]
pub struct BoundingBox {
    pub top: isize,
    pub right: isize,
    pub bottom: isize,
    pub left: isize,
}

impl BoundingBox {
    pub fn new(top: isize, right: isize, bottom: isize, left: isize) -> (b: BoundingBox)
        ensures
            b == (BoundingBox { top, right, bottom, left }),
    {
        BoundingBox { top, right, bottom, left }
    }

    /// True when the box holds at least one cell.
    pub open spec fn is_nonempty(self) -> bool {
        self.left <= self.right && self.bottom <= self.top
    }

    /// True when the cell `(x, y)` lies within the edges.
    pub open spec fn holds(self, x: int, y: int) -> bool {
        self.left <= x <= self.right && self.bottom <= y <= self.top
    }

    /// Membership of a point.
    pub open spec fn contains(self, p: Point) -> bool {
        self.holds(p.x as int, p.y as int)
    }

    /// True when every edge of `other` lies within the edges of `self`.
    pub open spec fn encloses(self, other: BoundingBox) -> bool {
        &&& other.left >= self.left
        &&& other.right <= self.right
        &&& other.bottom >= self.bottom
        &&& other.top <= self.top
    }

    /// The smallest box whose edges reach at least as far as those of both boxes.
    pub open spec fn union(self, other: BoundingBox) -> BoundingBox {
        BoundingBox {
            top: max_of(self.top as int, other.top as int) as isize,
            right: max_of(self.right as int, other.right as int) as isize,
            bottom: min_of(self.bottom as int, other.bottom as int) as isize,
            left: min_of(self.left as int, other.left as int) as isize,
        }
    }

    /// The box grown, where needed, to reach the point `p`.
    pub open spec fn extended(self, p: Point) -> BoundingBox {
        self.union(BoundingBox { top: p.y, right: p.x, bottom: p.y, left: p.x })
    }

    pub fn contains_point(&self, p: &Point) -> (inside: bool)
        ensures
            inside == self.contains(*p),
    {
        p.x >= self.left && p.x <= self.right && p.y >= self.bottom && p.y <= self.top
    }

    pub fn contains_bounding_box(&self, bbox: BoundingBox) -> (inside: bool)
        ensures
            inside == self.encloses(bbox),
    {
        bbox.left >= self.left && bbox.right <= self.right && bbox.bottom >= self.bottom
            && bbox.top <= self.top
    }

    /// The box grown to reach `p`.
    pub fn add_point(self, p: Point) -> (r: BoundingBox)
        ensures
            r == self.extended(p),
            r.encloses(self),
            r.contains(p),
    {
        BoundingBox {
            top: larger(self.top, p.y),
            right: larger(self.right, p.x),
            bottom: smaller(self.bottom, p.y),
            left: smaller(self.left, p.x),
        }
    }

    /// Number of columns between the left and the right edge.
    pub fn width(&self) -> (w: usize)
        requires
            self.left <= self.right,
        ensures
            w == self.right - self.left,
    {
        span(self.right, self.left)
    }

    /// Number of rows between the bottom and the top edge.
    pub fn height(&self) -> (h: usize)
        requires
            self.bottom <= self.top,
        ensures
            h == self.top - self.bottom,
    {
        span(self.top, self.bottom)
    }

    /// True when the sums that the centre coordinates are taken from are representable.
    pub open spec fn has_center(self) -> bool {
        fits_isize(self.left + self.right) && fits_isize(self.bottom + self.top)
    }

    /// The column halfway between the left and right edges, rounded toward zero.
    pub open spec fn mid_x(self) -> isize {
        half(self.left + self.right) as isize
    }

    /// The row halfway between the bottom and top edges, rounded toward zero.
    pub open spec fn mid_y(self) -> isize {
        half(self.bottom + self.top) as isize
    }

    pub fn center(&self) -> (p: Point)
        requires
            self.has_center(),
        ensures
            p == (Point { x: self.mid_x(), y: self.mid_y() }),
    {
        Point { x: (self.left + self.right) / 2, y: (self.bottom + self.top) / 2 }
    }

    pub fn top_left(&self) -> (p: Point)
        ensures
            p == (Point { x: self.left, y: self.top }),
    {
        Point { x: self.left, y: self.top }
    }

    pub fn top_center(&self) -> (p: Point)
        requires
            fits_isize(self.left + self.right),
        ensures
            p == (Point { x: self.mid_x(), y: self.top }),
    {
        Point { x: (self.left + self.right) / 2, y: self.top }
    }

    pub fn top_right(&self) -> (p: Point)
        ensures
            p == (Point { x: self.right, y: self.top }),
    {
        Point { x: self.right, y: self.top }
    }

    pub fn bottom_left(&self) -> (p: Point)
        ensures
            p == (Point { x: self.left, y: self.bottom }),
    {
        Point { x: self.left, y: self.bottom }
    }

    pub fn bottom_center(&self) -> (p: Point)
        requires
            fits_isize(self.left + self.right),
        ensures
            p == (Point { x: self.mid_x(), y: self.bottom }),
    {
        Point { x: (self.left + self.right) / 2, y: self.bottom }
    }

    pub fn bottom_right(&self) -> (p: Point)
        ensures
            p == (Point { x: self.right, y: self.bottom }),
    {
        Point { x: self.right, y: self.bottom }
    }

    pub fn center_left(&self) -> (p: Point)
        requires
            fits_isize(self.bottom + self.top),
        ensures
            p == (Point { x: self.left, y: self.mid_y() }),
    {
        Point { x: self.left, y: (self.bottom + self.top) / 2 }
    }

    pub fn center_right(&self) -> (p: Point)
        requires
            fits_isize(self.bottom + self.top),
        ensures
            p == (Point { x: self.right, y: self.mid_y() }),
    {
        Point { x: self.right, y: (self.bottom + self.top) / 2 }
    }

    pub fn from_edges(value: (isize, isize, isize, isize)) -> (b: BoundingBox)
        ensures
            b == (BoundingBox { top: value.0, right: value.1, bottom: value.2, left: value.3 }),
    {
        BoundingBox { top: value.0, right: value.1, bottom: value.2, left: value.3 }
    }

    pub fn to_edges(self) -> (e: (isize, isize, isize, isize))
        ensures
            e == (self.top, self.right, self.bottom, self.left),
    {
        (self.top, self.right, self.bottom, self.left)
    }
}

impl core::ops::Add for BoundingBox {
    type Output = BoundingBox;

    fn add(self, rhs: BoundingBox) -> (r: BoundingBox) {
        BoundingBox {
            top: larger(self.top, rhs.top),
            right: larger(self.right, rhs.right),
            bottom: smaller(self.bottom, rhs.bottom),
            left: smaller(self.left, rhs.left),
        }
    }
}

impl vstd::std_specs::ops::AddSpecImpl for BoundingBox {
    open spec fn obeys_add_spec() -> bool {
        true
    }

    open spec fn add_req(self, rhs: BoundingBox) -> bool {
        true
    }

    open spec fn add_spec(self, rhs: BoundingBox) -> BoundingBox {
        self.union(rhs)
    }
}

impl core::ops::Add<Point> for BoundingBox {
    type Output = BoundingBox;

    fn add(self, rhs: Point) -> (r: BoundingBox) {
        self.add_point(rhs)
    }
}

impl vstd::std_specs::ops::AddSpecImpl<Point> for BoundingBox {
    open spec fn obeys_add_spec() -> bool {
        true
    }

    open spec fn add_req(self, rhs: Point) -> bool {
        true
    }

    open spec fn add_spec(self, rhs: Point) -> BoundingBox {
        self.extended(rhs)
    }
}

impl Default for BoundingBox {
    fn default() -> (b: BoundingBox)
        ensures
            b == (BoundingBox { top: 0, right: 0, bottom: 0, left: 0 }),
    {
        BoundingBox { top: 0, right: 0, bottom: 0, left: 0 }
    }
}

/// The union of two boxes reaches over both of them.
pub proof fn lemma_union_encloses_both(a: BoundingBox, b: BoundingBox)
    ensures
        a.union(b).encloses(a),
        a.union(b).encloses(b),
        forall|p: Point| a.contains(p) || b.contains(p) ==> #[trigger] a.union(b).contains(p),
{
}

/// The union is the least such box: whatever box reaches over both `a` and `b`
/// reaches over their union, so no edge of the union can be pulled inward.
pub proof fn lemma_union_is_least(a: BoundingBox, b: BoundingBox, c: BoundingBox)
    requires
        c.encloses(a),
        c.encloses(b),
    ensures
        c.encloses(a.union(b)),
{
}

/// Stated over cells: a box that holds every cell of two non-empty boxes
/// reaches over their union. Moving any edge of the union inward by one
/// therefore loses a cell of `a` or of `b`.
pub proof fn lemma_union_is_least_by_cells(a: BoundingBox, b: BoundingBox, c: BoundingBox)
    requires
        a.is_nonempty(),
        b.is_nonempty(),
        forall|p: Point| a.contains(p) || b.contains(p) ==> #[trigger] c.contains(p),
    ensures
        c.encloses(a.union(b)),
{
    let a_tr = Point { x: a.right, y: a.top };
    let a_bl = Point { x: a.left, y: a.bottom };
    let b_tr = Point { x: b.right, y: b.top };
    let b_bl = Point { x: b.left, y: b.bottom };
    assert(a.contains(a_tr) && a.contains(a_bl));
    assert(b.contains(b_tr) && b.contains(b_bl));
    assert(c.contains(a_tr) && c.contains(a_bl) && c.contains(b_tr) && c.contains(b_bl));
}

/// A point strictly inside the edges belongs to the box; a point one unit
/// beyond any edge does not.
pub proof fn lemma_membership_at_edges(b: BoundingBox, p: Point)
    ensures
        b.left < p.x < b.right && b.bottom < p.y < b.top ==> b.contains(p),
        p.x == b.left - 1 ==> !b.contains(p),
        p.x == b.right + 1 ==> !b.contains(p),
        p.y == b.bottom - 1 ==> !b.contains(p),
        p.y == b.top + 1 ==> !b.contains(p),
{
}

} // verus!
