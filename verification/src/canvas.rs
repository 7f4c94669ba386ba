//! The compositor: drawable items flattened into one map from positions to
//! pixels, and the map written out as rows of text.

use vstd::prelude::*;
use vstd::string::StringExecFns;
use crate::error::Error;
use crate::geometry::{BoundingBox, Point};
use crate::pixel::{
    keyed, lemma_pixel_map_push, pixel_map, placed_seq, weights_fit, Pixel, PixelGroup,
};
use crate::point_map::{lemma_map_of_keys, PointMap};
use crate::style::TextStyle;
use crate::text_box::Box;
use crate::text_path::TextPath;

verus! {

/// Something that can be drawn on a canvas.
#[derive(Clone, Debug)]
pub enum Item {
    Pixel(Pixel),
    Group(PixelGroup),
    Path(TextPath),
    Box(Box),
}

/// The origin of the grid.
pub open spec fn origin() -> Point {
    Point { x: 0, y: 0 }
}

/// A map of pixels as drawn inside a group at the origin with the given
/// style and weight.
pub open spec fn placed_map(m: Map<Point, Pixel>, style: TextStyle, weight: Option<usize>) -> Map<
    Point,
    Pixel,
> {
    Map::new(|p: Point| m.contains_key(p), |p: Point| m[p].placed(origin(), style, weight))
}

impl Item {
    /// What the item draws: a pixel itself; of a group, a path or a box the
    /// pixels placed at the group's offset, in the group's style and with
    /// its weight added. A later pixel of the item covers an earlier one at
    /// the same position.
    pub open spec fn drawing(self) -> Map<Point, Pixel> {
        match self {
            Item::Pixel(p) => Map::empty().insert(p.position, p),
            Item::Group(g) => pixel_map(g.placed_pixels()),
            Item::Path(t) => pixel_map(
                placed_seq(t.drawn_pixels(), origin(), TextStyle::plain(), Some(0usize)),
            ),
            Item::Box(b) => placed_map(b.drawn(), TextStyle::plain(), b.weight),
        }
    }

    /// True when drawing the item stays within the machine's integers.
    pub open spec fn fits(self) -> bool {
        match self {
            Item::Pixel(p) => true,
            Item::Group(g) => g.fits(),
            Item::Path(t) => true,
            Item::Box(b) => b.fits() && weights_fit(b.weight, b.weight),
        }
    }

    /// True when the item can be drawn: a path needs at least two cells.
    pub open spec fn can_draw(self) -> bool {
        match self {
            Item::Path(t) => t.path@.len() >= 2,
            _ => true,
        }
    }
}

impl Item {
    /// Tells whether drawing the item stays within the machine's integers.
    pub fn check_fits(&self) -> (ok: bool)
        ensures
            ok == self.fits(),
    {
        match self {
            Item::Pixel(_) => true,
            Item::Group(g) => g.check_fits(),
            Item::Path(_) => true,
            Item::Box(b) => {
                let doubled = match b.weight {
                    Some(w) => w.checked_add(w).is_some(),
                    None => true,
                };
                b.check_fits() && doubled
            },
        }
    }
}

/// Tells whether drawing each of the items stays within the machine's integers.
pub fn all_fit(items: &Vec<Item>) -> (ok: bool)
    ensures
        ok == fit(items@),
{
    let mut i: usize = 0;
    while i < items.len()
        invariant
            i <= items@.len(),
            forall|j: int| 0 <= j < i ==> (#[trigger] items@[j]).fits(),
        decreases items@.len() - i,
    {
        if !items[i].check_fits() {
            return false;
        }
        i += 1;
    }
    true
}

/// True when every item stays within the machine's integers.
pub open spec fn fit(items: Seq<Item>) -> bool {
    forall|i: int| 0 <= i < items.len() ==> (#[trigger] items[i]).fits()
}

/// True when every item can be drawn.
pub open spec fn drawable(items: Seq<Item>) -> bool {
    forall|i: int| 0 <= i < items.len() ==> (#[trigger] items[i]).can_draw()
}

/// The items drawn one over the other in their order: at each position the
/// pixel of the last item that draws there.
pub open spec fn composed(items: Seq<Item>) -> Map<Point, Pixel>
    decreases items.len(),
{
    if items.len() == 0 {
        Map::empty()
    } else {
        composed(items.drop_last()).union_prefer_right(items.last().drawing())
    }
}

/// The last writer wins: where the last item draws, the canvas shows what
/// it draws, and everywhere else what the items before it left there.
pub proof fn lemma_last_item_wins(items: Seq<Item>, last: Item, p: Point)
    ensures
        last.drawing().contains_key(p) ==> composed(items.push(last)).contains_key(p) && composed(
            items.push(last),
        )[p] == last.drawing()[p],
        !last.drawing().contains_key(p) ==> composed(items.push(last)).contains_key(p) == composed(
            items,
        ).contains_key(p),
        !last.drawing().contains_key(p) && composed(items).contains_key(p) ==> composed(
            items.push(last),
        )[p] == composed(items)[p],
{
    assert(items.push(last).drop_last() =~= items);
}

/// Pixels placed at the origin stay where they are, so placing the pixels
/// of a list one by one is placing the map they draw.
pub proof fn lemma_placed_at_origin(pixels: Seq<Pixel>, style: TextStyle, weight: Option<usize>)
    ensures
        pixel_map(placed_seq(pixels, origin(), style, weight)) == placed_map(
            pixel_map(pixels),
            style,
            weight,
        ),
    decreases pixels.len(),
{
    let placed = placed_seq(pixels, origin(), style, weight);
    if pixels.len() == 0 {
        assert(pixel_map(placed) =~= placed_map(pixel_map(pixels), style, weight));
    } else {
        let front = pixels.drop_last();
        let last = pixels.last();
        lemma_placed_at_origin(front, style, weight);
        assert(pixels =~= front.push(last));
        lemma_pixel_map_push(front, last);
        let placed_front = placed_seq(front, origin(), style, weight);
        let placed_last = last.placed(origin(), style, weight);
        assert(placed =~= placed_front.push(placed_last));
        lemma_pixel_map_push(placed_front, placed_last);
        assert(placed_last.position == last.position);
        assert(pixel_map(placed) =~= placed_map(pixel_map(pixels), style, weight));
    }
}

/// Draws the pixels of a group over `map`.
fn place_group(map: &mut PointMap<Pixel>, group: &PixelGroup)
    requires
        group.fits(),
        keyed(old(map).entries@),
    ensures
        keyed(final(map).entries@),
        final(map)@ == old(map)@.union_prefer_right(pixel_map(group.placed_pixels())),
{
    let ghost placed = group.placed_pixels();
    let ghost under = map@;
    let mut i: usize = 0;
    assert(placed.subrange(0, 0) =~= Seq::<Pixel>::empty());
    assert(map@ =~= under.union_prefer_right(pixel_map(placed.subrange(0, 0))));
    while i < group.pixels.len()
        invariant
            i <= group.pixels@.len(),
            group.fits(),
            placed == group.placed_pixels(),
            keyed(map.entries@),
            map@ == under.union_prefer_right(pixel_map(placed.subrange(0, i as int))),
        decreases group.pixels@.len() - i,
    {
        let pixel = group.pixels[i].place(group.position, group.style, group.weight);
        proof {
            assert(pixel == placed[i as int]);
            assert(placed.subrange(0, i + 1) =~= placed.subrange(0, i as int).push(pixel));
            lemma_pixel_map_push(placed.subrange(0, i as int), pixel);
        }
        let ghost before = map@;
        map.insert(pixel.position, pixel);
        proof {
            assert(map@ =~= under.union_prefer_right(
                pixel_map(placed.subrange(0, i as int)).insert(pixel.position, pixel),
            ));
        }
        i += 1;
    }
    assert(placed.subrange(0, group.pixels@.len() as int) =~= placed);
}

/// Flattens the items into one map from positions to pixels. Of two items
/// that draw at the same position the later one wins.
pub fn objs_to_map(items: &Vec<Item>) -> (r: Result<PointMap<Pixel>, Error>)
    requires
        fit(items@),
    ensures
        match r {
            Ok(map) => {
                &&& drawable(items@)
                &&& map@ == composed(items@)
                &&& keyed(map.entries@)
            },
            Err(e) => e == Error::PathTooShort && !drawable(items@),
        },
{
    let mut map: PointMap<Pixel> = PointMap::new();
    let mut i: usize = 0;
    assert(items@.subrange(0, 0) =~= Seq::<Item>::empty());
    while i < items.len()
        invariant
            i <= items@.len(),
            fit(items@),
            keyed(map.entries@),
            drawable(items@.subrange(0, i as int)),
            map@ == composed(items@.subrange(0, i as int)),
        decreases items@.len() - i,
    {
        let ghost done = items@.subrange(0, i as int);
        let ghost next = items@.subrange(0, i + 1);
        proof {
            assert(next.drop_last() =~= done);
            assert(next.last() == items@[i as int]);
            assert(items@[i as int].fits());
        }
        match &items[i] {
            Item::Pixel(pixel) => {
                map.insert(pixel.position, *pixel);
                assert(map@ =~= composed(next));
            },
            Item::Group(group) => {
                place_group(&mut map, group);
            },
            Item::Path(path) => {
                match path.as_group() {
                    Ok(group) => {
                        place_group(&mut map, &group);
                    },
                    Err(e) => {
                        assert(!items@[i as int].can_draw());
                        return Err(e);
                    },
                }
            },
            Item::Box(text_box) => {
                let group = text_box.as_group();
                proof {
                    lemma_placed_at_origin(group.pixels@, TextStyle::plain(), group.weight);
                }
                place_group(&mut map, &group);
            },
        }
        proof {
            assert forall|j: int| 0 <= j < next.len() implies (#[trigger] next[j]).can_draw() by {
                if j < i {
                    assert(done[j] == next[j]);
                }
            }
        }
        i += 1;
    }
    assert(items@.subrange(0, items@.len() as int) =~= items@);
    Ok(map)
}

/// True when `b` is the smallest box that holds the cells of `s`: it holds
/// them all, and each of its edges passes through one of them.
pub open spec fn is_tight(s: Set<Point>, b: BoundingBox) -> bool {
    &&& forall|p: Point| s.contains(p) ==> #[trigger] b.contains(p)
    &&& exists|p: Point| s.contains(p) && #[trigger] p.x == b.left
    &&& exists|p: Point| s.contains(p) && #[trigger] p.x == b.right
    &&& exists|p: Point| s.contains(p) && #[trigger] p.y == b.bottom
    &&& exists|p: Point| s.contains(p) && #[trigger] p.y == b.top
}

/// The box of one cell at the origin.
pub open spec fn origin_box() -> BoundingBox {
    BoundingBox { top: 0, right: 0, bottom: 0, left: 0 }
}

/// The bounding box of a set of cells: the smallest box that holds them,
/// and the box of the origin for no cells.
pub open spec fn bounds(s: Set<Point>) -> BoundingBox {
    if forall|p: Point| !s.contains(p) {
        origin_box()
    } else {
        choose|b: BoundingBox| is_tight(s, b)
    }
}

/// A set of cells has one smallest box.
pub proof fn lemma_tight_is_unique(s: Set<Point>, a: BoundingBox, b: BoundingBox)
    requires
        is_tight(s, a),
        is_tight(s, b),
    ensures
        a == b,
{
    let al = choose|p: Point| s.contains(p) && #[trigger] p.x == a.left;
    let ar = choose|p: Point| s.contains(p) && #[trigger] p.x == a.right;
    let ab = choose|p: Point| s.contains(p) && #[trigger] p.y == a.bottom;
    let at = choose|p: Point| s.contains(p) && #[trigger] p.y == a.top;
    let bl = choose|p: Point| s.contains(p) && #[trigger] p.x == b.left;
    let br = choose|p: Point| s.contains(p) && #[trigger] p.x == b.right;
    let bb = choose|p: Point| s.contains(p) && #[trigger] p.y == b.bottom;
    let bt = choose|p: Point| s.contains(p) && #[trigger] p.y == b.top;
    assert(b.contains(al) && b.contains(ar) && b.contains(ab) && b.contains(at));
    assert(a.contains(bl) && a.contains(br) && a.contains(bb) && a.contains(bt));
}

/// The bounding box of the positions in the first `n` entries of a list.
fn bounds_of<V>(entries: &Vec<(Point, V)>) -> (b: BoundingBox)
    ensures
        b == bounds(Set::new(|p: Point| exists|i: int| 0 <= i < entries@.len() && (#[trigger] entries@[i]).0 == p)),
        b.is_nonempty(),
        entries@.len() == 0 ==> b == origin_box(),
        entries@.len() > 0 ==> is_tight(
            Set::new(|p: Point| exists|i: int| 0 <= i < entries@.len() && (#[trigger] entries@[i]).0 == p),
            b,
        ),
{
    let ghost all = Set::new(
        |p: Point| exists|i: int| 0 <= i < entries@.len() && (#[trigger] entries@[i]).0 == p,
    );
    if entries.len() == 0 {
        return BoundingBox { top: 0, right: 0, bottom: 0, left: 0 };
    }
    let first = entries[0].0;
    let mut b = BoundingBox { top: first.y, right: first.x, bottom: first.y, left: first.x };
    let mut i: usize = 1;
    let ghost mut seen = Set::new(
        |p: Point| exists|j: int| 0 <= j < 1 && (#[trigger] entries@[j]).0 == p,
    );
    proof {
        assert(seen.contains(first));
    }
    while i < entries.len()
        invariant
            1 <= i <= entries@.len(),
            seen == Set::new(|p: Point| exists|j: int| 0 <= j < i && (#[trigger] entries@[j]).0 == p),
            is_tight(seen, b),
        decreases entries@.len() - i,
    {
        let p = entries[i].0;
        let ghost old_b = b;
        let ghost old_seen = seen;
        b = b.add_point(p);
        i += 1;
        proof {
            seen = Set::new(|q: Point| exists|j: int| 0 <= j < i && (#[trigger] entries@[j]).0 == q);
            assert(seen.contains(p));
            assert forall|q: Point| old_seen.contains(q) implies seen.contains(q) by {
                let j = choose|j: int| 0 <= j < i - 1 && (#[trigger] entries@[j]).0 == q;
                assert(entries@[j].0 == q);
            }
            assert forall|q: Point| seen.contains(q) implies #[trigger] b.contains(q) by {
                let j = choose|j: int| 0 <= j < i && (#[trigger] entries@[j]).0 == q;
                if j < i - 1 {
                    assert(old_seen.contains(q));
                    assert(old_b.contains(q));
                }
            }
            let l = choose|q: Point| old_seen.contains(q) && #[trigger] q.x == old_b.left;
            let r = choose|q: Point| old_seen.contains(q) && #[trigger] q.x == old_b.right;
            let bo = choose|q: Point| old_seen.contains(q) && #[trigger] q.y == old_b.bottom;
            let t = choose|q: Point| old_seen.contains(q) && #[trigger] q.y == old_b.top;
            if b.left == old_b.left {
                assert(seen.contains(l) && l.x == b.left);
            } else {
                assert(seen.contains(p) && p.x == b.left);
            }
            if b.right == old_b.right {
                assert(seen.contains(r) && r.x == b.right);
            } else {
                assert(seen.contains(p) && p.x == b.right);
            }
            if b.bottom == old_b.bottom {
                assert(seen.contains(bo) && bo.y == b.bottom);
            } else {
                assert(seen.contains(p) && p.y == b.bottom);
            }
            if b.top == old_b.top {
                assert(seen.contains(t) && t.y == b.top);
            } else {
                assert(seen.contains(p) && p.y == b.top);
            }
        }
    }
    proof {
        assert(seen =~= all);
        assert(all.contains(first));
        lemma_tight_is_unique(all, b, bounds(all));
        let t = choose|q: Point| all.contains(q) && #[trigger] q.y == b.top;
        assert(b.contains(t));
    }
    b
}

/// The bounding box of the occupied cells of a map; the box of the origin
/// for an empty map.
pub fn map_to_bounding_box(map: &PointMap<Pixel>) -> (b: BoundingBox)
    ensures
        b == bounds(map@.dom()),
        b.is_nonempty(),
        (forall|p: Point| !map@.contains_key(p)) ==> b == origin_box(),
        (exists|p: Point| map@.contains_key(p)) ==> is_tight(map@.dom(), b),
{
    proof {
        lemma_map_of_keys(map.entries@);
        assert(Set::new(
            |p: Point| exists|i: int| 0 <= i < map.entries@.len() && (#[trigger] map.entries@[i]).0 == p,
        ) =~= map@.dom());
        if map.entries@.len() > 0 {
            assert(map@.contains_key(map.entries@[0].0));
        }
    }
    bounds_of(&map.entries)
}

/// The positions of a list of pixels.
pub open spec fn positions(pixels: Seq<Pixel>) -> Set<Point> {
    Set::new(|p: Point| exists|i: int| 0 <= i < pixels.len() && (#[trigger] pixels[i]).position == p)
}

/// The bounding box of the positions of the pixels; the box of the origin
/// for no pixels.
pub fn pixels_to_bounding_box(pixels: &Vec<Pixel>) -> (b: BoundingBox)
    ensures
        b == bounds(positions(pixels@)),
        b.is_nonempty(),
        pixels@.len() == 0 ==> b == origin_box(),
        pixels@.len() > 0 ==> is_tight(positions(pixels@), b),
{
    let mut entries: Vec<(Point, bool)> = Vec::new();
    let mut i: usize = 0;
    while i < pixels.len()
        invariant
            i <= pixels@.len(),
            entries@.len() == i,
            forall|j: int| 0 <= j < i ==> (#[trigger] entries@[j]).0 == pixels@[j].position,
        decreases pixels@.len() - i,
    {
        entries.push((pixels[i].position, true));
        i += 1;
    }
    proof {
        let keys = Set::new(
            |p: Point| exists|i: int| 0 <= i < entries@.len() && (#[trigger] entries@[i]).0 == p,
        );
        assert forall|p: Point| keys.contains(p) == positions(pixels@).contains(p) by {
            if keys.contains(p) {
                let j = choose|j: int| 0 <= j < entries@.len() && (#[trigger] entries@[j]).0 == p;
                assert(pixels@[j].position == p);
            }
            if positions(pixels@).contains(p) {
                let j = choose|j: int| 0 <= j < pixels@.len() && (#[trigger] pixels@[j]).position == p;
                assert(entries@[j].0 == p);
            }
        }
        assert(keys =~= positions(pixels@));
    }
    bounds_of(&entries)
}

/// The text of one cell: the pixel there as its style renders it, or a
/// blank where there is none.
pub open spec fn cell_text(map: Map<Point, Pixel>, x: int, y: int) -> Seq<char> {
    let p = Point { x: x as isize, y: y as isize };
    if map.contains_key(p) {
        map[p].style.rendered(seq![map[p].character])
    } else {
        seq![' ']
    }
}

/// The text of the cells of row `y` from column `from` to column `right`.
pub open spec fn row_text(map: Map<Point, Pixel>, y: int, from: int, right: int) -> Seq<char>
    decreases right - from + 1,
{
    if from > right {
        seq![]
    } else {
        cell_text(map, from, y) + row_text(map, y, from + 1, right)
    }
}

/// The text of the rows from row `y` down to the bottom of `b`, each row
/// from the left to the right edge of `b` and ended by a line feed.
pub open spec fn rows_text(map: Map<Point, Pixel>, b: BoundingBox, y: int) -> Seq<char>
    decreases y - b.bottom + 1,
{
    if y < b.bottom {
        seq![]
    } else {
        row_text(map, y, b.left as int, b.right as int).push('\n') + rows_text(map, b, y - 1)
    }
}

/// A map written out: the rows of its bounding box from the top row down.
pub open spec fn rendering(map: Map<Point, Pixel>) -> Seq<char> {
    rows_text(map, bounds(map.dom()), bounds(map.dom()).top as int)
}

/// Writes a map out as rows of text.
pub fn render_map(map: &PointMap<Pixel>) -> (out: String)
    ensures
        out@ == rendering(map@),
{
    let b = map_to_bounding_box(map);
    let mut out = String::new();
    let mut y = b.top;
    let mut rows_done = false;
    assert(out@ + rows_text(map@, b, y as int) =~= rendering(map@));
    while !rows_done
        invariant
            b.is_nonempty(),
            b.bottom <= y <= b.top,
            !rows_done ==> out@ + rows_text(map@, b, y as int) == rendering(map@),
            rows_done ==> out@ == rendering(map@),
        decreases (y - b.bottom) + (if rows_done { 0int } else { 1int }),
    {
        let ghost out_before = out@;
        let mut x = b.left;
        let mut cells_done = false;
        assert(out@ + row_text(map@, y as int, x as int, b.right as int) =~= out_before + row_text(
            map@,
            y as int,
            b.left as int,
            b.right as int,
        ));
        while !cells_done
            invariant
                b.is_nonempty(),
                b.left <= x <= b.right,
                !cells_done ==> out@ + row_text(map@, y as int, x as int, b.right as int)
                    == out_before + row_text(map@, y as int, b.left as int, b.right as int),
                cells_done ==> out@ == out_before + row_text(
                    map@,
                    y as int,
                    b.left as int,
                    b.right as int,
                ),
            decreases (b.right - x) + (if cells_done { 0int } else { 1int }),
        {
            let ghost row_before = out@;
            match map.get(Point { x, y }) {
                Some(pixel) => {
                    let text = pixel.render();
                    out.append(text.as_str());
                },
                None => {
                    out.push(' ');
                },
            }
            proof {
                assert(out@ =~= row_before + cell_text(map@, x as int, y as int));
                assert(row_before + row_text(map@, y as int, x as int, b.right as int) =~= out@
                    + row_text(map@, y as int, x + 1, b.right as int));
            }
            if x == b.right {
                cells_done = true;
                proof {
                    assert(row_text(map@, y as int, x + 1, b.right as int) =~= Seq::<char>::empty());
                    assert(out@ + Seq::<char>::empty() =~= out@);
                }
            } else {
                x = x + 1;
            }
        }
        out.push('\n');
        proof {
            assert(out_before + rows_text(map@, b, y as int) =~= out@ + rows_text(map@, b, y - 1));
        }
        if y == b.bottom {
            rows_done = true;
            proof {
                assert(rows_text(map@, b, y - 1) =~= Seq::<char>::empty());
                assert(out@ + Seq::<char>::empty() =~= out@);
            }
        } else {
            y = y - 1;
        }
    }
    out
}

/// Draws the items one over the other and writes the result out as rows of
/// text: the rows of the bounding box from the top down, each cell as its
/// pixel renders, an empty cell as a blank, and a line feed after each row.
pub fn render(items: &Vec<Item>) -> (r: Result<String, Error>)
    requires
        fit(items@),
    ensures
        match r {
            Ok(out) => drawable(items@) && out@ == rendering(composed(items@)),
            Err(e) => e == Error::PathTooShort && !drawable(items@),
        },
{
    match objs_to_map(items) {
        Ok(map) => Ok(render_map(&map)),
        Err(e) => Err(e),
    }
}

} // verus!
