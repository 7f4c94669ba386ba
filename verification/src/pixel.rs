//! Pixels, the atomic drawable unit, and groups of them.

use vstd::prelude::*;
use crate::geometry::Point;
use crate::point_map::{
    lemma_get_last_match, lemma_map_of_keys, lemma_map_of_push, map_of, PointMap,
};
use crate::style::TextStyle;

verus! {

/// The weight of a pixel drawn inside a group: unset when either is unset,
/// else the sum.
pub open spec fn combined_weight(a: Option<usize>, b: Option<usize>) -> Option<int> {
    match (a, b) {
        (Some(x), Some(y)) => Some(x + y),
        _ => None,
    }
}

/// True when the combined weight is unset or fits in a `usize`.
pub open spec fn weights_fit(a: Option<usize>, b: Option<usize>) -> bool {
    match combined_weight(a, b) {
        Some(w) => w <= usize::MAX,
        None => true,
    }
}

pub fn combine_weight(a: Option<usize>, b: Option<usize>) -> (w: Option<usize>)
    requires
        weights_fit(a, b),
    ensures
        match w {
            Some(v) => combined_weight(a, b) == Some(v as int),
            None => combined_weight(a, b) is None,
        },
{
    match (a, b) {
        (Some(x), Some(y)) => Some(x + y),
        _ => None,
    }
}

/// One styled character at a grid position.
///
/// `weight` is what crossing the cell costs a route: `None` bars the cell,
/// `Some(0)` makes it free.
#[derive(Clone, Copy, Debug, PartialEq, Eq, Structural)]
pub struct Pixel {
    pub character: char,
    pub position: Point,
    pub style: TextStyle,
    pub weight: Option<usize>,
}

impl Pixel {
    pub fn new(character: char, position: Point, style: TextStyle, weight: Option<usize>) -> (p:
        Pixel)
        ensures
            p == (Pixel { character, position, style, weight }),
    {
        Pixel { character, position, style, weight }
    }

    /// The same pixel at another position.
    pub fn at(&self, position: Point) -> (p: Pixel)
        ensures
            p == (Pixel { position, ..*self }),
    {
        Pixel { character: self.character, position, style: self.style, weight: self.weight }
    }

    pub fn set_position(&mut self, position: Point)
        ensures
            *final(self) == (Pixel { position, ..*old(self) }),
    {
        self.position = position;
    }

    /// The same pixel with another weight.
    pub fn with_weight(&self, weight: Option<usize>) -> (p: Pixel)
        ensures
            p == (Pixel { weight, ..*self }),
    {
        Pixel { character: self.character, position: self.position, style: self.style, weight }
    }

    /// The pixel as text: its character in its style.
    pub fn render(&self) -> (out: String)
        ensures
            out@ == self.style.rendered(seq![self.character]),
    {
        let mut text = String::new();
        text.push(self.character);
        assert(text@ =~= seq![self.character]);
        self.style.render(text.as_str())
    }

    /// This pixel as it appears when drawn inside a group: moved by the
    /// group's offset, its style laid over the group's, and the weights combined.
    pub open spec fn placed(self, offset: Point, style: TextStyle, weight: Option<usize>) -> Pixel {
        Pixel {
            character: self.character,
            position: self.position.plus(offset),
            style: TextStyle::combined(self.style, style),
            weight: match combined_weight(self.weight, weight) {
                Some(w) => Some(w as usize),
                None => None,
            },
        }
    }

    /// True when `placed` stays within the machine's integers.
    pub open spec fn can_place(self, offset: Point, weight: Option<usize>) -> bool {
        self.position.can_add(offset) && weights_fit(self.weight, weight)
    }

    pub fn place(&self, offset: Point, style: TextStyle, weight: Option<usize>) -> (p: Pixel)
        requires
            self.can_place(offset, weight),
        ensures
            p == self.placed(offset, style, weight),
    {
        Pixel {
            character: self.character,
            position: self.position + offset,
            style: TextStyle::combine(self.style, style),
            weight: combine_weight(self.weight, weight),
        }
    }
}

/// Each pixel of a list as drawn inside a group with the given offset,
/// style and weight.
pub open spec fn placed_seq(
    pixels: Seq<Pixel>,
    offset: Point,
    style: TextStyle,
    weight: Option<usize>,
) -> Seq<Pixel> {
    Seq::new(pixels.len(), |i: int| pixels[i].placed(offset, style, weight))
}

/// A relocatable bundle of pixels with a style and a weight of its own.
#[derive(Clone, Debug)]
pub struct PixelGroup {
    pub pixels: Vec<Pixel>,
    pub position: Point,
    pub style: TextStyle,
    pub weight: Option<usize>,
}

impl PixelGroup {
    pub fn new(pixels: Vec<Pixel>, position: Point, style: TextStyle, weight: Option<usize>) -> (g:
        PixelGroup)
        ensures
            g.pixels@ == pixels@,
            g.position == position,
            g.style == style,
            g.weight == weight,
    {
        PixelGroup { pixels, position, style, weight }
    }

    /// The same group at another offset.
    pub fn at(&self, position: Point) -> (g: PixelGroup)
        ensures
            g.pixels@ == self.pixels@,
            g.position == position,
            g.style == self.style,
            g.weight == self.weight,
    {
        let mut pixels: Vec<Pixel> = Vec::new();
        let mut i: usize = 0;
        while i < self.pixels.len()
            invariant
                i <= self.pixels@.len(),
                pixels@ == self.pixels@.subrange(0, i as int),
            decreases self.pixels@.len() - i,
        {
            pixels.push(self.pixels[i]);
            i += 1;
        }
        assert(self.pixels@.subrange(0, self.pixels@.len() as int) =~= self.pixels@);
        PixelGroup { pixels, position, style: self.style, weight: self.weight }
    }

    pub fn len(&self) -> (n: usize)
        ensures
            n == self.pixels@.len(),
    {
        self.pixels.len()
    }

    pub fn get(&self, index: usize) -> (p: Pixel)
        requires
            index < self.pixels@.len(),
        ensures
            p == self.pixels@[index as int],
    {
        self.pixels[index]
    }

    pub fn set(&mut self, index: usize, value: Pixel)
        requires
            index < old(self).pixels@.len(),
        ensures
            final(self).pixels@ == old(self).pixels@.update(index as int, value),
            final(self).position == old(self).position,
            final(self).style == old(self).style,
            final(self).weight == old(self).weight,
    {
        self.pixels.set(index, value);
    }

    /// True when every pixel can be placed at the group's offset with the
    /// group's weight.
    pub open spec fn fits(&self) -> bool {
        forall|i: int|
            0 <= i < self.pixels@.len() ==> (#[trigger] self.pixels@[i]).can_place(
                self.position,
                self.weight,
            )
    }

    /// Tells whether every pixel can be placed at the group's offset with
    /// the group's weight.
    pub fn check_fits(&self) -> (ok: bool)
        ensures
            ok == self.fits(),
    {
        let mut i: usize = 0;
        while i < self.pixels.len()
            invariant
                i <= self.pixels@.len(),
                forall|j: int|
                    0 <= j < i ==> (#[trigger] self.pixels@[j]).can_place(self.position, self.weight),
            decreases self.pixels@.len() - i,
        {
            let pixel = &self.pixels[i];
            let placed = pixel.position.checked_add(self.position);
            let weighed = match (pixel.weight, self.weight) {
                (Some(a), Some(b)) => a.checked_add(b).is_some(),
                _ => true,
            };
            if placed.is_none() || !weighed {
                assert(!self.pixels@[i as int].can_place(self.position, self.weight));
                return false;
            }
            i += 1;
        }
        true
    }

    /// The pixels as drawn: each one placed at the group's offset.
    pub open spec fn placed_pixels(&self) -> Seq<Pixel> {
        placed_seq(self.pixels@, self.position, self.style, self.weight)
    }
}


/// Each pixel paired with its own position as the key.
pub open spec fn by_position(pixels: Seq<Pixel>) -> Seq<(Point, Pixel)> {
    Seq::new(pixels.len(), |i: int| (pixels[i].position, pixels[i]))
}

/// The map that a list of pixels draws: at each position the last pixel
/// listed for it.
pub open spec fn pixel_map(pixels: Seq<Pixel>) -> Map<Point, Pixel> {
    map_of(by_position(pixels))
}

/// True when every entry is filed under the position of its pixel.
pub open spec fn keyed(entries: Seq<(Point, Pixel)>) -> bool {
    forall|i: int| 0 <= i < entries.len() ==> (#[trigger] entries[i]).0 == entries[i].1.position
}

/// True when every entry holds a pixel of weight `w`.
pub open spec fn weighing(entries: Seq<(Point, Pixel)>, w: Option<usize>) -> bool {
    forall|i: int| 0 <= i < entries.len() ==> (#[trigger] entries[i]).1.weight == w
}

/// Drawing one more pixel binds its position to it.
pub proof fn lemma_pixel_map_push(pixels: Seq<Pixel>, p: Pixel)
    ensures
        pixel_map(pixels.push(p)) == pixel_map(pixels).insert(p.position, p),
{
    assert(by_position(pixels.push(p)) =~= by_position(pixels).push((p.position, p)));
    lemma_map_of_push(by_position(pixels), p.position, p);
}

/// True when no two pixels of a list share a position.
pub open spec fn distinct_positions(pixels: Seq<Pixel>) -> bool {
    forall|i: int, j: int| 0 <= i < j < pixels.len() ==> pixels[i].position != pixels[j].position
}

/// True when no entry after the `i`-th has the key of the `i`-th.
pub open spec fn is_last_entry(entries: Seq<(Point, Pixel)>, i: int) -> bool {
    forall|j: int| i < j < entries.len() ==> (#[trigger] entries[j]).0 != entries[i].0
}

/// Every key of the map has a last entry.
pub proof fn lemma_last_entry(entries: Seq<(Point, Pixel)>, p: Point)
    requires
        map_of(entries).contains_key(p),
    ensures
        exists|i: int| 0 <= i < entries.len() && (#[trigger] entries[i]).0 == p && is_last_entry(entries, i),
    decreases entries.len(),
{
    if entries.len() > 0 {
        let n = entries.len() - 1;
        if entries[n].0 == p {
            assert(is_last_entry(entries, n));
        } else {
            let front = entries.drop_last();
            lemma_last_entry(front, p);
            let i = choose|i: int|
                0 <= i < front.len() && (#[trigger] front[i]).0 == p && is_last_entry(front, i);
            assert(front[i] == entries[i]);
            assert forall|j: int| i < j < entries.len() implies (#[trigger] entries[j]).0 != entries[i].0 by {
                if j < n {
                    assert(front[j] == entries[j]);
                }
            }
            assert(entries[i].0 == p && is_last_entry(entries, i));
        }
    }
}

/// The pixels of a map, one for each position, in the order in which they
/// were last drawn.
pub fn pixels_of(map: &PointMap<Pixel>) -> (pixels: Vec<Pixel>)
    requires
        keyed(map.entries@),
    ensures
        pixel_map(pixels@) == map@,
        distinct_positions(pixels@),
        forall|k: int|
            0 <= k < pixels@.len() ==> map@.contains_key((#[trigger] pixels@[k]).position)
                && map@[pixels@[k].position] == pixels@[k],
{
    let n = map.entries.len();
    let mut pixels: Vec<Pixel> = Vec::new();
    let ghost mut kept: Seq<int> = Seq::empty();
    let mut i: usize = 0;
    while i < n
        invariant
            i <= n,
            n == map.entries@.len(),
            keyed(map.entries@),
            kept.len() == pixels@.len(),
            forall|k: int|
                0 <= k < kept.len() ==> 0 <= #[trigger] kept[k] < i && is_last_entry(
                    map.entries@,
                    kept[k],
                ) && pixels@[k] == map.entries@[kept[k]].1,
            forall|k: int, l: int| 0 <= k < l < kept.len() ==> kept[k] < kept[l],
            forall|e: int|
                0 <= e < i && is_last_entry(map.entries@, e) ==> exists|k: int|
                    0 <= k < kept.len() && #[trigger] kept[k] == e,
        decreases n - i,
    {
        let key = map.entries[i].0;
        let mut j: usize = i + 1;
        let mut shadowed = false;
        while j < n && !shadowed
            invariant
                i < j <= n,
                n == map.entries@.len(),
                key == map.entries@[i as int].0,
                !shadowed ==> forall|l: int| i < l < j ==> (#[trigger] map.entries@[l]).0 != key,
                shadowed ==> !is_last_entry(map.entries@, i as int),
            decreases n - j + (if shadowed { 0int } else { 1int }),
        {
            if map.entries[j].0 == key {
                shadowed = true;
                assert(map.entries@[j as int].0 == map.entries@[i as int].0);
            } else {
                j += 1;
            }
        }
        if !shadowed {
            assert(is_last_entry(map.entries@, i as int));
            let ghost before = kept;
            pixels.push(map.entries[i].1);
            proof {
                kept = kept.push(i as int);
                assert forall|e: int|
                    0 <= e < i + 1 && is_last_entry(map.entries@, e) implies exists|k: int|
                    0 <= k < kept.len() && #[trigger] kept[k] == e by {
                    if e < i {
                        let k = choose|k: int| 0 <= k < before.len() && #[trigger] before[k] == e;
                        assert(kept[k] == e);
                    } else {
                        assert(kept[before.len() as int] == e);
                    }
                }
            }
        }
        i += 1;
    }
    proof {
        let entries = map.entries@;
        let drawn = by_position(pixels@);
        lemma_map_of_keys(drawn);
        lemma_map_of_keys(entries);
        assert forall|k: int| 0 <= k < pixels@.len() implies map@.contains_key(
            (#[trigger] pixels@[k]).position,
        ) && map@[pixels@[k].position] == pixels@[k] by {
            assert(entries[kept[k]].0 == pixels@[k].position);
            lemma_get_last_match(entries, pixels@[k].position, kept[k]);
        }
        assert forall|k: int, l: int| 0 <= k < l < pixels@.len() implies pixels@[k].position
            != pixels@[l].position by {
            assert(kept[k] < kept[l]);
            assert(entries[kept[k]].0 == pixels@[k].position);
            assert(entries[kept[l]].0 == pixels@[l].position);
        }
        assert forall|p: Point| map@.contains_key(p) implies pixel_map(pixels@).contains_key(p) by {
            lemma_last_entry(entries, p);
            let e = choose|e: int|
                0 <= e < entries.len() && (#[trigger] entries[e]).0 == p && is_last_entry(entries, e);
            let k = choose|k: int| 0 <= k < kept.len() && #[trigger] kept[k] == e;
            assert(drawn[k].0 == p);
        }
        assert forall|p: Point| pixel_map(pixels@).contains_key(p) implies map@.contains_key(p)
            && map@[p] == pixel_map(pixels@)[p] by {
            let k = choose|k: int|
                0 <= k < drawn.len() && drawn[k].0 == p && drawn[k].1 == pixel_map(pixels@)[p];
            assert(pixels@[k].position == p);
        }
        assert(pixel_map(pixels@) =~= map@);
    }
    pixels
}

} // verus!
