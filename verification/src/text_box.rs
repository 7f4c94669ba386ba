//! Text boxes: a text laid out in a rectangle, with padding and a border.

use vstd::prelude::*;
use crate::border::FrameLook;
use crate::geometry::{fits_isize, shift_down, shift_up, BoundingBox, Point};
use crate::glyph::LineStyle;
use crate::layout::{frame_of, layout_rows, shows, Alignment, Frame, Justification};
use crate::pixel::{
    distinct_positions, keyed, pixel_map, pixels_of, weighing, Pixel, PixelGroup,
};
use crate::point_map::{lemma_map_of_keys, map_of, PointMap};
use crate::style::TextStyle;
use crate::text::chars_of;

verus! {

/// A layout specification: a text, where it goes, and how it is framed.
///
/// `position` is the bottom left cell of the text block. `padding` is the
/// number of cells between the text block and the border on the top, right,
/// bottom and left side.
#[derive(Clone, Debug)]
pub struct Box {
    pub text: String,
    pub position: Point,
    pub width: Option<usize>,
    pub height: Option<usize>,
    pub style: TextStyle,
    pub border_style: TextStyle,
    pub line_style: Option<LineStyle>,
    pub weight: Option<usize>,
    pub padding: Option<(usize, usize, usize, usize)>,
    pub padding_style: TextStyle,
    pub align: Alignment,
    pub justify: Justification,
    pub truncate_string: Option<String>,
    pub transparent: bool,
    pub transparent_padding: bool,
}

/// The pixel that rows of cells, the bottom row first and its first cell at
/// `origin`, have at `p`: the character of the cell, or a blank for a blank
/// cell unless blanks are transparent.
pub open spec fn rows_pixel(
    rows: Seq<Vec<Option<char>>>,
    origin: Point,
    style: TextStyle,
    weight: Option<usize>,
    transparent: bool,
    p: Point,
) -> Option<Pixel> {
    let col = p.x - origin.x;
    let row = p.y - origin.y;
    if 0 <= row < rows.len() && 0 <= col < rows[row]@.len() {
        match rows[row]@[col] {
            Some(c) => Some(Pixel { character: c, position: p, style, weight }),
            None => if transparent {
                None
            } else {
                Some(Pixel { character: ' ', position: p, style, weight })
            },
        }
    } else {
        None
    }
}

/// The pixels of the rows below `row`, and of row `row` left of `col`.
pub open spec fn rows_map_upto(
    rows: Seq<Vec<Option<char>>>,
    origin: Point,
    style: TextStyle,
    weight: Option<usize>,
    transparent: bool,
    row: int,
    col: int,
) -> Map<Point, Pixel> {
    Map::new(
        |p: Point|
            rows_pixel(rows, origin, style, weight, transparent, p) is Some && (p.y - origin.y < row
                || (p.y - origin.y == row && p.x - origin.x < col)),
        |p: Point| rows_pixel(rows, origin, style, weight, transparent, p)->0,
    )
}

/// The pixels of all rows.
pub open spec fn rows_map(
    rows: Seq<Vec<Option<char>>>,
    origin: Point,
    style: TextStyle,
    weight: Option<usize>,
    transparent: bool,
) -> Map<Point, Pixel> {
    Map::new(
        |p: Point| rows_pixel(rows, origin, style, weight, transparent, p) is Some,
        |p: Point| rows_pixel(rows, origin, style, weight, transparent, p)->0,
    )
}

fn put_cell(m: &mut PointMap<Pixel>, pixel: Pixel)
    requires
        keyed(old(m).entries@),
        weighing(old(m).entries@, pixel.weight),
    ensures
        keyed(final(m).entries@),
        weighing(final(m).entries@, pixel.weight),
        final(m)@ == old(m)@.insert(pixel.position, pixel),
{
    m.insert(pixel.position, pixel);
}

/// Draws rows of cells, each `width` cells long, the bottom row first and
/// its first cell at `origin`.
pub fn draw_rows(
    rows: &Vec<Vec<Option<char>>>,
    width: usize,
    origin: Point,
    style: TextStyle,
    weight: Option<usize>,
    transparent: bool,
) -> (m: PointMap<Pixel>)
    requires
        forall|r: int| 0 <= r < rows@.len() ==> (#[trigger] rows@[r])@.len() == width,
        fits_isize(origin.x + width - 1),
        fits_isize(origin.y + rows@.len() - 1),
    ensures
        m@ == rows_map(rows@, origin, style, weight, transparent),
        keyed(m.entries@),
        weighing(m.entries@, weight),
{
    let h = rows.len();
    let mut m: PointMap<Pixel> = PointMap::new();
    let mut row: usize = 0;
    assert(m@ =~= rows_map_upto(rows@, origin, style, weight, transparent, 0, 0));
    while row < h
        invariant
            row <= h,
            h == rows@.len(),
            forall|r: int| 0 <= r < rows@.len() ==> (#[trigger] rows@[r])@.len() == width,
            fits_isize(origin.x + width - 1),
            fits_isize(origin.y + rows@.len() - 1),
            keyed(m.entries@),
            weighing(m.entries@, weight),
            m@ == rows_map_upto(rows@, origin, style, weight, transparent, row as int, 0),
        decreases h - row,
    {
        let cells = &rows[row];
        let y = shift_up(origin.y, row);
        let mut col: usize = 0;
        while col < width
            invariant
                row < h,
                h == rows@.len(),
                col <= width,
                cells@.len() == width,
                *cells == rows@[row as int],
                fits_isize(origin.x + width - 1),
                y == origin.y + row,
                keyed(m.entries@),
                weighing(m.entries@, weight),
                m@ == rows_map_upto(rows@, origin, style, weight, transparent, row as int, col as int),
            decreases width - col,
        {
            let p = Point { x: shift_up(origin.x, col), y };
            let ghost before = m@;
            match cells[col] {
                Some(c) => {
                    put_cell(&mut m, Pixel { character: c, position: p, style, weight });
                },
                None => {
                    if !transparent {
                        put_cell(&mut m, Pixel { character: ' ', position: p, style, weight });
                    }
                },
            }
            col += 1;
            proof {
                let next = rows_map_upto(rows@, origin, style, weight, transparent, row as int, col as int);
                assert(rows_pixel(rows@, origin, style, weight, transparent, p) is Some ==> m@
                    == before.insert(p, rows_pixel(rows@, origin, style, weight, transparent, p)->0));
                assert(rows_pixel(rows@, origin, style, weight, transparent, p) is None ==> m@ == before);
                assert forall|q: Point| #[trigger] next.contains_key(q) <==> m@.contains_key(q) by {
                    if q.y - origin.y == row && q.x - origin.x == col - 1 {
                        assert(q == p);
                    }
                }
                assert(m@ =~= next);
            }
        }
        proof {
            assert(rows_map_upto(rows@, origin, style, weight, transparent, row as int, width as int)
                =~= rows_map_upto(rows@, origin, style, weight, transparent, row + 1, 0));
        }
        row += 1;
    }
    assert(m@ =~= rows_map(rows@, origin, style, weight, transparent));
    m
}

impl Box {
    /// The truncation marker; empty where none is set.
    pub open spec fn marker(&self) -> Seq<char> {
        match self.truncate_string {
            Some(s) => s@,
            None => seq![],
        }
    }

    /// The rectangle of cells that the text fills.
    pub open spec fn frame(&self) -> Frame {
        frame_of(self.text@, self.width, self.height, self.justify, self.align, self.marker())
    }

    /// The padding on the top, right, bottom and left; zero where none is set.
    pub open spec fn pads(&self) -> (usize, usize, usize, usize) {
        match self.padding {
            Some(p) => p,
            None => (0, 0, 0, 0),
        }
    }

    /// The edges of the text block, as unbounded integers: top, right,
    /// bottom, left.
    pub open spec fn text_edges(&self) -> (int, int, int, int) {
        (
            self.position.y + self.frame().height - 1,
            self.position.x + self.frame().width - 1,
            self.position.y as int,
            self.position.x as int,
        )
    }

    /// The edges of the border, as unbounded integers: the text block grown
    /// by the padding and by one cell for the border line.
    pub open spec fn border_edges(&self) -> (int, int, int, int) {
        (
            self.text_edges().0 + self.pads().0 + 1,
            self.text_edges().1 + self.pads().1 + 1,
            self.text_edges().2 - self.pads().2 - 1,
            self.text_edges().3 - self.pads().3 - 1,
        )
    }

    /// True when the text block lies within the representable grid.
    pub open spec fn text_fits(&self) -> bool {
        fits_isize(self.text_edges().0) && fits_isize(self.text_edges().1)
    }

    /// True when the box with its border lies within the representable grid.
    pub open spec fn fits(&self) -> bool {
        &&& fits_isize(self.border_edges().0)
        &&& fits_isize(self.border_edges().1)
        &&& fits_isize(self.border_edges().2)
        &&& fits_isize(self.border_edges().3)
    }

    /// The bounding box of the text block.
    pub open spec fn text_bbox(&self) -> BoundingBox {
        BoundingBox {
            top: self.text_edges().0 as isize,
            right: self.text_edges().1 as isize,
            bottom: self.text_edges().2 as isize,
            left: self.text_edges().3 as isize,
        }
    }

    /// The bounding box of the whole box: its border.
    pub open spec fn bbox(&self) -> BoundingBox {
        BoundingBox {
            top: self.border_edges().0 as isize,
            right: self.border_edges().1 as isize,
            bottom: self.border_edges().2 as isize,
            left: self.border_edges().3 as isize,
        }
    }

    /// The pixel that the text block has at `p`, if it has one: the
    /// character of the cell, or a blank for a blank cell unless the box is
    /// transparent.
    pub open spec fn text_pixel(&self, p: Point) -> Option<Pixel> {
        let col = p.x - self.position.x;
        let row = p.y - self.position.y;
        if 0 <= col < self.frame().width && 0 <= row < self.frame().height {
            match self.frame().cell(col, row) {
                Some(c) => Some(
                    Pixel { character: c, position: p, style: self.style, weight: self.weight },
                ),
                None => if self.transparent {
                    None
                } else {
                    Some(Pixel { character: ' ', position: p, style: self.style, weight: self.weight })
                },
            }
        } else {
            None
        }
    }

    /// The text block, as a map.
    pub open spec fn text_map(&self) -> Map<Point, Pixel> {
        Map::new(|p: Point| self.text_pixel(p) is Some, |p: Point| self.text_pixel(p)->0)
    }

    /// How the border and the padding are drawn.
    pub open spec fn look(&self) -> FrameLook {
        FrameLook {
            border_style: self.border_style,
            fill_style: self.padding_style,
            line_style: self.line_style,
            weight: self.weight,
            transparent: self.transparent_padding,
        }
    }

    /// The whole box, as a map: the border and the padding, and over them
    /// the text block.
    pub open spec fn drawn(&self) -> Map<Point, Pixel> {
        self.look().frame_map(self.bbox()).union_prefer_right(self.text_map())
    }

    pub fn new(
        text: String,
        position: Point,
        width: Option<usize>,
        height: Option<usize>,
        style: TextStyle,
        border_style: TextStyle,
        line_style: Option<LineStyle>,
        weight: Option<usize>,
        padding: Option<(usize, usize, usize, usize)>,
        padding_style: TextStyle,
        align: Alignment,
        justify: Justification,
        truncate_string: Option<String>,
        transparent: bool,
        transparent_padding: bool,
    ) -> (b: Box)
        ensures
            b == (Box {
                text,
                position,
                width,
                height,
                style,
                border_style,
                line_style,
                weight,
                padding,
                padding_style,
                align,
                justify,
                truncate_string,
                transparent,
                transparent_padding,
            }),
    {
        Box {
            text,
            position,
            width,
            height,
            style,
            border_style,
            line_style,
            weight,
            padding,
            padding_style,
            align,
            justify,
            truncate_string,
            transparent,
            transparent_padding,
        }
    }

    /// The rows of cells of the text block, bottom row first.
    fn rows(&self) -> (rows: Vec<Vec<Option<char>>>)
        ensures
            shows(rows@, self.frame()),
    {
        let text = chars_of(self.text.as_str());
        let marker: Vec<char> = match &self.truncate_string {
            Some(s) => chars_of(s.as_str()),
            None => Vec::new(),
        };
        layout_rows(&text, self.width, self.height, self.justify, self.align, &marker)
    }

    /// The pixels of the text block and its bounding box.
    pub fn format_text(&self) -> (r: (PointMap<Pixel>, BoundingBox))
        requires
            self.text_fits(),
        ensures
            r.0@ == self.text_map(),
            keyed(r.0.entries@),
            weighing(r.0.entries@, self.weight),
            r.1 == self.text_bbox(),
    {
        let rows = self.rows();
        let h = rows.len();
        let w = if h > 0 {
            rows[0].len()
        } else {
            self.text_width()
        };
        let m = draw_rows(&rows, w, self.position, self.style, self.weight, self.transparent);
        proof {
            let frame = self.frame();
            assert forall|p: Point|
                rows_pixel(rows@, self.position, self.style, self.weight, self.transparent, p)
                    == #[trigger] self.text_pixel(p) by {
                let col = p.x - self.position.x;
                let row = p.y - self.position.y;
                if 0 <= row < rows@.len() && 0 <= col < rows@[row]@.len() {
                    assert(rows@[row]@[col] == frame.cell(col, row));
                }
            }
            assert(m@ =~= self.text_map());
        }
        let top = if h > 0 {
            shift_up(self.position.y, h - 1)
        } else {
            self.position.y - 1
        };
        let right = if w > 0 {
            shift_up(self.position.x, w - 1)
        } else {
            self.position.x - 1
        };
        (m, BoundingBox { top, right, bottom: self.position.y, left: self.position.x })
    }

    /// Tells whether the box with its border lies within the representable grid.
    pub fn check_fits(&self) -> (ok: bool)
        ensures
            ok == self.fits(),
    {
        let h = self.text_height() as i128;
        let w = self.text_width() as i128;
        let pads = match self.padding {
            Some(p) => p,
            None => (0, 0, 0, 0),
        };
        let top = self.position.y as i128 + h + pads.0 as i128;
        let right = self.position.x as i128 + w + pads.1 as i128;
        let bottom = self.position.y as i128 - pads.2 as i128 - 1;
        let left = self.position.x as i128 - pads.3 as i128 - 1;
        top <= isize::MAX as i128 && right <= isize::MAX as i128 && bottom >= isize::MIN as i128
            && left >= isize::MIN as i128
    }

    /// The bounding box of the whole box: the text block grown by the
    /// padding and by one cell for the border.
    pub fn get_bbox(&self) -> (b: BoundingBox)
        requires
            self.fits(),
        ensures
            b == self.bbox(),
    {
        let h = self.text_height();
        let w = self.text_width();
        let pads = match self.padding {
            Some(p) => p,
            None => (0, 0, 0, 0),
        };
        let top = shift_up(shift_up(self.position.y, pads.0), h);
        let right = shift_up(shift_up(self.position.x, pads.1), w);
        let bottom = shift_down(self.position.y, pads.2) - 1;
        let left = shift_down(self.position.x, pads.3) - 1;
        BoundingBox { top, right, bottom, left }
    }

    /// The box as a group of pixels at the origin: the border and the
    /// padding first, the text block after them.
    pub fn as_group(&self) -> (g: PixelGroup)
        requires
            self.fits(),
        ensures
            pixel_map(g.pixels@) == self.drawn(),
            distinct_positions(g.pixels@),
            forall|i: int|
                0 <= i < g.pixels@.len() ==> self.drawn().contains_key(
                    (#[trigger] g.pixels@[i]).position,
                ) && self.drawn()[g.pixels@[i].position] == g.pixels@[i],
            forall|i: int| 0 <= i < g.pixels@.len() ==> (#[trigger] g.pixels@[i]).weight == self.weight,
            g.position == (Point { x: 0, y: 0 }),
            g.style == TextStyle::plain(),
            g.weight == self.weight,
    {
        let (text_pixels, inner) = self.format_text();
        let pads = match self.padding {
            Some(p) => p,
            None => (0, 0, 0, 0),
        };
        let border = BoundingBox {
            top: shift_up(inner.top, pads.0) + 1,
            right: shift_up(inner.right, pads.1) + 1,
            bottom: shift_down(inner.bottom, pads.2) - 1,
            left: shift_down(inner.left, pads.3) - 1,
        };
        let mut pixels = border.as_map(
            &self.border_style,
            &self.padding_style,
            self.line_style,
            self.weight,
            self.transparent_padding,
        );
        let ghost framed = pixels@;
        let mut i: usize = 0;
        assert(text_pixels.entries@.subrange(0, 0) =~= Seq::<(Point, Pixel)>::empty());
        assert(pixels@ =~= framed.union_prefer_right(Map::<Point, Pixel>::empty()));
        while i < text_pixels.entries.len()
            invariant
                i <= text_pixels.entries@.len(),
                keyed(text_pixels.entries@),
                keyed(pixels.entries@),
                weighing(text_pixels.entries@, self.weight),
                weighing(pixels.entries@, self.weight),
                pixels@ == framed.union_prefer_right(
                    map_of(text_pixels.entries@.subrange(0, i as int)),
                ),
            decreases text_pixels.entries@.len() - i,
        {
            let pixel = text_pixels.entries[i].1;
            let ghost before = map_of(text_pixels.entries@.subrange(0, i as int));
            proof {
                let upto = text_pixels.entries@.subrange(0, i + 1);
                assert(upto.drop_last() =~= text_pixels.entries@.subrange(0, i as int));
                assert(upto.last() == text_pixels.entries@[i as int]);
                assert(text_pixels.entries@[i as int].0 == pixel.position);
            }
            pixels.insert(pixel.position, pixel);
            proof {
                assert(pixels@ =~= framed.union_prefer_right(before.insert(pixel.position, pixel)));
            }
            i += 1;
        }
        assert(text_pixels.entries@.subrange(0, text_pixels.entries@.len() as int)
            =~= text_pixels.entries@);
        let group_pixels = pixels_of(&pixels);
        proof {
            lemma_map_of_keys(pixels.entries@);
            assert forall|i: int| 0 <= i < group_pixels@.len() implies (#[trigger] group_pixels@[i]).weight
                == self.weight by {
                let p = group_pixels@[i].position;
                assert(pixels@.contains_key(p));
                let e = choose|e: int|
                    0 <= e < pixels.entries@.len() && pixels.entries@[e].0 == p && pixels.entries@[e].1
                        == pixels@[p];
                assert(pixels.entries@[e].1.weight == self.weight);
            }
        }
        PixelGroup {
            pixels: group_pixels,
            position: Point { x: 0, y: 0 },
            style: TextStyle::default(),
            weight: self.weight,
        }
    }

    /// The box draws within its bounding box, and on every cell of it
    /// unless the padding is transparent.
    pub proof fn lemma_drawn_in_bbox(&self, p: Point)
        requires
            self.fits(),
        ensures
            self.drawn().contains_key(p) ==> self.bbox().contains(p),
            !self.transparent_padding && self.bbox().contains(p) ==> self.drawn().contains_key(p),
            self.drawn().contains_key(p) ==> self.drawn()[p].position == p,
            self.text_map().contains_key(p) ==> self.drawn()[p] == self.text_map()[p],
    {
    }

    /// The height of the text block.
    fn text_height(&self) -> (h: usize)
        ensures
            h == self.frame().height,
    {
        match self.height {
            Some(h) => h,
            None => {
                let text = chars_of(self.text.as_str());
                let raw = crate::layout::break_lines(&text, self.width);
                if raw.len() == 0 {
                    1
                } else {
                    raw.len()
                }
            },
        }
    }

    /// The width of the text block.
    fn text_width(&self) -> (w: usize)
        ensures
            w == self.frame().width,
    {
        match self.width {
            Some(w) => w,
            None => {
                let text = chars_of(self.text.as_str());
                crate::layout::longest_raw_line(&text)
            },
        }
    }
}

} // verus!
