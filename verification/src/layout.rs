//! Laying out text in a rectangle: wrapping, truncating, justifying and aligning.

use vstd::prelude::*;
use crate::text::{lines_of, split_lines, split_words, views, words_of};

verus! {

/// Where the text block sits vertically in a box taller than the text.
#[derive(Clone, Copy, Debug, PartialEq, Eq, Structural, Hash)]
pub enum Alignment {
    Top,
    Center,
    Bottom,
}

/// Where a line sits horizontally in a box wider than the line.
#[derive(Clone, Copy, Debug, PartialEq, Eq, Structural, Hash)]
pub enum Justification {
    Right,
    Center,
    Left,
}

impl Default for Alignment {
    fn default() -> (a: Alignment)
        ensures
            a == Alignment::Top,
    {
        Alignment::Top
    }
}

impl Default for Justification {
    fn default() -> (j: Justification)
        ensures
            j == Justification::Right,
    {
        Justification::Right
    }
}

/// Greedy word wrap: the lines that `words` fill after the line `current`,
/// which they continue.
///
/// A word goes on the current line, after one blank, as long as the line
/// stays within `width`; otherwise it starts the next line. A word longer
/// than `width` is left whole on a line of its own.
pub open spec fn wrap_from(words: Seq<Seq<char>>, width: int, current: Seq<char>) -> Seq<Seq<char>>
    decreases words.len(),
{
    if words.len() == 0 {
        seq![current]
    } else {
        let word = words[0];
        let rest = words.drop_first();
        if current.len() == 0 {
            wrap_from(rest, width, word)
        } else if current.len() + word.len() + 1 > width {
            seq![current] + wrap_from(rest, width, word)
        } else {
            wrap_from(rest, width, current.push(' ') + word)
        }
    }
}

/// One line, wrapped. A line without words gives one empty line.
pub open spec fn wrap_line(line: Seq<char>, width: int) -> Seq<Seq<char>> {
    wrap_from(words_of(line), width, seq![])
}

/// All lines wrapped, one after the other.
pub open spec fn wrap_lines(lines: Seq<Seq<char>>, width: int) -> Seq<Seq<char>>
    decreases lines.len(),
{
    if lines.len() == 0 {
        seq![]
    } else {
        wrap_line(lines[0], width) + wrap_lines(lines.drop_first(), width)
    }
}

/// The lines of a text before truncation: wrapped where a width is set.
pub open spec fn raw_lines(text: Seq<char>, width: Option<usize>) -> Seq<Seq<char>> {
    match width {
        Some(w) => wrap_lines(lines_of(text), w as int),
        None => lines_of(text),
    }
}

/// True when a line of `current` characters cannot take a blank and `word`
/// more characters within `width`.
fn overflows(current: usize, word: usize, width: usize) -> (b: bool)
    ensures
        b == (current + word + 1 > width),
{
    if current > width {
        true
    } else {
        let room = width - current;
        word >= room
    }
}

fn append_chars(target: &mut Vec<char>, source: &Vec<char>)
    ensures
        final(target)@ == old(target)@ + source@,
{
    let mut i: usize = 0;
    while i < source.len()
        invariant
            i <= source@.len(),
            target@ == old(target)@ + source@.subrange(0, i as int),
        decreases source@.len() - i,
    {
        target.push(source[i]);
        i += 1;
    }
    assert(source@.subrange(0, source@.len() as int) =~= source@);
}

fn copy_chars(source: &Vec<char>) -> (copy: Vec<char>)
    ensures
        copy@ == source@,
{
    let mut copy: Vec<char> = Vec::new();
    append_chars(&mut copy, source);
    assert(copy@ =~= source@);
    copy
}

/// Wraps one line and appends the resulting lines to `out`.
fn wrap_line_into(line: &Vec<char>, width: usize, out: &mut Vec<Vec<char>>)
    ensures
        views(final(out)@) == views(old(out)@) + wrap_line(line@, width as int),
{
    let words = split_words(line);
    let mut current: Vec<char> = Vec::new();
    let mut i: usize = 0;
    let ghost all = views(words@);
    assert(all.skip(0) =~= all);
    assert(views(out@) + wrap_from(all, width as int, current@) =~= views(old(out)@) + wrap_line(
        line@,
        width as int,
    ));
    while i < words.len()
        invariant
            i <= words@.len(),
            all == views(words@),
            views(out@) + wrap_from(all.skip(i as int), width as int, current@) == views(old(out)@)
                + wrap_line(line@, width as int),
        decreases words@.len() - i,
    {
        let word = &words[i];
        proof {
            let rest = all.skip(i as int);
            assert(rest[0] == word@);
            assert(rest.drop_first() =~= all.skip(i + 1));
        }
        if current.len() == 0 {
            current = copy_chars(word);
        } else if overflows(current.len(), word.len(), width) {
            let ghost before = views(out@);
            let ghost line_done = current@;
            out.push(current);
            current = copy_chars(word);
            proof {
                assert(views(out@) =~= before.push(line_done));
                assert(before.push(line_done) + wrap_from(
                    all.skip(i + 1),
                    width as int,
                    current@,
                ) =~= before + (seq![line_done] + wrap_from(all.skip(i + 1), width as int, current@)));
            }
        } else {
            current.push(' ');
            append_chars(&mut current, word);
        }
        i += 1;
    }
    let ghost before = views(out@);
    let ghost last = current@;
    out.push(current);
    proof {
        assert(views(out@) =~= before.push(last));
        assert(before.push(last) =~= before + seq![last]);
    }
}

/// The lines of `text`, wrapped to `width` where one is set.
pub fn break_lines(text: &Vec<char>, width: Option<usize>) -> (lines: Vec<Vec<char>>)
    ensures
        views(lines@) == raw_lines(text@, width),
{
    let split = split_lines(text);
    match width {
        None => split,
        Some(w) => {
            let mut out: Vec<Vec<char>> = Vec::new();
            let ghost all = views(split@);
            let mut i: usize = 0;
            assert(all.skip(0) =~= all);
            assert(views(out@) =~= Seq::<Seq<char>>::empty());
            while i < split.len()
                invariant
                    i <= split@.len(),
                    all == views(split@),
                    views(out@) + wrap_lines(all.skip(i as int), w as int) == wrap_lines(
                        all,
                        w as int,
                    ),
                decreases split@.len() - i,
            {
                proof {
                    let rest = all.skip(i as int);
                    assert(rest[0] == split@[i as int]@);
                    assert(rest.drop_first() =~= all.skip(i + 1));
                }
                let ghost before = views(out@);
                wrap_line_into(&split[i], w, &mut out);
                proof {
                    assert((before + wrap_line(split@[i as int]@, w as int)) + wrap_lines(
                        all.skip(i + 1),
                        w as int,
                    ) =~= before + (wrap_line(split@[i as int]@, w as int) + wrap_lines(
                        all.skip(i + 1),
                        w as int,
                    )));
                }
                i += 1;
            }
            assert(views(out@) + Seq::<Seq<char>>::empty() =~= views(out@));
            out
        },
    }
}


/// The length of the longest line; 0 where there is none.
pub open spec fn longest(lines: Seq<Seq<char>>) -> nat
    decreases lines.len(),
{
    if lines.len() == 0 {
        0
    } else {
        let before = longest(lines.drop_last());
        if lines.last().len() > before {
            lines.last().len()
        } else {
            before
        }
    }
}

/// `line` cut to `width` characters. Where the line is cut and a non-empty
/// `marker` fits in `width`, the marker takes the place of the last
/// characters kept.
pub open spec fn truncated(line: Seq<char>, width: nat, marker: Seq<char>) -> Seq<char> {
    if line.len() <= width {
        line
    } else if 0 < marker.len() <= width {
        line.subrange(0, width - marker.len()) + marker
    } else {
        line.subrange(0, width as int)
    }
}

/// The number of blank cells to the left of a line that leaves `spare`
/// cells of its row unused.
pub open spec fn left_padding(justify: Justification, spare: int) -> int {
    match justify {
        Justification::Left => 0,
        Justification::Right => spare,
        Justification::Center => spare / 2,
    }
}

/// The number of blank rows below a text block that leaves `spare` rows of
/// its box unused.
pub open spec fn bottom_padding(align: Alignment, spare: int) -> int {
    match align {
        Alignment::Top => spare,
        Alignment::Bottom => 0,
        Alignment::Center => spare - spare / 2,
    }
}

/// A text resolved to the rectangle it fills.
pub struct Frame {
    /// The lines shown, top to bottom, each no longer than `width`.
    pub lines: Seq<Seq<char>>,
    pub width: nat,
    pub height: nat,
    pub justify: Justification,
    pub align: Alignment,
}

impl Frame {
    /// The character of the cell in column `col`, counted from the left, and
    /// row `row`, counted from the bottom; `None` for a blank cell.
    pub open spec fn cell(self, col: int, row: int) -> Option<char> {
        let below = bottom_padding(self.align, self.height - self.lines.len());
        if below <= row < below + self.lines.len() {
            let line = self.lines[self.lines.len() - 1 - (row - below)];
            let left = left_padding(self.justify, self.width - line.len());
            if left <= col < left + line.len() {
                Some(line[col - left])
            } else {
                None
            }
        } else {
            None
        }
    }
}

/// The width of the text block: the width asked for, or that of the longest line.
pub open spec fn effective_width(text: Seq<char>, width: Option<usize>) -> nat {
    match width {
        Some(w) => w as nat,
        None => longest(raw_lines(text, width)),
    }
}

/// The height of the text block: the height asked for, or the number of
/// lines, and at least one row.
pub open spec fn effective_height(text: Seq<char>, width: Option<usize>, height: Option<usize>) -> nat {
    match height {
        Some(h) => h as nat,
        None => if raw_lines(text, width).len() == 0 {
            1
        } else {
            raw_lines(text, width).len()
        },
    }
}

/// The rectangle that a text fills: its lines wrapped, cut to the width,
/// and the lines beyond the height dropped.
pub open spec fn frame_of(
    text: Seq<char>,
    width: Option<usize>,
    height: Option<usize>,
    justify: Justification,
    align: Alignment,
    marker: Seq<char>,
) -> Frame {
    let raw = raw_lines(text, width);
    let w = effective_width(text, width);
    let h = effective_height(text, width, height);
    let shown = if raw.len() <= h {
        raw.len()
    } else {
        h
    };
    Frame {
        lines: Seq::new(shown, |i: int| truncated(raw[i], w, marker)),
        width: w,
        height: h,
        justify,
        align,
    }
}

fn longest_line(lines: &Vec<Vec<char>>) -> (n: usize)
    ensures
        n == longest(views(lines@)),
{
    let mut n: usize = 0;
    let mut i: usize = 0;
    let ghost all = views(lines@);
    assert(all.subrange(0, 0) =~= Seq::<Seq<char>>::empty());
    while i < lines.len()
        invariant
            i <= lines@.len(),
            all == views(lines@),
            n == longest(all.subrange(0, i as int)),
        decreases lines@.len() - i,
    {
        proof {
            let upto = all.subrange(0, i + 1);
            assert(upto.drop_last() =~= all.subrange(0, i as int));
            assert(upto.last() == lines@[i as int]@);
        }
        if lines[i].len() > n {
            n = lines[i].len();
        }
        i += 1;
    }
    assert(all.subrange(0, lines@.len() as int) =~= all);
    n
}

fn truncate_line(line: &Vec<char>, width: usize, marker: &Vec<char>) -> (cut: Vec<char>)
    ensures
        cut@ == truncated(line@, width as nat, marker@),
        cut@.len() <= width || line@.len() <= width,
{
    if line.len() <= width {
        copy_chars(line)
    } else {
        let keep: usize = if marker.len() > 0 && marker.len() <= width {
            width - marker.len()
        } else {
            width
        };
        let mut cut: Vec<char> = Vec::new();
        let mut i: usize = 0;
        while i < keep
            invariant
                i <= keep <= line@.len(),
                cut@ == line@.subrange(0, i as int),
            decreases keep - i,
        {
            cut.push(line[i]);
            i += 1;
        }
        if marker.len() > 0 && marker.len() <= width {
            append_chars(&mut cut, marker);
        }
        cut
    }
}

/// One row of cells: `line` between the blanks that justify it.
fn pad_line(line: &Vec<char>, width: usize, justify: Justification) -> (row: Vec<Option<char>>)
    requires
        line@.len() <= width,
    ensures
        row@.len() == width,
        forall|col: int|
            0 <= col < width ==> #[trigger] row@[col] == ({
                let left = left_padding(justify, width - line@.len());
                if left <= col < left + line@.len() {
                    Some(line@[col - left])
                } else {
                    None
                }
            }),
{
    let spare = width - line.len();
    let left: usize = match justify {
        Justification::Left => 0,
        Justification::Right => spare,
        Justification::Center => spare / 2,
    };
    let mut row: Vec<Option<char>> = Vec::new();
    let mut col: usize = 0;
    while col < width
        invariant
            col <= width,
            left == left_padding(justify, width - line@.len()),
            left + line@.len() <= width,
            row@.len() == col,
            forall|c: int|
                0 <= c < col ==> #[trigger] row@[c] == (if left <= c < left + line@.len() {
                    Some(line@[c - left])
                } else {
                    None
                }),
        decreases width - col,
    {
        if col >= left && col - left < line.len() {
            row.push(Some(line[col - left]));
        } else {
            row.push(None);
        }
        col += 1;
    }
    row
}

fn blank_row(width: usize) -> (row: Vec<Option<char>>)
    ensures
        row@.len() == width,
        forall|col: int| 0 <= col < width ==> #[trigger] row@[col] == None::<char>,
{
    let mut row: Vec<Option<char>> = Vec::new();
    let mut col: usize = 0;
    while col < width
        invariant
            col <= width,
            row@.len() == col,
            forall|c: int| 0 <= c < col ==> #[trigger] row@[c] == None::<char>,
        decreases width - col,
    {
        row.push(None);
        col += 1;
    }
    row
}

/// True when `rows` holds the cells of `frame`, bottom row first.
pub open spec fn shows(rows: Seq<Vec<Option<char>>>, frame: Frame) -> bool {
    &&& rows.len() == frame.height
    &&& forall|row: int| 0 <= row < rows.len() ==> (#[trigger] rows[row])@.len() == frame.width
    &&& forall|col: int, row: int|
        0 <= row < rows.len() && 0 <= col < frame.width ==> #[trigger] rows[row]@[col]
            == frame.cell(col, row)
}

/// Lays `text` out in a rectangle and returns its rows of cells, bottom row
/// first, a blank cell as `None`.
pub fn layout_rows(
    text: &Vec<char>,
    width: Option<usize>,
    height: Option<usize>,
    justify: Justification,
    align: Alignment,
    marker: &Vec<char>,
) -> (rows: Vec<Vec<Option<char>>>)
    ensures
        shows(rows@, frame_of(text@, width, height, justify, align, marker@)),
{
    let raw = break_lines(text, width);
    let w: usize = match width {
        Some(w) => w,
        None => longest_line(&raw),
    };
    let h: usize = match height {
        Some(h) => h,
        None => if raw.len() == 0 {
            1
        } else {
            raw.len()
        },
    };
    let shown: usize = if raw.len() <= h {
        raw.len()
    } else {
        h
    };
    let spare = h - shown;
    let below: usize = match align {
        Alignment::Top => spare,
        Alignment::Bottom => 0,
        Alignment::Center => spare - spare / 2,
    };
    let ghost frame = frame_of(text@, width, height, justify, align, marker@);
    let ghost all = views(raw@);
    proof {
        if width is None {
            lemma_longest_bounds(all);
        }
    }
    let mut rows: Vec<Vec<Option<char>>> = Vec::new();
    let mut row: usize = 0;
    while row < h
        invariant
            row <= h,
            shown <= raw@.len(),
            shown + spare == h,
            below <= spare,
            all == views(raw@),
            all == raw_lines(text@, width),
            frame == frame_of(text@, width, height, justify, align, marker@),
            frame.width == w,
            frame.height == h,
            frame.lines.len() == shown,
            below == bottom_padding(align, h - shown),
            width is None ==> forall|i: int| 0 <= i < all.len() ==> (#[trigger] all[i]).len() <= w,
            rows@.len() == row,
            forall|r: int| 0 <= r < row ==> (#[trigger] rows@[r])@.len() == w,
            forall|c: int, r: int|
                0 <= r < row && 0 <= c < w ==> #[trigger] rows@[r]@[c] == frame.cell(c, r),
        decreases h - row,
    {
        if row >= below && row - below < shown {
            let index = shown - 1 - (row - below);
            let cut = truncate_line(&raw[index], w, marker);
            proof {
                assert(all[index as int] == raw@[index as int]@);
                assert(frame.lines[index as int] == cut@);
            }
            let cells = pad_line(&cut, w, justify);
            rows.push(cells);
        } else {
            let cells = blank_row(w);
            rows.push(cells);
        }
        row += 1;
    }
    rows
}

/// The length of the longest line of a text that is not wrapped.
pub fn longest_raw_line(text: &Vec<char>) -> (n: usize)
    ensures
        n == effective_width(text@, None),
{
    let raw = break_lines(text, None);
    longest_line(&raw)
}

/// No line of a frame is longer than the frame is wide, and a frame has
/// no more lines than rows.
pub proof fn lemma_frame_lines_fit(
    text: Seq<char>,
    width: Option<usize>,
    height: Option<usize>,
    justify: Justification,
    align: Alignment,
    marker: Seq<char>,
)
    ensures
        frame_of(text, width, height, justify, align, marker).lines.len() <= frame_of(
            text,
            width,
            height,
            justify,
            align,
            marker,
        ).height,
        forall|i: int|
            0 <= i < frame_of(text, width, height, justify, align, marker).lines.len() ==> (
            #[trigger] frame_of(text, width, height, justify, align, marker).lines[i]).len()
                <= frame_of(text, width, height, justify, align, marker).width,
{
    let raw = raw_lines(text, width);
    if width is None {
        lemma_longest_bounds(raw);
    }
}

/// No line is longer than the longest.
pub proof fn lemma_longest_bounds(lines: Seq<Seq<char>>)
    ensures
        forall|i: int| 0 <= i < lines.len() ==> (#[trigger] lines[i]).len() <= longest(lines),
    decreases lines.len(),
{
    if lines.len() > 0 {
        lemma_longest_bounds(lines.drop_last());
        assert forall|i: int| 0 <= i < lines.len() implies (#[trigger] lines[i]).len() <= longest(
            lines,
        ) by {
            if i < lines.len() - 1 {
                assert(lines.drop_last()[i] == lines[i]);
            }
        }
    }
}

} // verus!
