//! Text as sequences of characters: lines, words and whitespace.
//!
//! Every character counts as one cell wide.

use vstd::prelude::*;

verus! {

/// The characters with the Unicode property `White_Space`.
pub open spec fn is_space_char(c: char) -> bool {
    let n = c as u32;
    ||| 0x09 <= n <= 0x0D
    ||| n == 0x20
    ||| n == 0x85
    ||| n == 0xA0
    ||| n == 0x1680
    ||| 0x2000 <= n <= 0x200A
    ||| n == 0x2028
    ||| n == 0x2029
    ||| n == 0x202F
    ||| n == 0x205F
    ||| n == 0x3000
}

pub fn is_space(c: char) -> (b: bool)
    ensures
        b == is_space_char(c),
{
    let n: u32 = c as u32;
    (0x09 <= n && n <= 0x0D) || n == 0x20 || n == 0x85 || n == 0xA0 || n == 0x1680 || (0x2000 <= n
        && n <= 0x200A) || n == 0x2028 || n == 0x2029 || n == 0x202F || n == 0x205F || n == 0x3000
}

/// The views of a list of character vectors.
pub open spec fn views(rows: Seq<Vec<char>>) -> Seq<Seq<char>> {
    Seq::new(rows.len(), |i: int| rows[i]@)
}

/// The characters of a string.
pub fn chars_of(s: &str) -> (v: Vec<char>)
    ensures
        v@ == s@,
{
    let n = s.unicode_len();
    let mut v: Vec<char> = Vec::new();
    let mut i: usize = 0;
    while i < n
        invariant
            i <= n,
            n == s@.len(),
            v@ == s@.subrange(0, i as int),
        decreases n - i,
    {
        v.push(s.get_char(i));
        i += 1;
    }
    v
}

/// `line` without one trailing carriage return.
pub open spec fn strip_cr(line: Seq<char>) -> Seq<char> {
    if line.len() > 0 && line.last() == '\r' {
        line.drop_last()
    } else {
        line
    }
}

/// The lines of `rest`, the first of them continuing `current`.
///
/// A line ends at a line feed; a carriage return just before the line feed
/// belongs to the line ending. The last line needs no line ending, and an
/// empty remainder after the last line ending is no line.
pub open spec fn split_lines_from(rest: Seq<char>, current: Seq<char>) -> Seq<Seq<char>>
    decreases rest.len(),
{
    if rest.len() == 0 {
        if current.len() == 0 {
            seq![]
        } else {
            seq![current]
        }
    } else if rest[0] == '\n' {
        seq![strip_cr(current)] + split_lines_from(rest.drop_first(), seq![])
    } else {
        split_lines_from(rest.drop_first(), current.push(rest[0]))
    }
}

/// The lines of a text.
pub open spec fn lines_of(text: Seq<char>) -> Seq<Seq<char>> {
    split_lines_from(text, seq![])
}

pub fn split_lines(text: &Vec<char>) -> (lines: Vec<Vec<char>>)
    ensures
        views(lines@) == lines_of(text@),
{
    let mut lines: Vec<Vec<char>> = Vec::new();
    let mut current: Vec<char> = Vec::new();
    let mut i: usize = 0;
    assert(text@.skip(0) =~= text@);
    assert(views(lines@) =~= Seq::<Seq<char>>::empty());
    while i < text.len()
        invariant
            i <= text@.len(),
            lines_of(text@) == views(lines@) + split_lines_from(text@.skip(i as int), current@),
        decreases text@.len() - i,
    {
        let c = text[i];
        proof {
            let rest = text@.skip(i as int);
            assert(rest[0] == c);
            assert(rest.drop_first() =~= text@.skip(i + 1));
        }
        if c == '\n' {
            let n = current.len();
            if n > 0 && current[n - 1] == '\r' {
                current.pop();
            }
            let ghost before = views(lines@);
            let ghost line = current@;
            lines.push(current);
            current = Vec::new();
            proof {
                assert(views(lines@) =~= before.push(line));
                assert(before.push(line) =~= before + seq![line]);
                assert(current@ =~= Seq::<char>::empty());
            }
        } else {
            current.push(c);
        }
        i += 1;
    }
    if current.len() > 0 {
        let ghost before = views(lines@);
        let ghost line = current@;
        lines.push(current);
        proof {
            assert(views(lines@) =~= before.push(line));
            assert(before.push(line) =~= before + seq![line]);
        }
    } else {
        assert(views(lines@) + Seq::<Seq<char>>::empty() =~= views(lines@));
    }
    lines
}

/// The words of `rest`, the first of them continuing `current`.
///
/// A word is a longest run of characters that are not whitespace.
pub open spec fn split_words_from(rest: Seq<char>, current: Seq<char>) -> Seq<Seq<char>>
    decreases rest.len(),
{
    if rest.len() == 0 {
        if current.len() == 0 {
            seq![]
        } else {
            seq![current]
        }
    } else if is_space_char(rest[0]) {
        if current.len() == 0 {
            split_words_from(rest.drop_first(), seq![])
        } else {
            seq![current] + split_words_from(rest.drop_first(), seq![])
        }
    } else {
        split_words_from(rest.drop_first(), current.push(rest[0]))
    }
}

/// The words of a line.
pub open spec fn words_of(line: Seq<char>) -> Seq<Seq<char>> {
    split_words_from(line, seq![])
}

pub fn split_words(line: &Vec<char>) -> (words: Vec<Vec<char>>)
    ensures
        views(words@) == words_of(line@),
{
    let mut words: Vec<Vec<char>> = Vec::new();
    let mut current: Vec<char> = Vec::new();
    let mut i: usize = 0;
    assert(line@.skip(0) =~= line@);
    assert(views(words@) =~= Seq::<Seq<char>>::empty());
    while i < line.len()
        invariant
            i <= line@.len(),
            words_of(line@) == views(words@) + split_words_from(line@.skip(i as int), current@),
        decreases line@.len() - i,
    {
        let c = line[i];
        proof {
            let rest = line@.skip(i as int);
            assert(rest[0] == c);
            assert(rest.drop_first() =~= line@.skip(i + 1));
        }
        if is_space(c) {
            if current.len() > 0 {
                let ghost before = views(words@);
                let ghost word = current@;
                words.push(current);
                current = Vec::new();
                proof {
                    assert(views(words@) =~= before.push(word));
                    assert(before.push(word) =~= before + seq![word]);
                    assert(current@ =~= Seq::<char>::empty());
                }
            } else {
                assert(current@ =~= Seq::<char>::empty());
            }
        } else {
            current.push(c);
        }
        i += 1;
    }
    if current.len() > 0 {
        let ghost before = views(words@);
        let ghost word = current@;
        words.push(current);
        proof {
            assert(views(words@) =~= before.push(word));
            assert(before.push(word) =~= before + seq![word]);
        }
    } else {
        assert(views(words@) + Seq::<Seq<char>>::empty() =~= views(words@));
    }
    words
}

} // verus!
