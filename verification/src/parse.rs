//! Reading styles, colours and keywords from text.

use vstd::prelude::*;
use crate::error::{Error, ParseError};
use crate::glyph::{ArrowType, Direction, LineStyle};
use crate::layout::{Alignment, Justification};
use crate::style::{hex_digit_of, hex_pair, AnsiColor, Color, Effect, Effects, TextStyle};
use crate::text::{chars_of, is_space, is_space_char, split_words, views, words_of};

verus! {

/// The lower-case form that `str::to_lowercase` gives a text.
pub uninterp spec fn lowercase(s: Seq<char>) -> Seq<char>;

/// `str::to_lowercase` returns the lower-case equivalent of a text, which
/// depends on the text alone.
pub assume_specification[ str::to_lowercase ](s: &str) -> (lower: String)
    ensures
        lower@ == lowercase(s@),
;

/// True when two texts hold the same characters.
pub fn same_text(a: &str, b: &str) -> (same: bool)
    ensures
        same == (a@ == b@),
{
    let n = a.unicode_len();
    if n != b.unicode_len() {
        return false;
    }
    let mut i: usize = 0;
    while i < n
        invariant
            i <= n,
            n == a@.len(),
            n == b@.len(),
            forall|j: int| 0 <= j < i ==> a@[j] == b@[j],
        decreases n - i,
    {
        if a.get_char(i) != b.get_char(i) {
            return false;
        }
        i += 1;
    }
    assert(a@ =~= b@);
    true
}

/// The text of a list of characters.
pub fn string_of(chars: &Vec<char>) -> (s: String)
    ensures
        s@ == chars@,
{
    let mut s = String::new();
    let mut i: usize = 0;
    while i < chars.len()
        invariant
            i <= chars@.len(),
            s@ == chars@.subrange(0, i as int),
        decreases chars@.len() - i,
    {
        s.push(chars[i]);
        i += 1;
    }
    assert(chars@.subrange(0, chars@.len() as int) =~= chars@);
    s
}

/// The number of whitespace characters that `s` begins with.
pub open spec fn leading_spaces(s: Seq<char>) -> nat
    decreases s.len(),
{
    if s.len() > 0 && is_space_char(s[0]) {
        1 + leading_spaces(s.drop_first())
    } else {
        0
    }
}

/// The number of whitespace characters that `s` ends with.
pub open spec fn trailing_spaces(s: Seq<char>) -> nat
    decreases s.len(),
{
    if s.len() > 0 && is_space_char(s.last()) {
        1 + trailing_spaces(s.drop_last())
    } else {
        0
    }
}

/// `s` without the whitespace it begins and ends with.
pub open spec fn trim_of(s: Seq<char>) -> Seq<char> {
    let rest = s.skip(leading_spaces(s) as int);
    rest.take(rest.len() - trailing_spaces(rest))
}

proof fn lemma_spaces_bounded(s: Seq<char>)
    ensures
        leading_spaces(s) <= s.len(),
        trailing_spaces(s) <= s.len(),
    decreases s.len(),
{
    if s.len() > 0 {
        lemma_spaces_bounded(s.drop_first());
        lemma_spaces_bounded(s.drop_last());
    }
}

/// The characters of `s` without the whitespace they begin and end with.
pub fn trim_chars(s: &Vec<char>) -> (t: Vec<char>)
    ensures
        t@ == trim_of(s@),
{
    let n = s.len();
    let mut from: usize = 0;
    assert(s@.skip(0) =~= s@);
    while from < n && is_space(s[from])
        invariant
            from <= n,
            n == s@.len(),
            leading_spaces(s@) == from + leading_spaces(s@.skip(from as int)),
        decreases n - from,
    {
        proof {
            let rest = s@.skip(from as int);
            assert(rest[0] == s@[from as int]);
            assert(rest.drop_first() =~= s@.skip(from + 1));
        }
        from += 1;
    }
    proof {
        let rest = s@.skip(from as int);
        if from < n {
            assert(rest[0] == s@[from as int]);
        }
        assert(leading_spaces(rest) == 0);
    }
    let ghost rest = s@.skip(from as int);
    let mut to: usize = n;
    assert(rest.take(rest.len() as int) =~= rest);
    while to > from && is_space(s[to - 1])
        invariant
            from <= to <= n,
            n == s@.len(),
            rest == s@.skip(from as int),
            trailing_spaces(rest) == (n - to) + trailing_spaces(rest.take(to - from)),
        decreases to,
    {
        proof {
            let upto = rest.take(to - from);
            assert(upto.last() == s@[to - 1]);
            assert(upto.drop_last() =~= rest.take(to - from - 1));
        }
        to -= 1;
    }
    proof {
        let upto = rest.take(to - from);
        if to > from {
            assert(upto.last() == s@[to - 1]);
        }
        assert(trailing_spaces(upto) == 0);
    }
    let mut t: Vec<char> = Vec::new();
    let mut i: usize = from;
    while i < to
        invariant
            from <= i <= to <= n,
            n == s@.len(),
            t@ == s@.subrange(from as int, i as int),
        decreases to - i,
    {
        t.push(s[i]);
        i += 1;
    }
    assert(t@ =~= trim_of(s@));
    t
}

impl Direction {
    /// The keyword of the direction.
    pub open spec fn keyword(self) -> Seq<char> {
        match self {
            Direction::Up => "up"@,
            Direction::Right => "right"@,
            Direction::Down => "down"@,
            Direction::Left => "left"@,
        }
    }

    /// The direction that a keyword names, if it names one.
    pub open spec fn of_keyword(s: Seq<char>) -> Option<Direction> {
        if s == "up"@ {
            Some(Direction::Up)
        } else if s == "right"@ {
            Some(Direction::Right)
        } else if s == "down"@ {
            Some(Direction::Down)
        } else if s == "left"@ {
            Some(Direction::Left)
        } else {
            None
        }
    }

    pub fn name(&self) -> (name: &'static str)
        ensures
            name@ == self.keyword(),
    {
        match self {
            Direction::Up => "up",
            Direction::Right => "right",
            Direction::Down => "down",
            Direction::Left => "left",
        }
    }

    /// Reads a direction from its keyword in lower case.
    pub fn from_keyword(s: &str) -> (r: Result<Direction, Error>)
        ensures
            r == (match Direction::of_keyword(s@) {
                Some(d) => Ok::<Direction, Error>(d),
                None => Err(Error::Parse(ParseError::Direction)),
            }),
    {
        if same_text(s, "up") {
            Ok(Direction::Up)
        } else if same_text(s, "right") {
            Ok(Direction::Right)
        } else if same_text(s, "down") {
            Ok(Direction::Down)
        } else if same_text(s, "left") {
            Ok(Direction::Left)
        } else {
            Err(Error::Parse(ParseError::Direction))
        }
    }

    /// Reads a direction from its keyword in any case.
    pub fn from_str(s: &str) -> (r: Result<Direction, Error>)
        ensures
            r == (match Direction::of_keyword(lowercase(s@)) {
                Some(d) => Ok::<Direction, Error>(d),
                None => Err(Error::Parse(ParseError::Direction)),
            }),
    {
        let lower = s.to_lowercase();
        Direction::from_keyword(lower.as_str())
    }
}


impl LineStyle {
    /// The keyword of the value.
    pub open spec fn keyword(self) -> Seq<char> {
        match self {
            LineStyle::Regular => "regular"@,
            LineStyle::Thick => "thick"@,
            LineStyle::Double => "double"@,
        }
    }

    /// The value that a keyword names, if it names one.
    pub open spec fn of_keyword(s: Seq<char>) -> Option<LineStyle> {
        if s == "regular"@ {
            Some(LineStyle::Regular)
        } else if s == "thick"@ {
            Some(LineStyle::Thick)
        } else if s == "double"@ {
            Some(LineStyle::Double)
        } else {
            None
        }
    }

    pub fn name(&self) -> (name: &'static str)
        ensures
            name@ == self.keyword(),
    {
        match self {
            LineStyle::Regular => "regular",
            LineStyle::Thick => "thick",
            LineStyle::Double => "double",
        }
    }

    /// Reads the value from its keyword in lower case.
    pub fn from_keyword(s: &str) -> (r: Result<LineStyle, Error>)
        ensures
            r == (match LineStyle::of_keyword(s@) {
                Some(v) => Ok::<LineStyle, Error>(v),
                None => Err(Error::Parse(ParseError::LineStyle)),
            }),
    {
        if same_text(s, "regular") {
            Ok(LineStyle::Regular)
        } else if same_text(s, "thick") {
            Ok(LineStyle::Thick)
        } else if same_text(s, "double") {
            Ok(LineStyle::Double)
        } else {
            Err(Error::Parse(ParseError::LineStyle))
        }
    }

    /// Reads the value from its keyword in any case.
    pub fn from_str(s: &str) -> (r: Result<LineStyle, Error>)
        ensures
            r == (match LineStyle::of_keyword(lowercase(s@)) {
                Some(v) => Ok::<LineStyle, Error>(v),
                None => Err(Error::Parse(ParseError::LineStyle)),
            }),
    {
        let lower = s.to_lowercase();
        LineStyle::from_keyword(lower.as_str())
    }
}

impl Alignment {
    /// The keyword of the value.
    pub open spec fn keyword(self) -> Seq<char> {
        match self {
            Alignment::Top => "top"@,
            Alignment::Center => "center"@,
            Alignment::Bottom => "bottom"@,
        }
    }

    /// The value that a keyword names, if it names one.
    pub open spec fn of_keyword(s: Seq<char>) -> Option<Alignment> {
        if s == "top"@ {
            Some(Alignment::Top)
        } else if s == "center"@ {
            Some(Alignment::Center)
        } else if s == "bottom"@ {
            Some(Alignment::Bottom)
        } else {
            None
        }
    }

    pub fn name(&self) -> (name: &'static str)
        ensures
            name@ == self.keyword(),
    {
        match self {
            Alignment::Top => "top",
            Alignment::Center => "center",
            Alignment::Bottom => "bottom",
        }
    }

    /// Reads the value from its keyword in lower case.
    pub fn from_keyword(s: &str) -> (r: Result<Alignment, Error>)
        ensures
            r == (match Alignment::of_keyword(s@) {
                Some(v) => Ok::<Alignment, Error>(v),
                None => Err(Error::Parse(ParseError::Alignment)),
            }),
    {
        if same_text(s, "top") {
            Ok(Alignment::Top)
        } else if same_text(s, "center") {
            Ok(Alignment::Center)
        } else if same_text(s, "bottom") {
            Ok(Alignment::Bottom)
        } else {
            Err(Error::Parse(ParseError::Alignment))
        }
    }

    /// Reads the value from its keyword in any case.
    pub fn from_str(s: &str) -> (r: Result<Alignment, Error>)
        ensures
            r == (match Alignment::of_keyword(lowercase(s@)) {
                Some(v) => Ok::<Alignment, Error>(v),
                None => Err(Error::Parse(ParseError::Alignment)),
            }),
    {
        let lower = s.to_lowercase();
        Alignment::from_keyword(lower.as_str())
    }
}

impl Justification {
    /// The keyword of the value.
    pub open spec fn keyword(self) -> Seq<char> {
        match self {
            Justification::Right => "right"@,
            Justification::Center => "center"@,
            Justification::Left => "left"@,
        }
    }

    /// The value that a keyword names, if it names one.
    pub open spec fn of_keyword(s: Seq<char>) -> Option<Justification> {
        if s == "right"@ {
            Some(Justification::Right)
        } else if s == "center"@ {
            Some(Justification::Center)
        } else if s == "left"@ {
            Some(Justification::Left)
        } else {
            None
        }
    }

    pub fn name(&self) -> (name: &'static str)
        ensures
            name@ == self.keyword(),
    {
        match self {
            Justification::Right => "right",
            Justification::Center => "center",
            Justification::Left => "left",
        }
    }

    /// Reads the value from its keyword in lower case.
    pub fn from_keyword(s: &str) -> (r: Result<Justification, Error>)
        ensures
            r == (match Justification::of_keyword(s@) {
                Some(v) => Ok::<Justification, Error>(v),
                None => Err(Error::Parse(ParseError::Justification)),
            }),
    {
        if same_text(s, "right") {
            Ok(Justification::Right)
        } else if same_text(s, "center") {
            Ok(Justification::Center)
        } else if same_text(s, "left") {
            Ok(Justification::Left)
        } else {
            Err(Error::Parse(ParseError::Justification))
        }
    }

    /// Reads the value from its keyword in any case.
    pub fn from_str(s: &str) -> (r: Result<Justification, Error>)
        ensures
            r == (match Justification::of_keyword(lowercase(s@)) {
                Some(v) => Ok::<Justification, Error>(v),
                None => Err(Error::Parse(ParseError::Justification)),
            }),
    {
        let lower = s.to_lowercase();
        Justification::from_keyword(lower.as_str())
    }
}

impl Effect {
    /// The keyword of the value.
    pub open spec fn keyword(self) -> Seq<char> {
        match self {
            Effect::Bold => "bold"@,
            Effect::Dimmed => "dimmed"@,
            Effect::Italic => "italic"@,
            Effect::Underline => "underline"@,
            Effect::Blink => "blink"@,
            Effect::BlinkFast => "blinkfast"@,
            Effect::Reversed => "reversed"@,
            Effect::Hidden => "hidden"@,
            Effect::Strikethrough => "strikethrough"@,
        }
    }

    /// The value that a keyword names, if it names one.
    pub open spec fn of_keyword(s: Seq<char>) -> Option<Effect> {
        if s == "bold"@ {
            Some(Effect::Bold)
        } else if s == "dimmed"@ {
            Some(Effect::Dimmed)
        } else if s == "italic"@ {
            Some(Effect::Italic)
        } else if s == "underline"@ {
            Some(Effect::Underline)
        } else if s == "blink"@ {
            Some(Effect::Blink)
        } else if s == "blinkfast"@ {
            Some(Effect::BlinkFast)
        } else if s == "reversed"@ {
            Some(Effect::Reversed)
        } else if s == "hidden"@ {
            Some(Effect::Hidden)
        } else if s == "strikethrough"@ {
            Some(Effect::Strikethrough)
        } else {
            None
        }
    }

    pub fn name(&self) -> (name: &'static str)
        ensures
            name@ == self.keyword(),
    {
        match self {
            Effect::Bold => "bold",
            Effect::Dimmed => "dimmed",
            Effect::Italic => "italic",
            Effect::Underline => "underline",
            Effect::Blink => "blink",
            Effect::BlinkFast => "blinkfast",
            Effect::Reversed => "reversed",
            Effect::Hidden => "hidden",
            Effect::Strikethrough => "strikethrough",
        }
    }

    /// Reads the value from its keyword in lower case.
    pub fn from_keyword(s: &str) -> (r: Result<Effect, Error>)
        ensures
            r == (match Effect::of_keyword(s@) {
                Some(v) => Ok::<Effect, Error>(v),
                None => Err(Error::Parse(ParseError::Style)),
            }),
    {
        if same_text(s, "bold") {
            Ok(Effect::Bold)
        } else if same_text(s, "dimmed") {
            Ok(Effect::Dimmed)
        } else if same_text(s, "italic") {
            Ok(Effect::Italic)
        } else if same_text(s, "underline") {
            Ok(Effect::Underline)
        } else if same_text(s, "blink") {
            Ok(Effect::Blink)
        } else if same_text(s, "blinkfast") {
            Ok(Effect::BlinkFast)
        } else if same_text(s, "reversed") {
            Ok(Effect::Reversed)
        } else if same_text(s, "hidden") {
            Ok(Effect::Hidden)
        } else if same_text(s, "strikethrough") {
            Ok(Effect::Strikethrough)
        } else {
            Err(Error::Parse(ParseError::Style))
        }
    }

    /// Reads the value from its keyword in any case.
    pub fn from_str(s: &str) -> (r: Result<Effect, Error>)
        ensures
            r == (match Effect::of_keyword(lowercase(s@)) {
                Some(v) => Ok::<Effect, Error>(v),
                None => Err(Error::Parse(ParseError::Style)),
            }),
    {
        let lower = s.to_lowercase();
        Effect::from_keyword(lower.as_str())
    }
}

impl AnsiColor {
    /// The keyword of the value.
    pub open spec fn keyword(self) -> Seq<char> {
        match self {
            AnsiColor::Black => "black"@,
            AnsiColor::Red => "red"@,
            AnsiColor::Green => "green"@,
            AnsiColor::Yellow => "yellow"@,
            AnsiColor::Blue => "blue"@,
            AnsiColor::Magenta => "magenta"@,
            AnsiColor::Cyan => "cyan"@,
            AnsiColor::White => "white"@,
            AnsiColor::Default => "default"@,
            AnsiColor::BrightBlack => "bright_black"@,
            AnsiColor::BrightRed => "bright_red"@,
            AnsiColor::BrightGreen => "bright_green"@,
            AnsiColor::BrightYellow => "bright_yellow"@,
            AnsiColor::BrightBlue => "bright_blue"@,
            AnsiColor::BrightMagenta => "bright_magenta"@,
            AnsiColor::BrightCyan => "bright_cyan"@,
            AnsiColor::BrightWhite => "bright_white"@,
        }
    }

    /// The value that a keyword names, if it names one.
    pub open spec fn of_keyword(s: Seq<char>) -> Option<AnsiColor> {
        if s == "black"@ {
            Some(AnsiColor::Black)
        } else if s == "red"@ {
            Some(AnsiColor::Red)
        } else if s == "green"@ {
            Some(AnsiColor::Green)
        } else if s == "yellow"@ {
            Some(AnsiColor::Yellow)
        } else if s == "blue"@ {
            Some(AnsiColor::Blue)
        } else if s == "magenta"@ {
            Some(AnsiColor::Magenta)
        } else if s == "cyan"@ {
            Some(AnsiColor::Cyan)
        } else if s == "white"@ {
            Some(AnsiColor::White)
        } else if s == "default"@ {
            Some(AnsiColor::Default)
        } else if s == "bright_black"@ {
            Some(AnsiColor::BrightBlack)
        } else if s == "bright_red"@ {
            Some(AnsiColor::BrightRed)
        } else if s == "bright_green"@ {
            Some(AnsiColor::BrightGreen)
        } else if s == "bright_yellow"@ {
            Some(AnsiColor::BrightYellow)
        } else if s == "bright_blue"@ {
            Some(AnsiColor::BrightBlue)
        } else if s == "bright_magenta"@ {
            Some(AnsiColor::BrightMagenta)
        } else if s == "bright_cyan"@ {
            Some(AnsiColor::BrightCyan)
        } else if s == "bright_white"@ {
            Some(AnsiColor::BrightWhite)
        } else {
            None
        }
    }

    pub fn name(&self) -> (name: &'static str)
        ensures
            name@ == self.keyword(),
    {
        match self {
            AnsiColor::Black => "black",
            AnsiColor::Red => "red",
            AnsiColor::Green => "green",
            AnsiColor::Yellow => "yellow",
            AnsiColor::Blue => "blue",
            AnsiColor::Magenta => "magenta",
            AnsiColor::Cyan => "cyan",
            AnsiColor::White => "white",
            AnsiColor::Default => "default",
            AnsiColor::BrightBlack => "bright_black",
            AnsiColor::BrightRed => "bright_red",
            AnsiColor::BrightGreen => "bright_green",
            AnsiColor::BrightYellow => "bright_yellow",
            AnsiColor::BrightBlue => "bright_blue",
            AnsiColor::BrightMagenta => "bright_magenta",
            AnsiColor::BrightCyan => "bright_cyan",
            AnsiColor::BrightWhite => "bright_white",
        }
    }

    /// Reads the value from its keyword in lower case.
    pub fn from_keyword(s: &str) -> (r: Result<AnsiColor, Error>)
        ensures
            r == (match AnsiColor::of_keyword(s@) {
                Some(v) => Ok::<AnsiColor, Error>(v),
                None => Err(Error::Parse(ParseError::Color)),
            }),
    {
        if same_text(s, "black") {
            Ok(AnsiColor::Black)
        } else if same_text(s, "red") {
            Ok(AnsiColor::Red)
        } else if same_text(s, "green") {
            Ok(AnsiColor::Green)
        } else if same_text(s, "yellow") {
            Ok(AnsiColor::Yellow)
        } else if same_text(s, "blue") {
            Ok(AnsiColor::Blue)
        } else if same_text(s, "magenta") {
            Ok(AnsiColor::Magenta)
        } else if same_text(s, "cyan") {
            Ok(AnsiColor::Cyan)
        } else if same_text(s, "white") {
            Ok(AnsiColor::White)
        } else if same_text(s, "default") {
            Ok(AnsiColor::Default)
        } else if same_text(s, "bright_black") {
            Ok(AnsiColor::BrightBlack)
        } else if same_text(s, "bright_red") {
            Ok(AnsiColor::BrightRed)
        } else if same_text(s, "bright_green") {
            Ok(AnsiColor::BrightGreen)
        } else if same_text(s, "bright_yellow") {
            Ok(AnsiColor::BrightYellow)
        } else if same_text(s, "bright_blue") {
            Ok(AnsiColor::BrightBlue)
        } else if same_text(s, "bright_magenta") {
            Ok(AnsiColor::BrightMagenta)
        } else if same_text(s, "bright_cyan") {
            Ok(AnsiColor::BrightCyan)
        } else if same_text(s, "bright_white") {
            Ok(AnsiColor::BrightWhite)
        } else {
            Err(Error::Parse(ParseError::Color))
        }
    }

    /// Reads the value from its keyword in any case.
    pub fn from_str(s: &str) -> (r: Result<AnsiColor, Error>)
        ensures
            r == (match AnsiColor::of_keyword(lowercase(s@)) {
                Some(v) => Ok::<AnsiColor, Error>(v),
                None => Err(Error::Parse(ParseError::Color)),
            }),
    {
        let lower = s.to_lowercase();
        AnsiColor::from_keyword(lower.as_str())
    }
}


/// True for the characters that begin or make up a number in a colour
/// written as a function of numbers.
pub open spec fn is_number_char(c: char) -> bool {
    ('0' <= c && c <= '9') || c == '%' || c == '.' || c == '-'
}

/// True when no character of `t` begins or makes up a number.
pub open spec fn has_no_number(t: Seq<char>) -> bool {
    forall|i: int| 0 <= i < t.len() ==> !is_number_char(#[trigger] t[i])
}

/// True when `t` holds no letter `h`, with which the name of every colour
/// space that has a hue begins.
pub open spec fn has_no_hue(t: Seq<char>) -> bool {
    forall|i: int| 0 <= i < t.len() ==> #[trigger] t[i] != 'h'
}

/// True for the colour texts in lower case that are read: a colour code,
/// which begins with `#` and is not five characters long; a text without
/// numbers, such as a colour name; and a text that names no colour space
/// with a hue.
pub open spec fn is_code_or_name(t: Seq<char>) -> bool {
    if t.len() > 0 && t[0] == '#' {
        t.len() != 5
    } else {
        has_no_number(t) || has_no_hue(t)
    }
}

fn check_no_number(t: &Vec<char>) -> (ok: bool)
    ensures
        ok == has_no_number(t@),
{
    let mut i: usize = 0;
    while i < t.len()
        invariant
            i <= t@.len(),
            forall|j: int| 0 <= j < i ==> !is_number_char(#[trigger] t@[j]),
        decreases t@.len() - i,
    {
        let c = t[i];
        if ('0' <= c && c <= '9') || c == '%' || c == '.' || c == '-' {
            assert(is_number_char(t@[i as int]));
            return false;
        }
        i += 1;
    }
    true
}

fn check_no_hue(t: &Vec<char>) -> (ok: bool)
    ensures
        ok == has_no_hue(t@),
{
    let mut i: usize = 0;
    while i < t.len()
        invariant
            i <= t@.len(),
            forall|j: int| 0 <= j < i ==> #[trigger] t@[j] != 'h',
        decreases t@.len() - i,
    {
        if t[i] == 'h' {
            return false;
        }
        i += 1;
    }
    true
}

fn check_code_or_name(t: &Vec<char>) -> (ok: bool)
    ensures
        ok == is_code_or_name(t@),
{
    if t.len() > 0 && t[0] == '#' {
        t.len() != 5
    } else {
        check_no_number(t) || check_no_hue(t)
    }
}

/// The red, green and blue parts of the colour that `color_art` reads from
/// a text, if it reads one.
pub uninterp spec fn parsed_rgb(s: Seq<char>) -> Option<(u8, u8, u8)>;

/// Reads a colour with `<color_art::Color as FromStr>::from_str` and takes
/// its parts with `Color::red`, `Color::green` and `Color::blue`. The
/// result depends on the text alone. `color_art` trims the text and puts it
/// in lower case before it reads it. It is called only for a text that is
/// then a colour code of a length that it reads, or holds no number and so
/// gives no values to convert, or holds no `h` and so names none of the
/// colour spaces whose conversion fails on a hue of 360.
#[verifier::external_body]
fn parse_rgb(s: &str) -> (rgb: Option<(u8, u8, u8)>)
    requires
        is_code_or_name(lowercase(trim_of(s@))),
    ensures
        rgb == parsed_rgb(s@),
{
    s.parse::<color_art::Color>().ok().map(|c| (c.red(), c.green(), c.blue()))
}

/// The text that `color_art` writes for a colour of the given parts: `#`
/// and the two hexadecimal digits of each part, or one digit of each where
/// the two digits of every part are the same.
pub open spec fn hex_name(r: u8, g: u8, b: u8) -> Seq<char> {
    if r / 16 == r % 16 && g / 16 == g % 16 && b / 16 == b % 16 {
        seq!['#', hex_digit_of(r as int % 16), hex_digit_of(g as int % 16), hex_digit_of(b as int % 16)]
    } else {
        seq!['#'] + hex_pair(r) + hex_pair(g) + hex_pair(b)
    }
}

/// Writes a colour with `color_art::Color::hex`: the colour is made with
/// `Color::from_rgb`, which accepts every triple of bytes, and `hex` writes
/// its parts as `#rrggbb`, shortened to `#rgb` where that loses nothing.
#[verifier::external_body]
fn rgb_hex(r: u8, g: u8, b: u8) -> (hex: String)
    ensures
        hex@ == hex_name(r, g, b),
{
    color_art::Color::from_rgb(r, g, b).map(|c| c.hex()).unwrap_or_default()
}

impl Color {
    /// The colour that a text names: a palette colour by its keyword in any
    /// case, else the colour that `color_art` reads from a colour code, a
    /// colour name, or a colour written in a colour space without a hue.
    pub open spec fn read(s: Seq<char>) -> Option<Color> {
        match AnsiColor::of_keyword(lowercase(s)) {
            Some(a) => Some(Color::Ansi(a)),
            None => if is_code_or_name(lowercase(trim_of(s))) {
                match parsed_rgb(s) {
                    Some(rgb) => Some(Color::Rgb(rgb.0, rgb.1, rgb.2)),
                    None => None,
                }
            } else {
                None
            },
        }
    }

    /// Reads a colour from a text.
    pub fn from_str(s: &str) -> (r: Result<Color, Error>)
        ensures
            r == (match Color::read(s@) {
                Some(c) => Ok::<Color, Error>(c),
                None => Err(Error::Parse(ParseError::Color)),
            }),
    {
        let lower = s.to_lowercase();
        match AnsiColor::from_keyword(lower.as_str()) {
            Ok(a) => Ok(Color::Ansi(a)),
            Err(_) => {
                let trimmed = string_of(&trim_chars(&chars_of(s)));
                let shape = chars_of(trimmed.to_lowercase().as_str());
                if check_code_or_name(&shape) {
                    match parse_rgb(s) {
                        Some(rgb) => Ok(Color::Rgb(rgb.0, rgb.1, rgb.2)),
                        None => Err(Error::Parse(ParseError::Color)),
                    }
                } else {
                    Err(Error::Parse(ParseError::Color))
                }
            },
        }
    }

    /// The text of the colour: the keyword of a palette colour, or what
    /// `color_art` writes for any other colour.
    pub open spec fn written(self) -> Seq<char> {
        match self {
            Color::Ansi(a) => a.keyword(),
            Color::Rgb(r, g, b) => hex_name(r, g, b),
        }
    }

    pub fn name(&self) -> (name: String)
        ensures
            name@ == self.written(),
    {
        match self {
            Color::Ansi(a) => a.name().to_owned(),
            Color::Rgb(r, g, b) => rgb_hex(*r, *g, *b),
        }
    }
}

/// The views of the groups of a regular expression match.
pub open spec fn group_views(groups: Option<Vec<Option<String>>>) -> Option<Seq<Option<Seq<char>>>> {
    match groups {
        Some(g) => Some(
            Seq::new(
                g@.len(),
                |i: int|
                    match g@[i] {
                        Some(s) => Some(s@),
                        None => None,
                    },
            ),
        ),
        None => None,
    }
}

/// What the capture groups of the regular expression `pattern` hold where
/// it first matches in `text`, in the order of their opening brackets and
/// the whole match first; `None` where it does not match or is no regular
/// expression.
pub uninterp spec fn regex_groups(pattern: Seq<char>, text: Seq<char>) -> Option<
    Seq<Option<Seq<char>>>,
>;

/// Compiles `pattern` with `regex::Regex::new`, searches `text` with
/// `Regex::captures`, and copies the text of each group of
/// `Captures::iter`. The result depends on the pattern and the text alone.
#[verifier::external_body]
fn regex_groups_of(pattern: &str, text: &str) -> (groups: Option<Vec<Option<String>>>)
    ensures
        group_views(groups) == regex_groups(pattern@, text@),
{
    let re = regex::Regex::new(pattern).ok()?;
    let caps = re.captures(text)?;
    Some(caps.iter().map(|m| m.map(|m| m.as_str().to_owned())).collect())
}

/// The grammar of a style: effects, then a foreground colour, then `on`
/// and a background colour, each of them optional.
pub const STYLE_PATTERN: &'static str =
    "^(?P<styles>(?:(bold|dimmed|italic|underline|blinkfast|blink|reversed|hidden|strikethrough)\\s*)*)?(?P<fg>#[\\da-f]{6}|\\w+)?(?:\\s*on\\s+(?P<bg>#[\\da-f]{6}|\\w+))?$";

/// The grammar of an arrow: a direction, then an arrow family, each of
/// them optional.
pub const ARROW_PATTERN: &'static str =
    "^(?P<direction>(?:(up|right|down|left))\\s*)?(?P<arrows>(?:(openarrow|arrow|custom))|(custom\\[(?P<customs>.{4})\\])|(custom\\[(?P<custom>.)\\])\\s*)?$";

/// The set of the effects that the words name; `None` where a word names none.
pub open spec fn effects_of(words: Seq<Seq<char>>) -> Option<Effects>
    decreases words.len(),
{
    if words.len() == 0 {
        Some(Effects::empty())
    } else {
        match (effects_of(words.drop_last()), Effect::of_keyword(words.last())) {
            (Some(set), Some(e)) => Some(set.with(e)),
            _ => None,
        }
    }
}

/// The colour that an optional text names; the unset colour for no text.
pub open spec fn color_of(text: Option<Seq<char>>) -> Option<Color> {
    match text {
        Some(t) => Color::read(t),
        None => Some(Color::Ansi(AnsiColor::Default)),
    }
}

/// The style that the groups of a match of the style grammar spell: the
/// effects in the words of group 1, the foreground colour in group 3 and
/// the background colour in group 4.
pub open spec fn style_of_groups(groups: Option<Seq<Option<Seq<char>>>>) -> Result<TextStyle, Error> {
    match groups {
        Some(g) => if g.len() < 5 {
            Err(Error::Parse(ParseError::Style))
        } else {
            let effects = match g[1] {
                Some(t) => effects_of(words_of(t)),
                None => Some(Effects::empty()),
            };
            match effects {
                None => Err(Error::Parse(ParseError::Style)),
                Some(effects) => match color_of(g[3]) {
                    None => Err(Error::Parse(ParseError::Color)),
                    Some(fg) => match color_of(g[4]) {
                        None => Err(Error::Parse(ParseError::Color)),
                        Some(bg) => Ok(TextStyle { effects, fg, bg }),
                    },
                },
            }
        },
        None => Err(Error::Parse(ParseError::Style)),
    }
}

fn read_effects(text: &String) -> (r: Option<Effects>)
    ensures
        r == effects_of(words_of(text@)),
{
    let words = split_words(&chars_of(text.as_str()));
    let mut set = Effects::none();
    let mut i: usize = 0;
    let ghost all = views(words@);
    assert(all.subrange(0, 0) =~= Seq::<Seq<char>>::empty());
    while i < words.len()
        invariant
            i <= words@.len(),
            all == views(words@),
            all == words_of(text@),
            effects_of(all.subrange(0, i as int)) == Some(set),
        decreases words@.len() - i,
    {
        proof {
            let upto = all.subrange(0, i + 1);
            assert(upto.drop_last() =~= all.subrange(0, i as int));
            assert(upto.last() == words@[i as int]@);
        }
        let word = string_of(&words[i]);
        match Effect::from_keyword(word.as_str()) {
            Ok(e) => {
                set.insert(e);
            },
            Err(_) => {
                proof {
                    assert(all[i as int] == word@);
                    lemma_effects_fail(all, i as int);
                }
                return None;
            },
        }
        i += 1;
    }
    assert(all.subrange(0, words@.len() as int) =~= all);
    Some(set)
}

/// A word that names no effect spoils the whole list.
proof fn lemma_effects_fail(words: Seq<Seq<char>>, i: int)
    requires
        0 <= i < words.len(),
        Effect::of_keyword(words[i]) is None,
    ensures
        effects_of(words) is None,
    decreases words.len(),
{
    if i < words.len() - 1 {
        assert(words.drop_last()[i] == words[i]);
        lemma_effects_fail(words.drop_last(), i);
    }
}

fn read_color(text: &Option<String>) -> (r: Option<Color>)
    ensures
        r == color_of(
            match *text {
                Some(t) => Some(t@),
                None => None,
            },
        ),
{
    match text {
        Some(t) => match Color::from_str(t.as_str()) {
            Ok(c) => Some(c),
            Err(_) => None,
        },
        None => Some(Color::Ansi(AnsiColor::Default)),
    }
}

/// The style that the groups of a match of the style grammar spell.
pub fn style_from_groups(groups: &Option<Vec<Option<String>>>) -> (r: Result<TextStyle, Error>)
    ensures
        r == style_of_groups(group_views(*groups)),
{
    match groups {
        None => Err(Error::Parse(ParseError::Style)),
        Some(g) => {
            if g.len() < 5 {
                return Err(Error::Parse(ParseError::Style));
            }
            let ghost gv = group_views(*groups)->0;
            assert(gv[1] == (match g@[1] { Some(s) => Some(s@), None => None }));
            assert(gv[3] == (match g@[3] { Some(s) => Some(s@), None => None }));
            assert(gv[4] == (match g@[4] { Some(s) => Some(s@), None => None }));
            let effects = match &g[1] {
                Some(t) => read_effects(t),
                None => Some(Effects::none()),
            };
            match effects {
                None => Err(Error::Parse(ParseError::Style)),
                Some(effects) => match read_color(&g[3]) {
                    None => Err(Error::Parse(ParseError::Color)),
                    Some(fg) => match read_color(&g[4]) {
                        None => Err(Error::Parse(ParseError::Color)),
                        Some(bg) => Ok(TextStyle { effects, fg, bg }),
                    },
                },
            }
        },
    }
}

impl TextStyle {
    /// Reads a style such as `bold red on #102030`: the text is put in
    /// lower case and trimmed, matched against the style grammar, and the
    /// groups of the match are read.
    pub fn from_str(s: &str) -> (r: Result<TextStyle, Error>)
        ensures
            r == style_of_groups(regex_groups(STYLE_PATTERN@, trim_of(lowercase(s@)))),
    {
        let lower = s.to_lowercase();
        let text = string_of(&trim_chars(&chars_of(lower.as_str())));
        let groups = regex_groups_of(STYLE_PATTERN, text.as_str());
        style_from_groups(&groups)
    }
}


impl ArrowType {
    /// The arrowhead that points in `direction`, as a text.
    pub fn render(&self, direction: &Direction) -> (out: String)
        ensures
            out@ == seq![self.head(*direction)],
    {
        let mut out = String::new();
        out.push(self.arrow_char(*direction));
        assert(out@ =~= seq![self.head(*direction)]);
        out
    }
}

/// One optional group of a match.
pub open spec fn group_text(group: Option<String>) -> Option<Seq<char>> {
    match group {
        Some(s) => Some(s@),
        None => None,
    }
}

/// The direction that a match of the arrow grammar spells in group 2; up
/// where the group is absent.
pub open spec fn direction_of_group(group: Option<Seq<char>>) -> Option<Direction> {
    match group {
        Some(t) => Direction::of_keyword(t),
        None => Some(Direction::Up),
    }
}

/// The arrow family that a match of the arrow grammar spells: filled
/// arrows where group 3 is absent or `arrow`, open arrows where it is
/// `openarrow`, and else the one character of group 8 for all directions,
/// or the four characters of group 6 for up, right, down and left.
pub open spec fn family_of_groups(
    family: Option<Seq<char>>,
    four: Option<Seq<char>>,
    one: Option<Seq<char>>,
) -> Option<ArrowType> {
    match family {
        None => Some(ArrowType::Arrow),
        Some(t) => if t == "arrow"@ {
            Some(ArrowType::Arrow)
        } else if t == "openarrow"@ {
            Some(ArrowType::OpenArrow)
        } else {
            match one {
                Some(c) => if c.len() == 1 {
                    Some(ArrowType::Custom { up: c[0], right: c[0], down: c[0], left: c[0] })
                } else {
                    None
                },
                None => match four {
                    Some(c) => if c.len() == 4 {
                        Some(ArrowType::Custom { up: c[0], right: c[1], down: c[2], left: c[3] })
                    } else {
                        None
                    },
                    None => None,
                },
            }
        },
    }
}

/// The arrowhead that the groups of a match of the arrow grammar spell.
pub open spec fn arrow_of_groups(groups: Option<Seq<Option<Seq<char>>>>) -> Result<Seq<char>, Error> {
    match groups {
        Some(g) => if g.len() < 9 {
            Err(Error::Parse(ParseError::Arrow))
        } else {
            match (direction_of_group(g[2]), family_of_groups(g[3], g[6], g[8])) {
                (Some(d), Some(a)) => Ok(seq![a.head(d)]),
                _ => Err(Error::Parse(ParseError::Arrow)),
            }
        },
        None => Err(Error::Parse(ParseError::Arrow)),
    }
}

fn read_family(family: &Option<String>, four: &Option<String>, one: &Option<String>) -> (r: Option<
    ArrowType,
>)
    ensures
        r == family_of_groups(group_text(*family), group_text(*four), group_text(*one)),
{
    match family {
        None => Some(ArrowType::Arrow),
        Some(t) => {
            if same_text(t.as_str(), "arrow") {
                Some(ArrowType::Arrow)
            } else if same_text(t.as_str(), "openarrow") {
                Some(ArrowType::OpenArrow)
            } else {
                match one {
                    Some(c) => {
                        let c = chars_of(c.as_str());
                        if c.len() == 1 {
                            Some(ArrowType::Custom { up: c[0], right: c[0], down: c[0], left: c[0] })
                        } else {
                            None
                        }
                    },
                    None => match four {
                        Some(c) => {
                            let c = chars_of(c.as_str());
                            if c.len() == 4 {
                                Some(
                                    ArrowType::Custom { up: c[0], right: c[1], down: c[2], left: c[3] },
                                )
                            } else {
                                None
                            }
                        },
                        None => None,
                    },
                }
            }
        },
    }
}

/// The arrowhead that the groups of a match of the arrow grammar spell.
pub fn arrow_from_groups(groups: &Option<Vec<Option<String>>>) -> (r: Result<String, Error>)
    ensures
        match r {
            Ok(out) => arrow_of_groups(group_views(*groups)) == Ok::<Seq<char>, Error>(out@),
            Err(e) => arrow_of_groups(group_views(*groups)) == Err::<Seq<char>, Error>(e),
        },
{
    match groups {
        None => Err(Error::Parse(ParseError::Arrow)),
        Some(g) => {
            if g.len() < 9 {
                return Err(Error::Parse(ParseError::Arrow));
            }
            let ghost gv = group_views(*groups)->0;
            assert(gv[2] == group_text(g@[2]));
            assert(gv[3] == group_text(g@[3]));
            assert(gv[6] == group_text(g@[6]));
            assert(gv[8] == group_text(g@[8]));
            let direction = match &g[2] {
                Some(t) => match Direction::from_keyword(t.as_str()) {
                    Ok(d) => Some(d),
                    Err(_) => None,
                },
                None => Some(Direction::Up),
            };
            match (direction, read_family(&g[3], &g[6], &g[8])) {
                (Some(d), Some(a)) => Ok(a.render(&d)),
                _ => Err(Error::Parse(ParseError::Arrow)),
            }
        },
    }
}

/// The arrowhead that a text such as `right openarrow` or `custom[^>v<]`
/// asks for: the text is put in lower case and trimmed, matched against
/// the arrow grammar, and the groups of the match are read.
pub fn arrow(s: &str) -> (r: Result<String, Error>)
    ensures
        match r {
            Ok(out) => arrow_of_groups(regex_groups(ARROW_PATTERN@, trim_of(lowercase(s@))))
                == Ok::<Seq<char>, Error>(out@),
            Err(e) => arrow_of_groups(regex_groups(ARROW_PATTERN@, trim_of(lowercase(s@))))
                == Err::<Seq<char>, Error>(e),
        },
{
    let lower = s.to_lowercase();
    let text = string_of(&trim_chars(&chars_of(lower.as_str())));
    let groups = regex_groups_of(ARROW_PATTERN, text.as_str());
    arrow_from_groups(&groups)
}


/// The keyword of a direction names it and no other.
pub proof fn lemma_direction_keywords(v: Direction)
    ensures
        Direction::of_keyword(v.keyword()) == Some(v),
{
    reveal_strlit("up");
    reveal_strlit("right");
    reveal_strlit("down");
    reveal_strlit("left");
    assert("up"@.len() == 2);
    assert("right"@.len() == 5);
    assert("down"@.len() == 4);
    assert("left"@.len() == 4);
    assert("down"@[0] == 'd' && "left"@[0] == 'l');
    match v {
        Direction::Up => {
            assert(Direction::of_keyword("up"@) == Some(Direction::Up));
        },
        Direction::Right => {
            assert(Direction::of_keyword("right"@) == Some(Direction::Right));
        },
        Direction::Down => {
            assert(Direction::of_keyword("down"@) == Some(Direction::Down));
        },
        Direction::Left => {
            assert(Direction::of_keyword("left"@) == Some(Direction::Left));
        },
    }
}

/// The keyword of a line style names it and no other.
pub proof fn lemma_line_style_keywords(v: LineStyle)
    ensures
        LineStyle::of_keyword(v.keyword()) == Some(v),
{
    reveal_strlit("regular");
    reveal_strlit("thick");
    reveal_strlit("double");
    assert("regular"@.len() == 7);
    assert("thick"@.len() == 5);
    assert("double"@.len() == 6);
    match v {
        LineStyle::Regular => {
            assert(LineStyle::of_keyword("regular"@) == Some(LineStyle::Regular));
        },
        LineStyle::Thick => {
            assert(LineStyle::of_keyword("thick"@) == Some(LineStyle::Thick));
        },
        LineStyle::Double => {
            assert(LineStyle::of_keyword("double"@) == Some(LineStyle::Double));
        },
    }
}

/// The keyword of an alignment names it and no other.
pub proof fn lemma_alignment_keywords(v: Alignment)
    ensures
        Alignment::of_keyword(v.keyword()) == Some(v),
{
    reveal_strlit("top");
    reveal_strlit("center");
    reveal_strlit("bottom");
    assert("top"@.len() == 3);
    assert("center"@.len() == 6);
    assert("bottom"@.len() == 6);
    assert("center"@[0] == 'c' && "bottom"@[0] == 'b');
    match v {
        Alignment::Top => {
            assert(Alignment::of_keyword("top"@) == Some(Alignment::Top));
        },
        Alignment::Center => {
            assert(Alignment::of_keyword("center"@) == Some(Alignment::Center));
        },
        Alignment::Bottom => {
            assert(Alignment::of_keyword("bottom"@) == Some(Alignment::Bottom));
        },
    }
}

/// The keyword of a justification names it and no other.
pub proof fn lemma_justification_keywords(v: Justification)
    ensures
        Justification::of_keyword(v.keyword()) == Some(v),
{
    reveal_strlit("right");
    reveal_strlit("center");
    reveal_strlit("left");
    assert("right"@.len() == 5);
    assert("center"@.len() == 6);
    assert("left"@.len() == 4);
    match v {
        Justification::Right => {
            assert(Justification::of_keyword("right"@) == Some(Justification::Right));
        },
        Justification::Center => {
            assert(Justification::of_keyword("center"@) == Some(Justification::Center));
        },
        Justification::Left => {
            assert(Justification::of_keyword("left"@) == Some(Justification::Left));
        },
    }
}

/// The keyword of an effect names it and no other.
pub proof fn lemma_effect_keywords(v: Effect)
    ensures
        Effect::of_keyword(v.keyword()) == Some(v),
{
    reveal_strlit("bold");
    reveal_strlit("dimmed");
    reveal_strlit("italic");
    reveal_strlit("underline");
    reveal_strlit("blink");
    reveal_strlit("blinkfast");
    reveal_strlit("reversed");
    reveal_strlit("hidden");
    reveal_strlit("strikethrough");
    assert("bold"@.len() == 4);
    assert("dimmed"@.len() == 6);
    assert("italic"@.len() == 6);
    assert("underline"@.len() == 9);
    assert("blink"@.len() == 5);
    assert("blinkfast"@.len() == 9);
    assert("reversed"@.len() == 8);
    assert("hidden"@.len() == 6);
    assert("strikethrough"@.len() == 13);
    assert("dimmed"@[0] == 'd' && "italic"@[0] == 'i');
    assert("dimmed"@[0] == 'd' && "hidden"@[0] == 'h');
    assert("italic"@[0] == 'i' && "hidden"@[0] == 'h');
    assert("underline"@[0] == 'u' && "blinkfast"@[0] == 'b');
    match v {
        Effect::Bold => {
            assert(Effect::of_keyword("bold"@) == Some(Effect::Bold));
        },
        Effect::Dimmed => {
            assert(Effect::of_keyword("dimmed"@) == Some(Effect::Dimmed));
        },
        Effect::Italic => {
            assert(Effect::of_keyword("italic"@) == Some(Effect::Italic));
        },
        Effect::Underline => {
            assert(Effect::of_keyword("underline"@) == Some(Effect::Underline));
        },
        Effect::Blink => {
            assert(Effect::of_keyword("blink"@) == Some(Effect::Blink));
        },
        Effect::BlinkFast => {
            assert(Effect::of_keyword("blinkfast"@) == Some(Effect::BlinkFast));
        },
        Effect::Reversed => {
            assert(Effect::of_keyword("reversed"@) == Some(Effect::Reversed));
        },
        Effect::Hidden => {
            assert(Effect::of_keyword("hidden"@) == Some(Effect::Hidden));
        },
        Effect::Strikethrough => {
            assert(Effect::of_keyword("strikethrough"@) == Some(Effect::Strikethrough));
        },
    }
}

} // verus!
