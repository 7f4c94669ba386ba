//! Style descriptors: colours and text effects, and how two descriptors combine.

use owo_colors::{DynColors, Effect as Fx, Style};
use vstd::prelude::*;
use vstd::utf8::is_ascii_chars;

verus! {

/// The sixteen ANSI palette colours, and the terminal's default colour.
#[derive(Clone, Copy, Debug, PartialEq, Eq, Structural, Hash)]
pub enum AnsiColor {
    Black,
    Red,
    Green,
    Yellow,
    Blue,
    Magenta,
    Cyan,
    White,
    Default,
    BrightBlack,
    BrightRed,
    BrightGreen,
    BrightYellow,
    BrightBlue,
    BrightMagenta,
    BrightCyan,
    BrightWhite,
}

/// A foreground or background colour.
///
/// `Ansi(Default)` stands for "no colour chosen": it yields to any other
/// colour when styles are combined, and nothing is emitted for it.
#[derive(Clone, Copy, Debug, PartialEq, Eq, Structural, Hash)]
pub enum Color {
    Ansi(AnsiColor),
    Rgb(u8, u8, u8),
}

impl Color {
    /// True for the colour that stands for "no colour chosen".
    pub open spec fn is_unset(self) -> bool {
        self == Color::Ansi(AnsiColor::Default)
    }

    /// `self` where a colour was chosen, `other` where none was.
    pub open spec fn spec_or(self, other: Color) -> Color {
        if self.is_unset() {
            other
        } else {
            self
        }
    }

    pub fn is_default(&self) -> (d: bool)
        ensures
            d == self.is_unset(),
    {
        match self {
            Color::Ansi(AnsiColor::Default) => true,
            _ => false,
        }
    }

    pub fn or(self, other: Color) -> (c: Color)
        ensures
            c == self.spec_or(other),
    {
        if self.is_default() {
            other
        } else {
            self
        }
    }
}

impl Default for Color {
    fn default() -> (c: Color)
        ensures
            c == Color::Ansi(AnsiColor::Default),
    {
        Color::Ansi(AnsiColor::Default)
    }
}

/// One text effect.
#[derive(Clone, Copy, Debug, PartialEq, Eq, Structural, Hash)]
pub enum Effect {
    Bold,
    Dimmed,
    Italic,
    Underline,
    Blink,
    BlinkFast,
    Reversed,
    Hidden,
    Strikethrough,
}

/// A set of text effects.
#[derive(Clone, Copy, Debug, PartialEq, Eq, Structural, Hash)]
pub struct Effects {
    pub bold: bool,
    pub dimmed: bool,
    pub italic: bool,
    pub underline: bool,
    pub blink: bool,
    pub blink_fast: bool,
    pub reversed: bool,
    pub hidden: bool,
    pub strikethrough: bool,
}

impl Effects {
    /// Membership of one effect.
    pub open spec fn has(self, e: Effect) -> bool {
        match e {
            Effect::Bold => self.bold,
            Effect::Dimmed => self.dimmed,
            Effect::Italic => self.italic,
            Effect::Underline => self.underline,
            Effect::Blink => self.blink,
            Effect::BlinkFast => self.blink_fast,
            Effect::Reversed => self.reversed,
            Effect::Hidden => self.hidden,
            Effect::Strikethrough => self.strikethrough,
        }
    }

    /// The empty set.
    pub open spec fn empty() -> Effects {
        Effects {
            bold: false,
            dimmed: false,
            italic: false,
            underline: false,
            blink: false,
            blink_fast: false,
            reversed: false,
            hidden: false,
            strikethrough: false,
        }
    }

    /// The set with `e` added.
    pub open spec fn with(self, e: Effect) -> Effects {
        match e {
            Effect::Bold => Effects { bold: true, ..self },
            Effect::Dimmed => Effects { dimmed: true, ..self },
            Effect::Italic => Effects { italic: true, ..self },
            Effect::Underline => Effects { underline: true, ..self },
            Effect::Blink => Effects { blink: true, ..self },
            Effect::BlinkFast => Effects { blink_fast: true, ..self },
            Effect::Reversed => Effects { reversed: true, ..self },
            Effect::Hidden => Effects { hidden: true, ..self },
            Effect::Strikethrough => Effects { strikethrough: true, ..self },
        }
    }

    /// The effects of either set.
    pub open spec fn union(self, other: Effects) -> Effects {
        Effects {
            bold: self.bold || other.bold,
            dimmed: self.dimmed || other.dimmed,
            italic: self.italic || other.italic,
            underline: self.underline || other.underline,
            blink: self.blink || other.blink,
            blink_fast: self.blink_fast || other.blink_fast,
            reversed: self.reversed || other.reversed,
            hidden: self.hidden || other.hidden,
            strikethrough: self.strikethrough || other.strikethrough,
        }
    }

    pub fn none() -> (e: Effects)
        ensures
            e == Effects::empty(),
    {
        Effects {
            bold: false,
            dimmed: false,
            italic: false,
            underline: false,
            blink: false,
            blink_fast: false,
            reversed: false,
            hidden: false,
            strikethrough: false,
        }
    }

    pub fn contains(&self, e: Effect) -> (b: bool)
        ensures
            b == self.has(e),
    {
        match e {
            Effect::Bold => self.bold,
            Effect::Dimmed => self.dimmed,
            Effect::Italic => self.italic,
            Effect::Underline => self.underline,
            Effect::Blink => self.blink,
            Effect::BlinkFast => self.blink_fast,
            Effect::Reversed => self.reversed,
            Effect::Hidden => self.hidden,
            Effect::Strikethrough => self.strikethrough,
        }
    }

    pub fn insert(&mut self, e: Effect)
        ensures
            *final(self) == old(self).with(e),
    {
        match e {
            Effect::Bold => self.bold = true,
            Effect::Dimmed => self.dimmed = true,
            Effect::Italic => self.italic = true,
            Effect::Underline => self.underline = true,
            Effect::Blink => self.blink = true,
            Effect::BlinkFast => self.blink_fast = true,
            Effect::Reversed => self.reversed = true,
            Effect::Hidden => self.hidden = true,
            Effect::Strikethrough => self.strikethrough = true,
        }
    }

    pub fn merged(self, other: Effects) -> (e: Effects)
        ensures
            e == self.union(other),
            forall|x: Effect| e.has(x) == (self.has(x) || other.has(x)),
    {
        Effects {
            bold: self.bold || other.bold,
            dimmed: self.dimmed || other.dimmed,
            italic: self.italic || other.italic,
            underline: self.underline || other.underline,
            blink: self.blink || other.blink,
            blink_fast: self.blink_fast || other.blink_fast,
            reversed: self.reversed || other.reversed,
            hidden: self.hidden || other.hidden,
            strikethrough: self.strikethrough || other.strikethrough,
        }
    }
}

/// A style descriptor: a set of effects, a foreground and a background colour.
#[derive(Clone, Copy, Debug, PartialEq, Eq, Structural, Hash)]
pub struct TextStyle {
    pub effects: Effects,
    pub fg: Color,
    pub bg: Color,
}

impl TextStyle {
    /// The style that sets nothing.
    pub open spec fn plain() -> TextStyle {
        TextStyle {
            effects: Effects::empty(),
            fg: Color::Ansi(AnsiColor::Default),
            bg: Color::Ansi(AnsiColor::Default),
        }
    }

    /// `child` laid over `parent`: the effects of both, and each colour from
    /// `child` where it chose one, from `parent` where it did not.
    pub open spec fn combined(child: TextStyle, parent: TextStyle) -> TextStyle {
        TextStyle {
            effects: parent.effects.union(child.effects),
            fg: child.fg.spec_or(parent.fg),
            bg: child.bg.spec_or(parent.bg),
        }
    }

    pub fn combine(child: TextStyle, parent: TextStyle) -> (s: TextStyle)
        ensures
            s == TextStyle::combined(child, parent),
    {
        TextStyle {
            effects: parent.effects.merged(child.effects),
            fg: child.fg.or(parent.fg),
            bg: child.bg.or(parent.bg),
        }
    }
}

impl Default for TextStyle {
    fn default() -> (s: TextStyle)
        ensures
            s == TextStyle::plain(),
    {
        TextStyle { effects: Effects::none(), fg: Color::default(), bg: Color::default() }
    }
}

impl core::ops::Add for TextStyle {
    type Output = TextStyle;

    /// `self + rhs` lays `rhs` over `self`.
    fn add(self, rhs: TextStyle) -> (s: TextStyle) {
        TextStyle::combine(rhs, self)
    }
}

impl vstd::std_specs::ops::AddSpecImpl for TextStyle {
    open spec fn obeys_add_spec() -> bool {
        true
    }

    open spec fn add_req(self, rhs: TextStyle) -> bool {
        true
    }

    open spec fn add_spec(self, rhs: TextStyle) -> TextStyle {
        TextStyle::combined(rhs, self)
    }
}

/// Combining with the plain style changes nothing, on either side.
pub proof fn lemma_plain_is_neutral(s: TextStyle)
    ensures
        TextStyle::combined(s, TextStyle::plain()) == s,
        TextStyle::combined(TextStyle::plain(), s) == s,
{
}


/// `std::string::String::push` appends one character.
pub assume_specification[ String::push ](s: &mut String, ch: char)
    ensures
        final(s)@ == old(s)@.push(ch),
;

/// The lower-case hexadecimal digit of `n`.
pub open spec fn hex_digit_of(n: int) -> char {
    if n < 10 {
        (48 + n) as char
    } else {
        (87 + n) as char
    }
}

fn hex_digit(n: u8) -> (c: char)
    requires
        n < 16,
    ensures
        c == hex_digit_of(n as int),
{
    if n < 10 {
        (48 + n) as char
    } else {
        (87 + n) as char
    }
}

/// The two lower-case hexadecimal digits of a byte.
pub open spec fn hex_pair(v: u8) -> Seq<char> {
    seq![hex_digit_of(v as int / 16), hex_digit_of(v as int % 16)]
}

impl AnsiColor {
    /// The name under which a palette colour is handed to the renderer;
    /// empty for the terminal's default colour.
    pub open spec fn palette_name(self) -> Seq<char> {
        match self {
            AnsiColor::Black => "black"@,
            AnsiColor::Red => "red"@,
            AnsiColor::Green => "green"@,
            AnsiColor::Yellow => "yellow"@,
            AnsiColor::Blue => "blue"@,
            AnsiColor::Magenta => "magenta"@,
            AnsiColor::Cyan => "cyan"@,
            AnsiColor::White => "white"@,
            AnsiColor::Default => Seq::empty(),
            AnsiColor::BrightBlack => "bright black"@,
            AnsiColor::BrightRed => "bright red"@,
            AnsiColor::BrightGreen => "bright green"@,
            AnsiColor::BrightYellow => "bright yellow"@,
            AnsiColor::BrightBlue => "bright blue"@,
            AnsiColor::BrightMagenta => "bright magenta"@,
            AnsiColor::BrightCyan => "bright cyan"@,
            AnsiColor::BrightWhite => "bright white"@,
        }
    }
}

impl Color {
    /// How a colour is handed to the renderer: a palette colour by its
    /// name, any other colour as `#` and six hexadecimal digits, and the
    /// unset colour not at all.
    pub open spec fn code(self) -> Option<Seq<char>> {
        match self {
            Color::Ansi(AnsiColor::Default) => None,
            Color::Ansi(a) => Some(a.palette_name()),
            Color::Rgb(r, g, b) => Some(seq!['#'] + hex_pair(r) + hex_pair(g) + hex_pair(b)),
        }
    }

    pub fn render_code(&self) -> (code: Option<String>)
        ensures
            match code {
                Some(c) => self.code() == Some(c@) && is_ascii_chars(c@),
                None => self.code() is None,
            },
    {
        proof {
            reveal_strlit("black");
            reveal_strlit("red");
            reveal_strlit("green");
            reveal_strlit("yellow");
            reveal_strlit("blue");
            reveal_strlit("magenta");
            reveal_strlit("cyan");
            reveal_strlit("white");
            reveal_strlit("bright black");
            reveal_strlit("bright red");
            reveal_strlit("bright green");
            reveal_strlit("bright yellow");
            reveal_strlit("bright blue");
            reveal_strlit("bright magenta");
            reveal_strlit("bright cyan");
            reveal_strlit("bright white");
        }
        match self {
            Color::Ansi(a) => {
                let name = match a {
                    AnsiColor::Black => "black",
                    AnsiColor::Red => "red",
                    AnsiColor::Green => "green",
                    AnsiColor::Yellow => "yellow",
                    AnsiColor::Blue => "blue",
                    AnsiColor::Magenta => "magenta",
                    AnsiColor::Cyan => "cyan",
                    AnsiColor::White => "white",
                    AnsiColor::Default => {
                        return None;
                    },
                    AnsiColor::BrightBlack => "bright black",
                    AnsiColor::BrightRed => "bright red",
                    AnsiColor::BrightGreen => "bright green",
                    AnsiColor::BrightYellow => "bright yellow",
                    AnsiColor::BrightBlue => "bright blue",
                    AnsiColor::BrightMagenta => "bright magenta",
                    AnsiColor::BrightCyan => "bright cyan",
                    AnsiColor::BrightWhite => "bright white",
                };
                Some(name.to_owned())
            },
            Color::Rgb(r, g, b) => {
                let mut code = String::new();
                code.push('#');
                code.push(hex_digit(*r / 16));
                code.push(hex_digit(*r % 16));
                code.push(hex_digit(*g / 16));
                code.push(hex_digit(*g % 16));
                code.push(hex_digit(*b / 16));
                code.push(hex_digit(*b % 16));
                assert(code@ =~= seq!['#'] + hex_pair(*r) + hex_pair(*g) + hex_pair(*b));
                Some(code)
            },
        }
    }
}

/// All effects, in the order of their declaration.
pub open spec fn all_effects() -> Seq<Effect> {
    seq![
        Effect::Bold,
        Effect::Dimmed,
        Effect::Italic,
        Effect::Underline,
        Effect::Blink,
        Effect::BlinkFast,
        Effect::Reversed,
        Effect::Hidden,
        Effect::Strikethrough,
    ]
}

/// Those of `candidates` that belong to `set`, in their order.
pub open spec fn chosen(candidates: Seq<Effect>, set: Effects) -> Seq<Effect>
    decreases candidates.len(),
{
    if candidates.len() == 0 {
        seq![]
    } else if set.has(candidates.last()) {
        chosen(candidates.drop_last(), set).push(candidates.last())
    } else {
        chosen(candidates.drop_last(), set)
    }
}

impl Effects {
    /// The effects of the set, in the order of their declaration.
    pub open spec fn listed(self) -> Seq<Effect> {
        chosen(all_effects(), self)
    }

    pub fn to_list(&self) -> (list: Vec<Effect>)
        ensures
            list@ == self.listed(),
            list@.len() == 0 <==> *self == Effects::empty(),
    {
        let all: [Effect; 9] = [
            Effect::Bold,
            Effect::Dimmed,
            Effect::Italic,
            Effect::Underline,
            Effect::Blink,
            Effect::BlinkFast,
            Effect::Reversed,
            Effect::Hidden,
            Effect::Strikethrough,
        ];
        assert(all@ =~= all_effects());
        let mut list: Vec<Effect> = Vec::new();
        let mut i: usize = 0;
        assert(all@.subrange(0, 0) =~= Seq::<Effect>::empty());
        while i < 9
            invariant
                i <= 9,
                all@ == all_effects(),
                list@ == chosen(all@.subrange(0, i as int), *self),
                list@.len() == 0 <==> forall|j: int| 0 <= j < i ==> !self.has(#[trigger] all@[j]),
            decreases 9 - i,
        {
            proof {
                let upto = all@.subrange(0, i + 1);
                assert(upto.drop_last() =~= all@.subrange(0, i as int));
                assert(upto.last() == all@[i as int]);
            }
            if self.contains(all[i]) {
                list.push(all[i]);
            }
            i += 1;
        }
        proof {
            assert(all@.subrange(0, 9) =~= all@);
            if *self == Effects::empty() {
                assert forall|j: int| 0 <= j < 9 implies !self.has(#[trigger] all@[j]) by {}
            } else {
                if self.bold {
                    assert(self.has(all@[0]));
                } else if self.dimmed {
                    assert(self.has(all@[1]));
                } else if self.italic {
                    assert(self.has(all@[2]));
                } else if self.underline {
                    assert(self.has(all@[3]));
                } else if self.blink {
                    assert(self.has(all@[4]));
                } else if self.blink_fast {
                    assert(self.has(all@[5]));
                } else if self.reversed {
                    assert(self.has(all@[6]));
                } else if self.hidden {
                    assert(self.has(all@[7]));
                } else {
                    assert(self.has(all@[8]));
                }
            }
        }
        list
    }
}

/// The view of an optional text.
pub open spec fn text_of(s: Option<&str>) -> Option<Seq<char>> {
    match s {
        Some(s) => Some(s@),
        None => None,
    }
}

/// What `owo_colors` writes for `text` in a style with the given effects
/// and colours: the text between the escape sequences that switch the style
/// on and off.
pub uninterp spec fn painted(
    effects: Seq<Effect>,
    fg: Option<Seq<char>>,
    bg: Option<Seq<char>>,
    text: Seq<char>,
) -> Seq<char>;

/// True when a colour text, if there is one, holds ASCII characters only.
pub open spec fn is_ascii_code(code: Option<Seq<char>>) -> bool {
    match code {
        Some(c) => is_ascii_chars(c),
        None => true,
    }
}

/// Formats `text` with an `owo_colors::Style` that has the given effects
/// (`Style::effects`), the foreground colour that `owo_colors::DynColors`
/// reads from `fg` (`Style::color`) and the background colour that it reads
/// from `bg` (`Style::on_color`); a colour that is absent, or that
/// `DynColors` cannot read, is not set. `DynColors` cuts a colour text at
/// byte offsets, so the colour texts are to be ASCII. The result depends on
/// these four values alone. A style with no effect and no colour is plain,
/// and the text formatted with a plain style is the text itself.
#[verifier::external_body]
fn paint(effects: &Vec<Effect>, fg: Option<&str>, bg: Option<&str>, text: &str) -> (out: String)
    requires
        is_ascii_code(text_of(fg)),
        is_ascii_code(text_of(bg)),
    ensures
        out@ == painted(effects@, text_of(fg), text_of(bg), text@),
        effects@.len() == 0 && fg is None && bg is None ==> out@ == text@,
{
    let fx: Vec<Fx> = effects.iter().map(|e| match e {
        Effect::Bold => Fx::Bold, Effect::Dimmed => Fx::Dimmed, Effect::Italic => Fx::Italic,
        Effect::Underline => Fx::Underline, Effect::Blink => Fx::Blink,
        Effect::BlinkFast => Fx::BlinkFast, Effect::Reversed => Fx::Reversed,
        Effect::Hidden => Fx::Hidden, Effect::Strikethrough => Fx::Strikethrough
    }).collect();
    let read = |c: &str| c.parse::<DynColors>().ok();
    let style = Style::new().effects(&fx);
    let style = fg.and_then(read).map_or(style, |c| style.color(c));
    let style = bg.and_then(read).map_or(style, |c| style.on_color(c));
    style.style(text).to_string()
}

impl TextStyle {
    /// `text` as the style renders it: the text itself in the plain style,
    /// and else what the renderer writes for it.
    pub open spec fn rendered(self, text: Seq<char>) -> Seq<char> {
        if self == TextStyle::plain() {
            text
        } else {
            painted(self.effects.listed(), self.fg.code(), self.bg.code(), text)
        }
    }

    /// Renders `text` in this style.
    pub fn render(&self, text: &str) -> (out: String)
        ensures
            out@ == self.rendered(text@),
    {
        let effects = self.effects.to_list();
        let fg = self.fg.render_code();
        let bg = self.bg.render_code();
        let fg = match &fg {
            Some(code) => Some(code.as_str()),
            None => None,
        };
        let bg = match &bg {
            Some(code) => Some(code.as_str()),
            None => None,
        };
        paint(&effects, fg, bg, text)
    }
}

} // verus!

