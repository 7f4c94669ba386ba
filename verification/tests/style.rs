use textdraw::error::{Error, ParseError};
use textdraw::glyph::{ArrowType, Direction, LineStyle};
use textdraw::layout::{Alignment, Justification};
use textdraw::parse::{arrow, same_text, string_of, trim_chars};
use textdraw::style::{AnsiColor, Color, Effect, Effects, TextStyle};

fn style(effects: &[Effect], fg: Color, bg: Color) -> TextStyle {
    let mut set = Effects::none();
    for e in effects {
        set.insert(*e);
    }
    TextStyle { effects: set, fg, bg }
}

#[test]
fn plain_style_renders_the_text_itself() {
    assert_eq!(TextStyle::default().render("hello"), "hello");
}

#[test]
fn colours_and_effects_render_as_escape_codes() {
    let s = style(&[], Color::Ansi(AnsiColor::Red), Color::default());
    assert_eq!(s.render("X"), "\u{1b}[31mX\u{1b}[0m");
    let s = style(&[Effect::Bold], Color::Ansi(AnsiColor::Red), Color::Ansi(AnsiColor::Blue));
    assert_eq!(s.render("X"), "\u{1b}[31;44;1mX\u{1b}[0m");
    let s = style(&[Effect::Strikethrough, Effect::Underline], Color::default(), Color::default());
    assert_eq!(s.render("TEST"), "\u{1b}[4;9mTEST\u{1b}[0m");
    let s = style(&[], Color::Rgb(255, 255, 255), Color::Rgb(0, 0, 16));
    assert_eq!(s.render("TEST"), "\u{1b}[38;2;255;255;255;48;2;0;0;16mTEST\u{1b}[0m");
    let s = style(&[], Color::Ansi(AnsiColor::BrightWhite), Color::Ansi(AnsiColor::BrightBlack));
    assert_eq!(s.render("X"), "\u{1b}[97;100mX\u{1b}[0m");
}

#[test]
fn combining_lets_the_child_win() {
    let child = style(&[Effect::Bold], Color::Ansi(AnsiColor::Red), Color::default());
    let parent = style(&[Effect::Italic], Color::Ansi(AnsiColor::Blue), Color::Ansi(AnsiColor::White));
    let both = TextStyle::combine(child, parent);
    assert_eq!(
        both,
        style(&[Effect::Bold, Effect::Italic], Color::Ansi(AnsiColor::Red), Color::Ansi(AnsiColor::White))
    );
    assert_eq!(parent + child, both);
    assert_eq!(TextStyle::combine(child, TextStyle::default()), child);
    assert!(Color::default().is_default());
    assert_eq!(Color::default().or(Color::Rgb(1, 2, 3)), Color::Rgb(1, 2, 3));
    assert_eq!(Color::Rgb(1, 2, 3).or(Color::Ansi(AnsiColor::Red)), Color::Rgb(1, 2, 3));
}

#[test]
fn styles_are_read_from_text() {
    assert_eq!(TextStyle::from_str(""), Ok(TextStyle::default()));
    assert_eq!(
        TextStyle::from_str("bold red on blue"),
        Ok(style(&[Effect::Bold], Color::Ansi(AnsiColor::Red), Color::Ansi(AnsiColor::Blue)))
    );
    assert_eq!(
        TextStyle::from_str("  Bold ITALIC  "),
        Ok(style(&[Effect::Bold, Effect::Italic], Color::default(), Color::default()))
    );
    assert_eq!(
        TextStyle::from_str("blinkfast underline #ff0080 on bright_black"),
        Ok(style(
            &[Effect::BlinkFast, Effect::Underline],
            Color::Rgb(255, 0, 128),
            Color::Ansi(AnsiColor::BrightBlack)
        ))
    );
    assert_eq!(
        TextStyle::from_str("on green"),
        Ok(style(&[], Color::default(), Color::Ansi(AnsiColor::Green)))
    );
    assert_eq!(
        TextStyle::from_str("deeppink"),
        Ok(style(&[], Color::Rgb(255, 20, 147), Color::default()))
    );
}

#[test]
fn malformed_styles_are_rejected() {
    assert_eq!(TextStyle::from_str("red on"), Err(Error::Parse(ParseError::Style)));
    assert_eq!(TextStyle::from_str("red, blue"), Err(Error::Parse(ParseError::Style)));
    assert_eq!(TextStyle::from_str("notacolor"), Err(Error::Parse(ParseError::Color)));
    assert_eq!(TextStyle::from_str("red on notacolor"), Err(Error::Parse(ParseError::Color)));
    assert_eq!(TextStyle::from_str("bolditalic"), Err(Error::Parse(ParseError::Style)));
    assert_eq!(TextStyle::from_str("hsl360_1_1"), Err(Error::Parse(ParseError::Color)));
    assert_eq!(Error::Parse(ParseError::Style).message(), "Failed to parse style string");
}

#[test]
fn colours_are_read_and_written() {
    assert_eq!(Color::from_str("Red"), Ok(Color::Ansi(AnsiColor::Red)));
    assert_eq!(Color::from_str("default"), Ok(Color::Ansi(AnsiColor::Default)));
    assert_eq!(Color::from_str("bright_cyan"), Ok(Color::Ansi(AnsiColor::BrightCyan)));
    assert_eq!(Color::from_str("#00ff7f"), Ok(Color::Rgb(0, 255, 127)));
    assert_eq!(Color::from_str("#0f0"), Ok(Color::Rgb(0, 255, 0)));
    assert_eq!(Color::from_str("#0f08"), Err(Error::Parse(ParseError::Color)));
    assert_eq!(Color::from_str("#0f0g00"), Err(Error::Parse(ParseError::Color)));
    assert_eq!(Color::from_str("hsl(360, 1, 1)"), Err(Error::Parse(ParseError::Color)));
    assert_eq!(Color::from_str("maroon2"), Ok(Color::Rgb(127, 0, 0)));
    assert_eq!(Color::from_str("purple3"), Ok(Color::Rgb(160, 32, 240)));
    assert_eq!(Color::from_str("rgb(255, 0, 10)"), Ok(Color::Rgb(255, 0, 10)));
    assert_eq!(Color::from_str("RGB(256, 0, 10)"), Err(Error::Parse(ParseError::Color)));
    assert_eq!(Color::from_str("orchid1"), Err(Error::Parse(ParseError::Color)));
    assert_eq!(Color::Ansi(AnsiColor::BrightRed).name(), "bright_red");
    assert_eq!(Color::Rgb(255, 0, 255).name(), "#f0f");
    assert_eq!(Color::Rgb(18, 52, 86).name(), "#123456");
    assert_eq!(Color::Rgb(18, 52, 86).render_code(), Some("#123456".to_string()));
    assert_eq!(Color::Rgb(0, 10, 255).render_code(), Some("#000aff".to_string()));
    assert_eq!(Color::Ansi(AnsiColor::BrightRed).render_code(), Some("bright red".to_string()));
    assert_eq!(Color::default().render_code(), None);
}

#[test]
fn keywords_are_read_in_any_case() {
    assert_eq!(Direction::from_str("UP"), Ok(Direction::Up));
    assert_eq!(Direction::from_str("left"), Ok(Direction::Left));
    assert_eq!(Direction::from_str("north"), Err(Error::Parse(ParseError::Direction)));
    assert_eq!(LineStyle::from_str("Thick"), Ok(LineStyle::Thick));
    assert_eq!(LineStyle::from_str("dotted"), Err(Error::Parse(ParseError::LineStyle)));
    assert_eq!(Alignment::from_str("Center"), Ok(Alignment::Center));
    assert_eq!(Alignment::from_str("middle"), Err(Error::Parse(ParseError::Alignment)));
    assert_eq!(Justification::from_str("RIGHT"), Ok(Justification::Right));
    assert_eq!(Justification::from_str("top"), Err(Error::Parse(ParseError::Justification)));
    for d in [Direction::Up, Direction::Right, Direction::Down, Direction::Left] {
        assert_eq!(Direction::from_keyword(d.name()), Ok(d));
    }
    for s in [LineStyle::Regular, LineStyle::Thick, LineStyle::Double] {
        assert_eq!(LineStyle::from_keyword(s.name()), Ok(s));
    }
    for a in [Alignment::Top, Alignment::Center, Alignment::Bottom] {
        assert_eq!(Alignment::from_keyword(a.name()), Ok(a));
    }
    for j in [Justification::Right, Justification::Center, Justification::Left] {
        assert_eq!(Justification::from_keyword(j.name()), Ok(j));
    }
}

#[test]
fn arrows_are_looked_up() {
    assert_eq!(arrow(""), Ok("▲".to_string()));
    assert_eq!(arrow("right"), Ok("▶".to_string()));
    assert_eq!(arrow("down arrow"), Ok("▼".to_string()));
    assert_eq!(arrow("Left OpenArrow"), Ok("◁".to_string()));
    assert_eq!(arrow("openarrow"), Ok("△".to_string()));
    assert_eq!(arrow("rightcustom[*]"), Ok("*".to_string()));
    assert_eq!(arrow("down custom[abcd]"), Ok("c".to_string()));
    assert_eq!(arrow("custom[abcd]"), Ok("a".to_string()));
    assert_eq!(arrow("custom"), Err(Error::Parse(ParseError::Arrow)));
    assert_eq!(arrow("sideways"), Err(Error::Parse(ParseError::Arrow)));
    assert_eq!(ArrowType::default().render(&Direction::Left), "◀");
    let custom = ArrowType::Custom { up: 'u', right: 'r', down: 'd', left: 'l' };
    assert_eq!(custom.arrow_char(Direction::Down), 'd');
}

#[test]
fn text_helpers_agree_with_the_standard_library() {
    for sample in ["  padded\t", "\u{a0}x y\u{3000}", "", "   ", "plain"] {
        let chars: Vec<char> = sample.chars().collect();
        assert_eq!(string_of(&trim_chars(&chars)), sample.trim());
    }
    assert!(same_text("abc", "abc"));
    assert!(!same_text("abc", "abd"));
    assert!(!same_text("abc", "ab"));
}
