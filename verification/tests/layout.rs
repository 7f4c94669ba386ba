use textdraw::layout::{break_lines, layout_rows, Alignment, Justification};
use textdraw::text::{split_lines, split_words};

fn chars(s: &str) -> Vec<char> {
    s.chars().collect()
}

fn text(row: &Vec<Option<char>>) -> String {
    row.iter().map(|c| c.unwrap_or(' ')).collect()
}

fn rows(
    s: &str,
    width: Option<usize>,
    height: Option<usize>,
    justify: Justification,
    align: Alignment,
    marker: &str,
) -> Vec<String> {
    let mut rows: Vec<String> =
        layout_rows(&chars(s), width, height, justify, align, &chars(marker)).iter().map(text).collect();
    rows.reverse();
    rows
}

#[test]
fn long_word_is_truncated_with_marker() {
    let r = rows("abcdef", Some(3), None, Justification::Left, Alignment::Top, "…");
    assert_eq!(r, vec!["ab…".to_string()]);
}

#[test]
fn long_word_is_cut_hard_without_marker() {
    let r = rows("abcdef", Some(3), None, Justification::Left, Alignment::Top, "");
    assert_eq!(r, vec!["abc".to_string()]);
    let r = rows("abcdef", Some(2), None, Justification::Left, Alignment::Top, "...");
    assert_eq!(r, vec!["ab".to_string()]);
}

#[test]
fn words_wrap_and_pad_to_width() {
    let r = rows("ab cd", Some(4), None, Justification::Left, Alignment::Top, "");
    assert_eq!(r, vec!["ab  ".to_string(), "cd  ".to_string()]);
}

#[test]
fn words_share_a_line_while_they_fit() {
    let r = rows("ab cd ef", Some(5), None, Justification::Left, Alignment::Top, "");
    assert_eq!(r, vec!["ab cd".to_string(), "ef   ".to_string()]);
}

#[test]
fn justification_places_the_blanks() {
    let r = rows("ab", Some(5), None, Justification::Right, Alignment::Top, "");
    assert_eq!(r, vec!["   ab".to_string()]);
    let r = rows("ab", Some(5), None, Justification::Center, Alignment::Top, "");
    assert_eq!(r, vec![" ab  ".to_string()]);
    let r = rows("ab", Some(5), None, Justification::Left, Alignment::Top, "");
    assert_eq!(r, vec!["ab   ".to_string()]);
}

#[test]
fn alignment_places_the_blank_rows() {
    let r = rows("a", Some(1), Some(4), Justification::Left, Alignment::Top, "");
    assert_eq!(r, vec!["a", " ", " ", " "]);
    let r = rows("a", Some(1), Some(4), Justification::Left, Alignment::Bottom, "");
    assert_eq!(r, vec![" ", " ", " ", "a"]);
    let r = rows("a", Some(1), Some(4), Justification::Left, Alignment::Center, "");
    assert_eq!(r, vec![" ", "a", " ", " "]);
}

#[test]
fn lines_beyond_the_height_are_dropped() {
    let r = rows("a\nb\nc", None, Some(2), Justification::Left, Alignment::Top, "");
    assert_eq!(r, vec!["a", "b"]);
}

#[test]
fn width_defaults_to_the_longest_line() {
    let r = rows("a\nbcd\nef", None, None, Justification::Left, Alignment::Top, "");
    assert_eq!(r, vec!["a  ", "bcd", "ef "]);
}

#[test]
fn empty_text_is_one_empty_row() {
    let r = rows("", None, None, Justification::Left, Alignment::Top, "");
    assert_eq!(r, vec![""]);
}

#[test]
fn blank_lines_are_kept_when_wrapping() {
    let lines = break_lines(&chars("ab\n\ncd"), Some(10));
    assert_eq!(lines, vec![chars("ab"), chars(""), chars("cd")]);
}

#[test]
fn lines_split_like_text_lines() {
    assert_eq!(split_lines(&chars("a\r\nb\nc\r")), vec![chars("a"), chars("b"), chars("c\r")]);
    assert_eq!(split_lines(&chars("a\n")), vec![chars("a")]);
    assert_eq!(split_lines(&chars("\n")), vec![chars("")]);
    assert_eq!(split_lines(&chars("")), Vec::<Vec<char>>::new());
    for sample in ["one\ntwo\r\nthree", "\n\nx\n", "a\rb\n\r\n"] {
        let expected: Vec<Vec<char>> = sample.lines().map(chars).collect();
        assert_eq!(split_lines(&chars(sample)), expected);
    }
}

#[test]
fn words_split_at_whitespace() {
    assert_eq!(split_words(&chars("  ab \t cd\u{2003}e ")), vec![chars("ab"), chars("cd"), chars("e")]);
    for sample in ["the quick  brown\tfox", "   ", "x"] {
        let expected: Vec<Vec<char>> = sample.split_whitespace().map(chars).collect();
        assert_eq!(split_words(&chars(sample)), expected);
    }
}

#[test]
fn whitespace_is_the_unicode_property() {
    for code in 0u32..0x3100 {
        if let Some(c) = char::from_u32(code) {
            assert_eq!(textdraw::text::is_space(c), c.is_whitespace());
        }
    }
}
