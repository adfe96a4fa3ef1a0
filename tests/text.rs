use std::borrow::Cow;
use tui_text::{Color, Fragment, Line, Style, Text};

fn blue() -> Style {
    Style::default().fg(Color::LightBlue)
}

#[test]
fn fragment_width_ascii() {
    assert_eq!(Fragment::from("ab").width(), 2);
}

#[test]
fn fragment_width_wide_characters() {
    assert_eq!(Fragment::from("你好").width(), 4);
}

#[test]
fn fragment_width_empty() {
    assert_eq!(Fragment::from("").width(), 0);
    assert_eq!(Fragment::from(String::new()).width(), 0);
}

#[test]
fn fragment_width_combining_mark_is_zero() {
    assert_eq!(Fragment::from("e\u{301}").width(), 1);
}

#[test]
fn fragment_width_control_character_is_zero() {
    assert_eq!(Fragment::from("a\tb\u{7}").width(), 2);
}

#[test]
fn fragment_width_fullwidth_latin() {
    assert_eq!(Fragment::from("Ｈｅｌｌｏ").width(), 10);
}

#[test]
fn fragment_width_mixed() {
    assert_eq!(Fragment::from("a你b").width(), 4);
}

#[test]
fn fragment_checked_width() {
    assert_eq!(Fragment::from("你好a").checked_width(), Some(5));
    assert_eq!(Fragment::from("").checked_width(), Some(0));
}

#[test]
fn line_width_is_sum_of_fragments() {
    let line = Line::with_fragments(vec![
        Fragment::from("ab"),
        Fragment::styled("你好", blue()),
        Fragment::from(String::from("xyz")),
    ]);
    assert_eq!(line.width(), 2 + 4 + 3);
    assert_eq!(line.checked_width(), Some(9));
}

#[test]
fn line_empty_has_width_zero() {
    assert_eq!(Line::default().width(), 0);
    assert_eq!(Line::with_fragments(Vec::new()).width(), 0);
    assert_eq!(Line::default().fragments().len(), 0);
}

#[test]
fn line_fragments_keep_order() {
    let line = Line::from(vec![Fragment::from("a"), Fragment::styled("b", blue())]);
    let fragments = line.fragments();
    assert_eq!(fragments.len(), 2);
    assert_eq!(fragments[0].as_str(), "a");
    assert_eq!(fragments[1].as_str(), "b");
    assert_eq!(fragments[1].style(), blue());
    assert_eq!(fragments[0].style(), Style::default());
}

#[test]
fn line_from_single_fragment() {
    let line = Line::from(Fragment::styled("Title", blue()));
    assert_eq!(line.width(), 5);
    assert_eq!(line.fragments().len(), 1);
    assert_eq!(line.fragments()[0].style(), blue());
}

#[test]
fn line_plain_text_round_trip() {
    let line = Line::from("hello");
    assert_eq!(String::from(line), "hello");
    let owned = Line::from(String::from("hello"));
    assert_eq!(String::from(owned), "hello");
}

#[test]
fn line_plain_text_concatenates_and_drops_styles() {
    let line = Line::with_fragments(vec![
        Fragment::from("ab"),
        Fragment::styled(String::from("你"), blue()),
        Fragment::from(""),
        Fragment::styled("c", Style::default().bg(Color::Red)),
    ]);
    assert_eq!(String::from(line), "ab你c");
    assert_eq!(String::from(Line::default()), "");
}

#[test]
fn block_width_is_widest_line() {
    let block = Text::with_lines(vec![Line::from("ab"), Line::from("你好")]);
    assert_eq!(block.width(), 4);
    assert_eq!(block.checked_width(), Some(4));
}

#[test]
fn block_width_widest_line_first() {
    let block = Text::from(vec![Line::from("abcdef"), Line::from("x"), Line::default()]);
    assert_eq!(block.width(), 6);
}

#[test]
fn block_empty_has_width_zero() {
    assert_eq!(Text::default().width(), 0);
    assert_eq!(Text::with_lines(Vec::new()).width(), 0);
    assert_eq!(Text::default().checked_width(), Some(0));
}

#[test]
fn unstyled_fragment_has_default_style() {
    assert_eq!(Fragment::from("x").style(), Style::default());
    assert_eq!(Fragment::from(String::from("x")).style(), Style::default());
    let neutral = Style::default();
    assert_eq!(neutral.fg, Color::Reset);
    assert_eq!(neutral.bg, Color::Reset);
    assert_eq!(neutral.modifier, 0);
}

#[test]
fn styled_fragment_keeps_style_across_calls() {
    let style = blue().bg(Color::Black).modifier(1);
    let fragment = Fragment::styled("Title", style);
    for _ in 0..3 {
        assert_eq!(fragment.width(), 5);
        assert_eq!(fragment.as_str(), "Title");
        assert_eq!(fragment.as_ref(), "Title");
        assert_eq!(fragment.style(), style);
    }
}

#[test]
fn borrowed_and_owned_fragments_agree() {
    let text = String::from("a你\u{301}b");
    let borrowed = Fragment::from(text.as_str());
    let owned = Fragment::from(text.clone());
    assert_eq!(borrowed.width(), owned.width());
    assert_eq!(borrowed.width(), 4);
    assert_eq!(borrowed.as_str(), owned.as_str());
    assert_eq!(borrowed.style(), owned.style());
    let styled_borrowed = Fragment::styled(text.as_str(), blue());
    let styled_owned = Fragment::styled(text.clone(), blue());
    assert_eq!(styled_borrowed.width(), styled_owned.width());
    assert_eq!(styled_borrowed.as_str(), styled_owned.as_str());
    assert!(matches!(borrowed, Fragment::Raw(Cow::Borrowed(_))));
    assert!(matches!(owned, Fragment::Raw(Cow::Owned(_))));
}

#[test]
fn styled_from_cow() {
    let fragment = Fragment::styled(Cow::Borrowed("xy"), blue());
    assert_eq!(fragment.width(), 2);
    assert_eq!(fragment, Fragment::Styled(Cow::Borrowed("xy"), blue()));
}

#[test]
fn title_widths_end_to_end() {
    assert_eq!(Fragment::styled("Title", Style::default().fg(Color::Blue)).width(), 5);
    assert_eq!(Line::from("Title").width(), 5);
    assert_eq!(Text::with_lines(vec![Line::from("Title"), Line::from("x")]).width(), 5);
}

#[test]
fn clone_keeps_fragment() {
    let fragment = Fragment::styled(String::from("abc"), blue());
    let copy = fragment.clone();
    assert_eq!(copy, fragment);
    let raw = Fragment::from("q");
    assert_eq!(raw.clone(), raw);
}

#[test]
fn style_builders_set_fields() {
    let style = Style::default().fg(Color::Rgb(1, 2, 3)).bg(Color::Indexed(7)).modifier(5);
    assert_eq!(style.fg, Color::Rgb(1, 2, 3));
    assert_eq!(style.bg, Color::Indexed(7));
    assert_eq!(style.modifier, 5);
}
