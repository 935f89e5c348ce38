use bevy_inquire::style::{Color, StyleSheet, Styled};
use bevy_inquire::writer::{CursorPos, StyledStringWriter};

fn lines(v: &[(usize, Vec<Styled>)]) -> Vec<(usize, Vec<String>)> {
    v.iter().map(|(k, g)| (*k, g.iter().map(|s| s.content.clone()).collect())).collect()
}

fn s(x: &str) -> String {
    x.to_string()
}

#[test]
fn text_is_grouped_by_line() {
    let mut w = StyledStringWriter::new();
    w.write_str("line1\nline2");
    let r = w.render(Color::DarkWhite);
    assert_eq!(lines(&r), vec![(0, vec![s("line1\n")]), (1, vec![s("line2")])]);
    assert!(w.strings.is_empty());
}

#[test]
fn trailing_line_break_adds_no_empty_piece() {
    let mut w = StyledStringWriter::new();
    w.write_str("a\n\nb\n");
    let r = w.render(Color::DarkWhite);
    assert_eq!(lines(&r), vec![(0, vec![s("a\n")]), (1, vec![s("\n")]), (2, vec![s("b\n")])]);
}

#[test]
fn runs_of_one_line_share_a_group() {
    let mut w = StyledStringWriter::new();
    w.write_str("a");
    w.set_style(StyleSheet::empty().with_fg(Color::DarkRed));
    w.write_str("b\nc");
    w.set_style(StyleSheet::empty());
    w.write_str("d");
    let r = w.render(Color::DarkWhite);
    assert_eq!(lines(&r), vec![(0, vec![s("a"), s("b\n")]), (1, vec![s("c"), s("d")])]);
}

#[test]
fn hidden_cursor_passes_runs_through() {
    let mut w = StyledStringWriter::new();
    w.write_str("ab");
    w.set_style(StyleSheet::empty().with_fg(Color::DarkRed));
    w.write_str("cd");
    let r = w.render(Color::DarkWhite);
    let flat: Vec<String> = r.iter().flat_map(|(_, g)| g.iter().map(|x| x.content.clone())).collect();
    assert_eq!(flat, vec![s("ab"), s("cd")]);
    assert_eq!(r[0].1[1].style.fg, Some(Color::DarkRed));
    assert_eq!(w.cursor_pos, None);
}

#[test]
fn visible_cursor_is_drawn_before_line_grouping() {
    let mut w = StyledStringWriter::new();
    w.write_str("ab\ncd");
    w.state.cursor_visible = true;
    w.set_cursor_pos(CursorPos { index: 0, len: 4 });
    let r = w.render(Color::DarkWhite);
    assert_eq!(lines(&r), vec![(0, vec![s("ab\n")]), (1, vec![s("c"), s("d")])]);
    assert_eq!(r[1].1[1].style.bg, Some(Color::DarkWhite));
}

#[test]
fn cursor_on_a_line_break_ends_the_line() {
    let mut w = StyledStringWriter::new();
    w.write_str("ab\ncd");
    w.state.cursor_visible = true;
    w.set_cursor_pos(CursorPos { index: 0, len: 2 });
    let r = w.render(Color::DarkWhite);
    assert_eq!(lines(&r), vec![(0, vec![s("ab"), s("\n")]), (1, vec![s("cd")])]);
}

#[test]
fn default_cursor_at_end_when_visible() {
    let mut w = StyledStringWriter::new();
    w.write_str("ab");
    w.state.cursor_visible = true;
    let r = w.render(Color::DarkWhite);
    assert_eq!(lines(&r), vec![(0, vec![s("ab"), s(" ")])]);
    assert_eq!(w.cursor_pos, Some(CursorPos { index: 0, len: 2 }));
}

#[test]
fn empty_buffer_renders_nothing_without_cursor() {
    let mut w = StyledStringWriter::new();
    let r = w.render(Color::DarkWhite);
    assert!(r.is_empty());
}
