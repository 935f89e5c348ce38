use bevy_inquire::style::{from_color, Color, StyleSheet, Styled};
use bevy_inquire::writer::{CursorPos, StyledStringWriter, WriteError};

fn red() -> StyleSheet {
    StyleSheet::empty().with_fg(Color::DarkRed)
}

fn texts(v: &[Styled]) -> Vec<String> {
    v.iter().map(|s| s.content.clone()).collect()
}

#[test]
fn equal_styles_merge_into_one_run() {
    let mut w = StyledStringWriter::new();
    w.write_str("ab");
    w.write_str("cd");
    assert_eq!(w.strings.len(), 1);
    assert_eq!(w.strings[0].content, "abcd");
}

#[test]
fn neighbouring_runs_never_share_a_style() {
    let mut w = StyledStringWriter::new();
    w.write_str("a");
    w.set_style(red());
    w.write_str("b");
    w.write_str("c");
    w.set_style(StyleSheet::empty());
    w.write_str("d");
    w.set_style(StyleSheet::empty());
    w.write_str("e");
    assert_eq!(texts(&w.strings), vec!["a", "bc", "de"]);
    for i in 0..w.strings.len() - 1 {
        assert_ne!(w.strings[i].style, w.strings[i + 1].style);
    }
}

#[test]
fn runs_rejoin_to_the_written_text() {
    let mut w = StyledStringWriter::new();
    let parts = ["he", "llo", " ", "wor", "ld"];
    for (i, p) in parts.iter().enumerate() {
        if i % 2 == 0 {
            w.set_style(red());
        } else {
            w.set_style(StyleSheet::empty());
        }
        w.write_str(p);
    }
    let all: String = w.strings.iter().map(|s| s.content.as_str()).collect();
    assert_eq!(all, "hello world");
}

#[test]
fn bytes_are_decoded_as_utf8() {
    let mut w = StyledStringWriter::new();
    assert_eq!(w.write("a▣".as_bytes()), Ok(4));
    assert_eq!(w.strings[0].content, "a▣");
}

#[test]
fn malformed_bytes_are_refused() {
    let mut w = StyledStringWriter::new();
    w.write_str("x");
    assert_eq!(w.write(&[0x61, 0xff, 0x62]), Err(WriteError::InvalidEncoding));
    assert_eq!(texts(&w.strings), vec!["x"]);
}

#[test]
fn cursor_splits_a_run_in_three() {
    let mut w = StyledStringWriter::new();
    w.write_str("abc");
    w.set_cursor_pos(CursorPos { index: 0, len: 1 });
    let v = w.drain_with_styled_cursor(Color::DarkWhite);
    assert_eq!(texts(&v), vec!["a", "b", "c"]);
    assert_ne!(v[1].style, v[0].style);
    assert_ne!(v[1].style, v[2].style);
    assert_eq!(v[0].style, v[2].style);
    assert_eq!(v[1].style.bg, Some(Color::DarkWhite));
    assert!(w.strings.is_empty());
}

#[test]
fn cursor_at_end_of_text_sits_on_a_space() {
    let mut w = StyledStringWriter::new();
    w.write_str("ab");
    w.set_cursor_pos(CursorPos { index: 0, len: 2 });
    let v = w.drain_with_styled_cursor(Color::DarkWhite);
    assert_eq!(texts(&v), vec!["ab", " "]);
    assert_eq!(v[1].style.bg, Some(Color::DarkWhite));
}

#[test]
fn cursor_on_last_character_leaves_no_right_run() {
    let mut w = StyledStringWriter::new();
    w.write_str("ab");
    w.set_cursor_pos(CursorPos { index: 0, len: 1 });
    let v = w.drain_with_styled_cursor(Color::DarkWhite);
    assert_eq!(texts(&v), vec!["a", "b"]);
}

#[test]
fn cursor_at_start_leaves_an_empty_left_run() {
    let mut w = StyledStringWriter::new();
    w.write_str("abc");
    w.set_cursor_pos(CursorPos { index: 0, len: 0 });
    let v = w.drain_with_styled_cursor(Color::DarkWhite);
    assert_eq!(texts(&v), vec!["", "a", "bc"]);
}

#[test]
fn cursor_never_splits_a_multibyte_character() {
    let mut w = StyledStringWriter::new();
    w.write_str("a▣b");
    w.set_cursor_pos(CursorPos { index: 0, len: 1 });
    let v = w.drain_with_styled_cursor(Color::DarkWhite);
    assert_eq!(texts(&v), vec!["a", "▣", "b"]);
}

#[test]
fn default_cursor_is_end_of_last_run() {
    let mut w = StyledStringWriter::new();
    w.write_str("ab");
    w.set_style(red());
    w.write_str("▣d");
    assert_eq!(w.get_cursor_pos(), CursorPos { index: 1, len: 2 });
    assert_eq!(w.cursor_pos, Some(CursorPos { index: 1, len: 2 }));
    let v = w.drain_with_styled_cursor(Color::DarkWhite);
    assert_eq!(texts(&v), vec!["ab", "▣d", " "]);
}

#[test]
fn materialized_cursor_is_kept_when_text_grows() {
    let mut w = StyledStringWriter::new();
    w.write_str("ab");
    assert_eq!(w.get_cursor_pos(), CursorPos { index: 0, len: 2 });
    w.write_str("cd");
    assert_eq!(w.get_cursor_pos(), CursorPos { index: 0, len: 2 });
}

#[test]
fn empty_buffer_cursor_gets_an_empty_run() {
    let mut w = StyledStringWriter::new();
    let v = w.drain_with_styled_cursor(Color::DarkWhite);
    assert_eq!(texts(&v), vec!["", " "]);
}

#[test]
fn clear_resets_buffer_and_cursor() {
    let mut w = StyledStringWriter::new();
    w.set_style(red());
    w.write_str("abc");
    w.state.cursor_visible = true;
    w.set_cursor_pos(CursorPos { index: 0, len: 1 });
    w.clear();
    assert!(w.strings.is_empty());
    assert_eq!(w.cursor_pos, None);
    assert!(!w.state.cursor_visible);
    assert_eq!(w.style, red());
    assert_eq!(w.get_cursor_pos(), CursorPos { index: 0, len: 0 });
    assert_eq!(w.strings.len(), 1);
    assert_eq!(w.strings[0].content, "");
    assert_eq!(w.strings[0].style, red());
}

#[test]
fn drain_takes_all_runs_and_keeps_the_cursor() {
    let mut w = StyledStringWriter::new();
    w.write_str("ab");
    w.set_cursor_pos(CursorPos { index: 0, len: 1 });
    let v = w.drain();
    assert_eq!(texts(&v), vec!["ab"]);
    assert!(w.strings.is_empty());
    assert_eq!(w.cursor_pos, Some(CursorPos { index: 0, len: 1 }));
}

#[test]
fn flush_succeeds() {
    let mut w = StyledStringWriter::new();
    assert_eq!(w.flush(), Ok(()));
}

#[test]
fn palette_maps_to_fixed_triples() {
    assert_eq!(from_color(Color::Black), (0, 0, 0));
    assert_eq!(from_color(Color::DarkYellow), (170, 85, 0));
    assert_eq!(from_color(Color::LightBlack), (85, 85, 85));
    assert_eq!(from_color(Color::LightWhite), (255, 255, 255));
    assert_eq!(from_color(Color::Rgb { r: 1, g: 2, b: 3 }), (1, 2, 3));
}
