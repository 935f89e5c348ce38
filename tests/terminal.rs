use bevy_inquire::style::{Color, StyleSheet, Styled};
use bevy_inquire::terminal::{
    from_input, BevyInput, BevyTerminal, TerminalError, TerminalSize, MOD_ALT, MOD_CONTROL,
    MOD_SHIFT, MOD_SUPER,
};

#[test]
fn modifier_bits_follow_held_keys() {
    assert_eq!(from_input(false, false, false, false), 0);
    assert_eq!(from_input(true, false, false, false), MOD_SHIFT);
    assert_eq!(from_input(false, true, true, false), MOD_CONTROL | MOD_ALT);
    assert_eq!(from_input(true, true, true, true), 15);
    assert_eq!(from_input(false, false, false, true), MOD_SUPER);
}

#[test]
fn keys_are_read_last_first() {
    let mut input = BevyInput { keys: vec!['a', 'b'] };
    assert_eq!(input.read_key(), Some('b'));
    assert_eq!(input.read_key(), Some('a'));
    assert_eq!(input.read_key(), None);
}

#[test]
fn terminal_starts_at_eighty_by_twenty_four() {
    let t = BevyTerminal::default();
    assert_eq!(t.get_size(), TerminalSize { width: 80, height: 24 });
    assert!(t.writer.strings.is_empty());
}

#[test]
fn terminal_writes_go_to_the_buffer() {
    let mut t = BevyTerminal::new();
    assert_eq!(t.write("ab"), Ok(()));
    t.set_style(StyleSheet::empty().with_fg(Color::LightRed));
    let run = Styled::new("cd".to_string(), StyleSheet::empty());
    assert_eq!(t.write_styled(&run), Ok(()));
    assert_eq!(t.writer.strings.len(), 2);
    assert_eq!(t.writer.strings[1].content, "cd");
    assert_eq!(t.writer.strings[1].style.fg, Some(Color::LightRed));
}

#[test]
fn cursor_visibility_toggles() {
    let mut t = BevyTerminal::new();
    assert_eq!(t.cursor_show(), Ok(()));
    assert!(t.writer.state.cursor_visible);
    assert_eq!(t.cursor_hide(), Ok(()));
    assert!(!t.writer.state.cursor_visible);
}

#[test]
fn movement_and_clearing_are_unsupported() {
    let mut t = BevyTerminal::new();
    assert_eq!(t.cursor_up(1), Err(TerminalError::Unsupported));
    assert_eq!(t.cursor_down(1), Err(TerminalError::Unsupported));
    assert_eq!(t.cursor_left(1), Err(TerminalError::Unsupported));
    assert_eq!(t.cursor_right(1), Err(TerminalError::Unsupported));
    assert_eq!(t.cursor_move_to_column(0), Err(TerminalError::Unsupported));
    assert_eq!(t.clear_line(), Err(TerminalError::Unsupported));
    assert_eq!(t.clear_until_new_line(), Err(TerminalError::Unsupported));
    assert_eq!(t.flush(), Err(TerminalError::Unsupported));
}
