use vstd::prelude::*;

use crate::style::{StyleSheet, Styled};
use crate::writer::{write_model, StyledStringWriter};

verus! {

/// The modifier bit of either Shift key.
pub const MOD_SHIFT: u8 = 1;

/// The modifier bit of either Control key.
pub const MOD_CONTROL: u8 = 2;

/// The modifier bit of either Alt key.
pub const MOD_ALT: u8 = 4;

/// The modifier bit of either Super key.
pub const MOD_SUPER: u8 = 8;

/// The modifier bits for the given pressed states.
pub open spec fn modifier_bits(shift: bool, control: bool, alt: bool, super_key: bool) -> u8 {
    ((if shift { MOD_SHIFT } else { 0u8 }) + (if control { MOD_CONTROL } else { 0u8 }) + (if alt {
        MOD_ALT
    } else {
        0u8
    }) + (if super_key { MOD_SUPER } else { 0u8 })) as u8
}

/// The key-modifier bit set for which modifier keys (left or right) are held.
pub fn from_input(shift: bool, control: bool, alt: bool, super_key: bool) -> (r: u8)
    ensures
        r == modifier_bits(shift, control, alt, super_key),
{
    let mut mods: u8 = 0;
    if shift {
        mods = mods + MOD_SHIFT;
    }
    if control {
        mods = mods + MOD_CONTROL;
    }
    if alt {
        mods = mods + MOD_ALT;
    }
    if super_key {
        mods = mods + MOD_SUPER;
    }
    mods
}

/// Keys waiting to be read, the most recent last.
#[derive(Debug)]
pub struct BevyInput<K> {
    pub keys: Vec<K>,
}

impl<K> BevyInput<K> {
    /// Takes the most recently queued key, if any.
    pub fn read_key(&mut self) -> (r: Option<K>)
        ensures
            old(self).keys@.len() == 0 ==> r is None && final(self).keys@ == old(self).keys@,
            old(self).keys@.len() > 0 ==> r == Some(old(self).keys@.last()) && final(self).keys@
                == old(self).keys@.drop_last(),
    {
        self.keys.pop()
    }
}

/// The size of the display area in character cells.
#[derive(Clone, Copy, Debug, PartialEq, Eq, Structural)]
pub struct TerminalSize {
    pub width: u16,
    pub height: u16,
}

/// A terminal operation that this surface does not offer.
#[derive(Clone, Copy, Debug, PartialEq, Eq, Structural)]
pub enum TerminalError {
    Unsupported,
}

/// A prompt surface: a fixed size and a styled-text buffer.
#[derive(Debug)]
pub struct BevyTerminal {
    pub size: TerminalSize,
    pub writer: StyledStringWriter,
}

impl BevyTerminal {
    /// The terminal's invariant: its buffer's.
    pub open spec fn wf(&self) -> bool {
        self.writer.wf()
    }

    /// A terminal of 80 columns and 24 rows with an empty buffer.
    pub fn new() -> (r: BevyTerminal)
        ensures
            r.wf(),
            r.size == (TerminalSize { width: 80, height: 24 }),
            r.writer.runs().len() == 0,
            r.writer.style == StyleSheet::empty_spec(),
            r.writer.cursor_pos is None,
            !r.writer.state.cursor_visible,
    {
        BevyTerminal { size: TerminalSize { width: 80, height: 24 }, writer: StyledStringWriter::new() }
    }

    /// The display size.
    pub fn get_size(&self) -> (r: TerminalSize)
        ensures
            r == self.size,
    {
        self.size
    }

    /// Sets the style of the next writes.
    pub fn set_style(&mut self, style: StyleSheet)
        requires
            old(self).wf(),
        ensures
            final(self).wf(),
            final(self).writer.style == style,
            final(self).writer.runs() == old(self).writer.runs(),
            final(self).writer.state == old(self).writer.state,
            final(self).writer.cursor_pos == old(self).writer.cursor_pos,
            final(self).size == old(self).size,
    {
        self.writer.set_style(style);
    }

    /// Writes text in the current style.
    pub fn write(&mut self, val: &str) -> (r: Result<(), TerminalError>)
        requires
            old(self).wf(),
        ensures
            r is Ok,
            final(self).wf(),
            final(self).writer.runs() == write_model(
                old(self).writer.runs(),
                old(self).writer.style,
                val@,
            ),
            final(self).writer.style == old(self).writer.style,
            final(self).writer.state == old(self).writer.state,
            final(self).writer.cursor_pos == old(self).writer.cursor_pos,
            final(self).size == old(self).size,
    {
        self.writer.write_str(val);
        Ok(())
    }

    /// Writes the text of a run, in the current style: the run's own style is
    /// not applied.
    pub fn write_styled(&mut self, val: &Styled) -> (r: Result<(), TerminalError>)
        requires
            old(self).wf(),
        ensures
            r is Ok,
            final(self).wf(),
            final(self).writer.runs() == write_model(
                old(self).writer.runs(),
                old(self).writer.style,
                val.content@,
            ),
            final(self).writer.style == old(self).writer.style,
            final(self).writer.state == old(self).writer.state,
            final(self).writer.cursor_pos == old(self).writer.cursor_pos,
            final(self).size == old(self).size,
    {
        self.writer.write_str(val.content.as_str());
        Ok(())
    }

    /// Hides the cursor for later renders.
    pub fn cursor_hide(&mut self) -> (r: Result<(), TerminalError>)
        requires
            old(self).wf(),
        ensures
            r is Ok,
            final(self).wf(),
            !final(self).writer.state.cursor_visible,
            final(self).writer.state.newline_count == old(self).writer.state.newline_count,
            final(self).writer.runs() == old(self).writer.runs(),
            final(self).writer.style == old(self).writer.style,
            final(self).writer.cursor_pos == old(self).writer.cursor_pos,
            final(self).size == old(self).size,
    {
        self.writer.state.cursor_visible = false;
        Ok(())
    }

    /// Shows the cursor in later renders.
    pub fn cursor_show(&mut self) -> (r: Result<(), TerminalError>)
        requires
            old(self).wf(),
        ensures
            r is Ok,
            final(self).wf(),
            final(self).writer.state.cursor_visible,
            final(self).writer.state.newline_count == old(self).writer.state.newline_count,
            final(self).writer.runs() == old(self).writer.runs(),
            final(self).writer.style == old(self).writer.style,
            final(self).writer.cursor_pos == old(self).writer.cursor_pos,
            final(self).size == old(self).size,
    {
        self.writer.state.cursor_visible = true;
        Ok(())
    }

    /// Line clearing is not offered.
    pub fn clear_line(&mut self) -> (r: Result<(), TerminalError>)
        ensures
            r == Err::<(), TerminalError>(TerminalError::Unsupported),
            *final(self) == *old(self),
    {
        Err(TerminalError::Unsupported)
    }

    /// Line clearing is not offered.
    pub fn clear_until_new_line(&mut self) -> (r: Result<(), TerminalError>)
        ensures
            r == Err::<(), TerminalError>(TerminalError::Unsupported),
            *final(self) == *old(self),
    {
        Err(TerminalError::Unsupported)
    }

    /// Cursor movement is not offered.
    pub fn cursor_up(&mut self, cnt: u16) -> (r: Result<(), TerminalError>)
        ensures
            r == Err::<(), TerminalError>(TerminalError::Unsupported),
            *final(self) == *old(self),
    {
        Err(TerminalError::Unsupported)
    }

    /// Cursor movement is not offered.
    pub fn cursor_down(&mut self, cnt: u16) -> (r: Result<(), TerminalError>)
        ensures
            r == Err::<(), TerminalError>(TerminalError::Unsupported),
            *final(self) == *old(self),
    {
        Err(TerminalError::Unsupported)
    }

    /// Cursor movement is not offered.
    pub fn cursor_left(&mut self, cnt: u16) -> (r: Result<(), TerminalError>)
        ensures
            r == Err::<(), TerminalError>(TerminalError::Unsupported),
            *final(self) == *old(self),
    {
        Err(TerminalError::Unsupported)
    }

    /// Cursor movement is not offered.
    pub fn cursor_right(&mut self, cnt: u16) -> (r: Result<(), TerminalError>)
        ensures
            r == Err::<(), TerminalError>(TerminalError::Unsupported),
            *final(self) == *old(self),
    {
        Err(TerminalError::Unsupported)
    }

    /// Cursor movement is not offered.
    pub fn cursor_move_to_column(&mut self, idx: u16) -> (r: Result<(), TerminalError>)
        ensures
            r == Err::<(), TerminalError>(TerminalError::Unsupported),
            *final(self) == *old(self),
    {
        Err(TerminalError::Unsupported)
    }

    /// Explicit flushing is not offered.
    pub fn flush(&mut self) -> (r: Result<(), TerminalError>)
        ensures
            r == Err::<(), TerminalError>(TerminalError::Unsupported),
            *final(self) == *old(self),
    {
        Err(TerminalError::Unsupported)
    }
}

impl Default for BevyTerminal {
    fn default() -> (r: BevyTerminal)
        ensures
            r.wf(),
            r.size == (TerminalSize { width: 80, height: 24 }),
            r.writer.runs().len() == 0,
            r.writer.cursor_pos is None,
            !r.writer.state.cursor_visible,
    {
        BevyTerminal::new()
    }
}

} // verus!
