use vstd::prelude::*;
use vstd::string::{StrSliceExecFns, StringExecFns};
use vstd::utf8::{decode_utf8, valid_utf8};

use crate::cursor::{cursor_pieces, cursorify};
use crate::lines::{grouped, keyed, line_groups, lemma_split_all_text, lemma_split_all_plain, lines_of, split_all};
use crate::style::{all_text, runs_of, Color, Run, StyleSheet, Styled};

verus! {

/// Render flags of a buffer.
#[derive(Clone, Copy, Debug, PartialEq, Eq, Structural)]
pub struct RendererState {
    /// Whether rendering draws the cursor.
    pub cursor_visible: bool,
    /// Lines drawn so far by the prompt above.
    pub newline_count: u16,
}

impl Default for RendererState {
    fn default() -> (r: RendererState)
        ensures
            !r.cursor_visible,
            r.newline_count == 0,
    {
        RendererState { cursor_visible: false, newline_count: 0 }
    }
}

/// A logical cursor: run `index`, character offset `len` within that run.
/// The offset may equal the run's character count (the append position).
#[derive(Clone, Copy, Debug, PartialEq, Eq, Structural)]
pub struct CursorPos {
    pub index: usize,
    pub len: usize,
}

/// Why a write was refused.
#[derive(Clone, Copy, Debug, PartialEq, Eq, Structural)]
pub enum WriteError {
    /// The bytes are not well-formed UTF-8.
    InvalidEncoding,
}

/// Accumulates written text as styled runs, with a logical cursor.
#[derive(Debug)]
pub struct StyledStringWriter {
    /// The style of the next write.
    pub style: StyleSheet,
    /// The buffered runs.
    pub strings: Vec<Styled>,
    pub state: RendererState,
    pub cursor_pos: Option<CursorPos>,
    pub cursor_pos_save: Option<CursorPos>,
}

/// No two neighbouring runs have equal styles.
pub open spec fn no_adjacent_equal(runs: Seq<Run>) -> bool {
    forall|i: int| 0 <= i < runs.len() - 1 ==> #[trigger] runs[i].1 != runs[i + 1].1
}

/// The runs after writing `s` in `style`: merged into the last run when that
/// run has the same style, else added as a new run.
pub open spec fn write_model(runs: Seq<Run>, style: StyleSheet, s: Seq<char>) -> Seq<Run> {
    if runs.len() > 0 && runs.last().1 == style {
        runs.drop_last().push((runs.last().0 + s, style))
    } else {
        runs.push((s, style))
    }
}

/// The runs as the cursor sees them: an empty buffer holds one empty run in
/// the current style.
pub open spec fn materialized(runs: Seq<Run>, style: StyleSheet) -> Seq<Run> {
    if runs.len() == 0 {
        seq![(Seq::empty(), style)]
    } else {
        runs
    }
}

/// The default cursor: at the end of the last run.
pub open spec fn default_cursor(runs: Seq<Run>) -> CursorPos {
    CursorPos { index: (runs.len() - 1) as usize, len: runs.last().0.len() as usize }
}

/// Whether the cursor `c` addresses a run of `runs` and an offset within it.
pub open spec fn cursor_in(runs: Seq<Run>, c: CursorPos) -> bool {
    c.index < runs.len() && c.len <= runs[c.index as int].0.len()
}

/// The runs with the run under cursor `c` replaced by its cursor pieces.
pub open spec fn with_cursor(runs: Seq<Run>, c: CursorPos, color: Color) -> Seq<Run> {
    let x = runs[c.index as int];
    runs.take(c.index as int) + cursor_pieces(x.0, x.1, c.len as int, color) + runs.skip(
        c.index + 1,
    )
}

/// The runs that rendering `w` displays, before they are cut into lines: with
/// the cursor visible, the buffer (given one empty run if it has none) with the
/// run under the cursor split around it; else the buffer as it is.
pub open spec fn render_runs(w: StyledStringWriter, color: Color) -> Seq<Run> {
    if w.state.cursor_visible {
        with_cursor(materialized(w.runs(), w.style), w.resolved_cursor(), color)
    } else {
        w.runs()
    }
}

impl StyledStringWriter {
    /// The buffered runs as values.
    pub open spec fn runs(&self) -> Seq<Run> {
        runs_of(self.strings@)
    }

    /// The buffer's invariant: neighbouring runs differ in style.
    pub open spec fn wf(&self) -> bool {
        no_adjacent_equal(self.runs())
    }

    /// The cursor that rendering uses: the stored one, else the default.
    pub open spec fn resolved_cursor(&self) -> CursorPos {
        match self.cursor_pos {
            Some(c) => c,
            None => default_cursor(materialized(self.runs(), self.style)),
        }
    }

    /// Whether the stored cursor, if any, addresses the buffer.
    pub open spec fn cursor_fits(&self) -> bool {
        match self.cursor_pos {
            Some(c) => cursor_in(materialized(self.runs(), self.style), c),
            None => true,
        }
    }

    /// An empty buffer with no style, no cursor and the cursor hidden.
    pub fn new() -> (r: StyledStringWriter)
        ensures
            r.wf(),
            r.runs().len() == 0,
            r.style == StyleSheet::empty_spec(),
            r.cursor_pos is None,
            r.cursor_pos_save is None,
            !r.state.cursor_visible,
            r.state.newline_count == 0,
    {
        StyledStringWriter {
            style: StyleSheet::empty(),
            strings: Vec::new(),
            state: RendererState::default(),
            cursor_pos: None,
            cursor_pos_save: None,
        }
    }

    /// Sets the style of the next writes.
    pub fn set_style(&mut self, style: StyleSheet)
        requires
            old(self).wf(),
        ensures
            final(self).wf(),
            final(self).style == style,
            final(self).runs() == old(self).runs(),
            final(self).state == old(self).state,
            final(self).cursor_pos == old(self).cursor_pos,
            final(self).cursor_pos_save == old(self).cursor_pos_save,
    {
        self.style = style;
    }

    /// Appends `s` in the current style, merging it into the last run when
    /// that run has the same style.
    pub fn write_str(&mut self, s: &str)
        requires
            old(self).wf(),
        ensures
            final(self).wf(),
            final(self).runs() == write_model(old(self).runs(), old(self).style, s@),
            all_text(final(self).runs()) == all_text(old(self).runs()) + s@,
            final(self).style == old(self).style,
            final(self).state == old(self).state,
            final(self).cursor_pos == old(self).cursor_pos,
            final(self).cursor_pos_save == old(self).cursor_pos_save,
    {
        let ghost before = self.runs();
        let run = match self.strings.pop() {
            None => Styled::new(s.to_owned(), self.style),
            Some(mut text) => {
                if text.style == self.style {
                    text.content.append(s);
                    text
                } else {
                    self.strings.push(text);
                    Styled::new(s.to_owned(), self.style)
                }
            },
        };
        self.strings.push(run);
        proof {
            assert(self.runs() =~= write_model(before, self.style, s@));
            lemma_write_keeps_merged(before, self.style, s@);
            lemma_write_appends_text(before, self.style, s@);
        }
    }

    /// Appends UTF-8 bytes in the current style, as `write_str` does, and
    /// returns the number of bytes taken; bytes that are not well-formed
    /// UTF-8 are refused and leave the buffer unchanged.
    pub fn write(&mut self, buf: &[u8]) -> (r: Result<usize, WriteError>)
        requires
            old(self).wf(),
        ensures
            final(self).wf(),
            valid_utf8(buf@) ==> r == Ok::<usize, WriteError>(buf@.len() as usize)
                && final(self).runs() == write_model(old(self).runs(), old(self).style, decode_utf8(buf@)),
            !valid_utf8(buf@) ==> r == Err::<usize, WriteError>(WriteError::InvalidEncoding)
                && final(self).runs() == old(self).runs(),
            final(self).style == old(self).style,
            final(self).state == old(self).state,
            final(self).cursor_pos == old(self).cursor_pos,
            final(self).cursor_pos_save == old(self).cursor_pos_save,
    {
        match decode_text(buf) {
            Some(s) => {
                self.write_str(s);
                Ok(buf.len())
            },
            None => Err(WriteError::InvalidEncoding),
        }
    }

    /// Empties the buffer, forgets the cursor and its saved copy, and resets
    /// the render flags; the current style stays.
    pub fn clear(&mut self)
        ensures
            final(self).wf(),
            final(self).runs().len() == 0,
            final(self).cursor_pos is None,
            final(self).cursor_pos_save is None,
            !final(self).state.cursor_visible,
            final(self).state.newline_count == 0,
            final(self).style == old(self).style,
    {
        self.strings = Vec::new();
        self.state = RendererState::default();
        self.cursor_pos = None;
        self.cursor_pos_save = None;
    }

    /// The cursor. An empty buffer first gets one empty run in the current
    /// style; with no cursor set, the default (end of the last run) is taken
    /// and recorded as the cursor.
    pub fn get_cursor_pos(&mut self) -> (r: CursorPos)
        requires
            old(self).wf(),
        ensures
            final(self).wf(),
            final(self).runs() == materialized(old(self).runs(), old(self).style),
            r == old(self).resolved_cursor(),
            old(self).cursor_fits() ==> cursor_in(final(self).runs(), r),
            final(self).cursor_pos == Some(r),
            final(self).cursor_pos_save == old(self).cursor_pos_save,
            final(self).style == old(self).style,
            final(self).state == old(self).state,
    {
        if self.strings.len() == 0 {
            self.strings.push(Styled::new(String::new(), self.style));
            proof {
                assert(self.runs() =~= materialized(seq![], self.style));
            }
        }
        let c = match self.cursor_pos {
            None => {
                let n = self.strings.len();
                let len = self.strings[n - 1].content.as_str().unicode_len();
                CursorPos { index: n - 1, len }
            },
            Some(c) => c,
        };
        self.cursor_pos = Some(c);
        c
    }

    /// Sets the cursor.
    pub fn set_cursor_pos(&mut self, cursor_pos: CursorPos)
        requires
            old(self).wf(),
        ensures
            final(self).wf(),
            final(self).cursor_pos == Some(cursor_pos),
            final(self).runs() == old(self).runs(),
            final(self).cursor_pos_save == old(self).cursor_pos_save,
            final(self).style == old(self).style,
            final(self).state == old(self).state,
    {
        self.cursor_pos = Some(cursor_pos);
    }

    /// Removes and returns all runs; the cursor stays as it is.
    pub fn drain(&mut self) -> (r: Vec<Styled>)
        requires
            old(self).wf(),
        ensures
            final(self).wf(),
            runs_of(r@) == old(self).runs(),
            final(self).runs().len() == 0,
            final(self).cursor_pos == old(self).cursor_pos,
            final(self).cursor_pos_save == old(self).cursor_pos_save,
            final(self).style == old(self).style,
            final(self).state == old(self).state,
    {
        let mut r: Vec<Styled> = Vec::new();
        std::mem::swap(&mut r, &mut self.strings);
        r
    }

    /// Removes all runs and returns them with the run under the cursor split
    /// around it and the cursor drawn with background `color`.
    pub fn drain_with_styled_cursor(&mut self, color: Color) -> (r: Vec<Styled>)
        requires
            old(self).wf(),
            old(self).cursor_fits(),
        ensures
            final(self).wf(),
            runs_of(r@) == with_cursor(
                materialized(old(self).runs(), old(self).style),
                old(self).resolved_cursor(),
                color,
            ),
            final(self).runs().len() == 0,
            final(self).cursor_pos == Some(old(self).resolved_cursor()),
            final(self).cursor_pos_save == old(self).cursor_pos_save,
            final(self).style == old(self).style,
            final(self).state == old(self).state,
    {
        let c = self.get_cursor_pos();
        let ghost m = self.runs();
        let mut strings = self.drain();
        let mut tail = strings.split_off(c.index);
        let target = tail.remove(0);
        let mut pieces = cursorify(target, c.len, color);
        let ghost p = pieces@;
        let ghost rest = tail@;
        strings.append(&mut pieces);
        strings.append(&mut tail);
        proof {
            assert(runs_of(rest) =~= m.skip(c.index + 1));
            assert(runs_of(strings@) =~= m.take(c.index as int) + runs_of(p) + runs_of(rest));
        }
        strings
    }

    /// Whether the stored cursor, if any, addresses a run of the buffer (one
    /// empty run when it has none) and an offset within that run.
    pub fn cursor_is_valid(&self) -> (r: bool)
        ensures
            r == self.cursor_fits(),
    {
        match self.cursor_pos {
            None => true,
            Some(c) => {
                let n = self.strings.len();
                if n == 0 {
                    c.index == 0 && c.len == 0
                } else {
                    c.index < n && c.len <= self.strings[c.index].content.as_str().unicode_len()
                }
            },
        }
    }

    /// Drains the buffer for display: with the cursor visible the run under
    /// the cursor is split around it (cursor background `cursor_color`); the
    /// runs are then cut after each line break and gathered by line, each
    /// group with its line index.
    pub fn render(&mut self, cursor_color: Color) -> (r: Vec<(usize, Vec<Styled>)>)
        requires
            old(self).wf(),
            old(self).state.cursor_visible ==> old(self).cursor_fits(),
        ensures
            final(self).wf(),
            grouped(keyed(split_all(render_runs(*old(self), cursor_color))), lines_of(r@)),
            final(self).runs().len() == 0,
            old(self).state.cursor_visible ==> final(self).cursor_pos == Some(
                old(self).resolved_cursor(),
            ),
            !old(self).state.cursor_visible ==> final(self).cursor_pos == old(self).cursor_pos,
            final(self).cursor_pos_save == old(self).cursor_pos_save,
            final(self).style == old(self).style,
            final(self).state == old(self).state,
    {
        let strings = if self.state.cursor_visible {
            self.drain_with_styled_cursor(cursor_color)
        } else {
            self.drain()
        };
        line_groups(&strings)
    }

    /// Nothing is held back: flushing always succeeds and changes nothing.
    pub fn flush(&mut self) -> (r: Result<(), WriteError>)
        ensures
            r is Ok,
            *final(self) == *old(self),
    {
        Ok(())
    }
}

/// Relies on `std::str::from_utf8`: it accepts exactly the well-formed UTF-8
/// byte sequences and then yields the text they encode.
#[verifier::external_body]
fn decode_text(buf: &[u8]) -> (r: Option<&str>)
    ensures
        r is Some <==> valid_utf8(buf@),
        r is Some ==> r->0@ == decode_utf8(buf@),
{
    std::str::from_utf8(buf).ok()
}

/// Writing keeps neighbouring runs apart in style.
pub proof fn lemma_write_keeps_merged(runs: Seq<Run>, style: StyleSheet, s: Seq<char>)
    requires
        no_adjacent_equal(runs),
    ensures
        no_adjacent_equal(write_model(runs, style, s)),
{
    let w = write_model(runs, style, s);
    assert forall|i: int| 0 <= i < w.len() - 1 implies #[trigger] w[i].1 != w[i + 1].1 by {
        if i + 1 < runs.len() {
            assert(w[i] == runs[i] && w[i + 1].1 == runs[i + 1].1);
        }
    }
}

/// Writing appends the written text to the buffer's text.
pub proof fn lemma_write_appends_text(runs: Seq<Run>, style: StyleSheet, s: Seq<char>)
    ensures
        all_text(write_model(runs, style, s)) == all_text(runs) + s,
{
    let w = write_model(runs, style, s);
    if runs.len() > 0 && runs.last().1 == style {
        assert(w.drop_last() =~= runs.drop_last());
        assert(all_text(w) == all_text(runs.drop_last()) + (runs.last().0 + s));
    } else {
        assert(w.drop_last() =~= runs);
    }
    assert(all_text(w) =~= all_text(runs) + s);
}

impl Default for StyledStringWriter {
    fn default() -> (r: StyledStringWriter)
        ensures
            r.wf(),
            r.runs().len() == 0,
            r.style == StyleSheet::empty_spec(),
            r.cursor_pos is None,
            r.cursor_pos_save is None,
            !r.state.cursor_visible,
    {
        StyledStringWriter::new()
    }
}

/// The runs after each write of `ws` in turn (its style, its text), starting
/// from an empty buffer.
pub open spec fn replay(ws: Seq<(StyleSheet, Seq<char>)>) -> Seq<Run>
    decreases ws.len(),
{
    if ws.len() == 0 {
        Seq::empty()
    } else {
        write_model(replay(ws.drop_last()), ws.last().0, ws.last().1)
    }
}

/// The texts of `ws`, concatenated.
pub open spec fn written_text(ws: Seq<(StyleSheet, Seq<char>)>) -> Seq<char>
    decreases ws.len(),
{
    if ws.len() == 0 {
        Seq::empty()
    } else {
        written_text(ws.drop_last()) + ws.last().1
    }
}

/// Whatever is written, in whatever styles, no two neighbouring runs of the
/// buffer share a style.
pub proof fn lemma_writes_keep_runs_merged(ws: Seq<(StyleSheet, Seq<char>)>)
    ensures
        no_adjacent_equal(replay(ws)),
    decreases ws.len(),
{
    if ws.len() > 0 {
        lemma_writes_keep_runs_merged(ws.drop_last());
        lemma_write_keeps_merged(replay(ws.drop_last()), ws.last().0, ws.last().1);
    }
}

/// Whatever is written, in whatever styles, the runs' text is the written
/// text in order.
pub proof fn lemma_writes_round_trip(ws: Seq<(StyleSheet, Seq<char>)>)
    ensures
        all_text(replay(ws)) == written_text(ws),
    decreases ws.len(),
{
    if ws.len() > 0 {
        lemma_writes_round_trip(ws.drop_last());
        lemma_write_appends_text(replay(ws.drop_last()), ws.last().0, ws.last().1);
    }
}

/// With the cursor hidden, rendering adds no glyph: the runs displayed are
/// the buffered runs, the pieces cut from them rejoin to the same text, and
/// runs without line breaks are displayed one for one.
pub proof fn lemma_hidden_cursor_passthrough(w: StyledStringWriter, color: Color)
    requires
        !w.state.cursor_visible,
    ensures
        render_runs(w, color) == w.runs(),
        all_text(split_all(render_runs(w, color))) == all_text(w.runs()),
        (forall|i: int| 0 <= i < w.runs().len() ==> !(#[trigger] w.runs()[i]).0.contains('\n'))
            ==> split_all(w.runs()) == w.runs(),
{
    lemma_split_all_text(w.runs());
    if forall|i: int| 0 <= i < w.runs().len() ==> !(#[trigger] w.runs()[i]).0.contains('\n') {
        lemma_split_all_plain(w.runs());
    }
}

/// A cleared buffer (no runs, no cursor) renders its cursor at the start of
/// one empty run in the current style.
pub proof fn lemma_cleared_cursor(w: StyledStringWriter)
    requires
        w.runs().len() == 0,
        w.cursor_pos is None,
    ensures
        materialized(w.runs(), w.style) == seq![(Seq::<char>::empty(), w.style)],
        w.resolved_cursor() == (CursorPos { index: 0, len: 0 }),
{
}

} // verus!
