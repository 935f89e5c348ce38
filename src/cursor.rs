use vstd::prelude::*;
use vstd::string::StrSliceExecFns;

use crate::style::{with_bg_spec, Color, Run, StyleSheet, Styled};

verus! {

/// The pieces that a run of text `t` in style `st` becomes when a cursor of
/// color `c` is drawn at character offset `i` (`0 <= i <= t.len()`): the text
/// before the cursor, the character under it (a space at the end of the text)
/// with background `c`, and the rest of the text if any is left.
pub open spec fn cursor_pieces(t: Seq<char>, st: StyleSheet, i: int, c: Color) -> Seq<Run> {
    let glyph = if i < t.len() { seq![t[i]] } else { seq![' '] };
    let head = seq![(t.take(i), st), (glyph, with_bg_spec(st, c))];
    if i + 1 < t.len() {
        head.push((t.skip(i + 1), st))
    } else {
        head
    }
}

/// Splits a run around character offset `i` into the left text, the cursor
/// glyph (styled with background `cursor_color`) and the right text. The
/// offset may equal the character count: the cursor then sits on a space past
/// the end of the text.
pub fn cursorify(cs: Styled, i: usize, cursor_color: Color) -> (r: Vec<Styled>)
    requires
        i <= cs.content@.len(),
    ensures
        r@.map_values(|s: Styled| s@) == cursor_pieces(cs.content@, cs.style, i as int, cursor_color),
{
    let style = cs.style;
    let text: &str = cs.content.as_str();
    let n = text.unicode_len();
    let left = text.substring_char(0, i).to_owned();
    let glyph = if i < n {
        text.substring_char(i, i + 1).to_owned()
    } else {
        proof {
            reveal_strlit(" ");
        }
        " ".to_owned()
    };
    let mut r: Vec<Styled> = Vec::new();
    r.push(Styled::new(left, style));
    r.push(Styled::new(glyph, style.with_bg(cursor_color)));
    if n - i > 1 {
        let right = text.substring_char(i + 1, n).to_owned();
        r.push(Styled::new(right, style));
    }
    proof {
        let t = cs.content@;
        if i < n {
            assert(t.subrange(i as int, i + 1) =~= seq![t[i as int]]);
        }
        assert(t.subrange(0, i as int) =~= t.take(i as int));
        if i + 1 < n {
            assert(t.subrange(i + 1, n as int) =~= t.skip(i + 1));
        }
        let pieces = cursor_pieces(t, style, i as int, cursor_color);
        assert(r@.len() == pieces.len());
        assert(r@[0]@ == pieces[0]);
        assert(r@[1]@ == pieces[1]);
        assert(r@.map_values(|s: Styled| s@) =~= cursor_pieces(t, style, i as int, cursor_color));
    }
    r
}

} // verus!
