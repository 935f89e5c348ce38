use vstd::prelude::*;

verus! {

/// A display color: sixteen named palette entries or an arbitrary RGB triple.
#[derive(Clone, Copy, Debug, PartialEq, Eq, Structural)]
pub enum Color {
    Black,
    DarkRed,
    DarkGreen,
    DarkYellow,
    DarkBlue,
    DarkMagenta,
    DarkCyan,
    DarkWhite,
    LightBlack,
    LightRed,
    LightGreen,
    LightYellow,
    LightBlue,
    LightMagenta,
    LightCyan,
    LightWhite,
    Rgb { r: u8, g: u8, b: u8 },
}

/// The RGB triple that a color stands for on screen.
pub open spec fn rgb_spec(c: Color) -> (u8, u8, u8) {
    match c {
        Color::Black => (0, 0, 0),
        Color::DarkRed => (170, 0, 0),
        Color::DarkGreen => (0, 170, 0),
        Color::DarkYellow => (170, 85, 0),
        Color::DarkBlue => (0, 0, 170),
        Color::DarkMagenta => (170, 0, 170),
        Color::DarkCyan => (0, 170, 170),
        Color::DarkWhite => (170, 170, 170),
        Color::LightBlack => (85, 85, 85),
        Color::LightRed => (255, 85, 85),
        Color::LightGreen => (85, 255, 85),
        Color::LightYellow => (255, 255, 85),
        Color::LightBlue => (85, 85, 255),
        Color::LightMagenta => (255, 85, 255),
        Color::LightCyan => (85, 255, 255),
        Color::LightWhite => (255, 255, 255),
        Color::Rgb { r, g, b } => (r, g, b),
    }
}

/// Maps a color to its RGB triple: the fixed palette for named colors, the
/// components themselves for `Rgb`.
pub fn from_color(c: Color) -> (r: (u8, u8, u8))
    ensures
        r == rgb_spec(c),
{
    match c {
        Color::Black => (0, 0, 0),
        Color::DarkRed => (170, 0, 0),
        Color::DarkGreen => (0, 170, 0),
        Color::DarkYellow => (170, 85, 0),
        Color::DarkBlue => (0, 0, 170),
        Color::DarkMagenta => (170, 0, 170),
        Color::DarkCyan => (0, 170, 170),
        Color::DarkWhite => (170, 170, 170),
        Color::LightBlack => (85, 85, 85),
        Color::LightRed => (255, 85, 85),
        Color::LightGreen => (85, 255, 85),
        Color::LightYellow => (255, 255, 85),
        Color::LightBlue => (85, 85, 255),
        Color::LightMagenta => (255, 85, 255),
        Color::LightCyan => (85, 255, 255),
        Color::LightWhite => (255, 255, 255),
        Color::Rgb { r, g, b } => (r, g, b),
    }
}

/// Bold text.
pub const ATTR_BOLD: u8 = 1;

/// Italic text.
pub const ATTR_ITALIC: u8 = 2;

/// Foreground color, background color and emphasis attributes (a bit set of
/// the `ATTR_` constants). Two runs with equal style sheets can be merged.
#[derive(Clone, Copy, Debug, PartialEq, Eq, Structural)]
pub struct StyleSheet {
    pub fg: Option<Color>,
    pub bg: Option<Color>,
    pub att: u8,
}

/// The style sheet with its background replaced by `c`.
pub open spec fn with_bg_spec(s: StyleSheet, c: Color) -> StyleSheet {
    StyleSheet { bg: Some(c), ..s }
}

impl StyleSheet {
    /// The style sheet with no colors and no attributes.
    pub open spec fn empty_spec() -> StyleSheet {
        StyleSheet { fg: None, bg: None, att: 0 }
    }

    /// A style sheet with no colors and no attributes.
    pub fn empty() -> (r: StyleSheet)
        ensures
            r == StyleSheet::empty_spec(),
    {
        StyleSheet { fg: None, bg: None, att: 0 }
    }

    /// Replaces the background color.
    pub fn with_bg(self, c: Color) -> (r: StyleSheet)
        ensures
            r == with_bg_spec(self, c),
    {
        StyleSheet { bg: Some(c), ..self }
    }

    /// Replaces the foreground color.
    pub fn with_fg(self, c: Color) -> (r: StyleSheet)
        ensures
            r == (StyleSheet { fg: Some(c), ..self }),
    {
        StyleSheet { fg: Some(c), ..self }
    }
}

impl Default for StyleSheet {
    fn default() -> (r: StyleSheet)
        ensures
            r == (StyleSheet { fg: None, bg: None, att: 0 }),
    {
        StyleSheet::empty()
    }
}

/// A run: text that shares one style sheet.
#[derive(Debug)]
pub struct Styled {
    pub content: String,
    pub style: StyleSheet,
}

/// A run as a mathematical value: its characters and its style sheet.
pub type Run = (Seq<char>, StyleSheet);

impl View for Styled {
    type V = Run;

    open spec fn view(&self) -> Run {
        (self.content@, self.style)
    }
}

/// The mathematical value of a sequence of runs.
pub open spec fn runs_of(v: Seq<Styled>) -> Seq<Run> {
    v.map_values(|s: Styled| s@)
}

/// The text of all runs, concatenated.
pub open spec fn all_text(runs: Seq<Run>) -> Seq<char>
    decreases runs.len(),
{
    if runs.len() == 0 {
        Seq::empty()
    } else {
        all_text(runs.drop_last()) + runs.last().0
    }
}

impl Styled {
    /// A run of `content` in `style`.
    pub fn new(content: String, style: StyleSheet) -> (r: Styled)
        ensures
            r@ == (content@, style),
    {
        Styled { content, style }
    }

    /// A copy of this run.
    pub fn duplicate(&self) -> (r: Styled)
        ensures
            r@ == self@,
    {
        Styled { content: self.content.clone(), style: self.style }
    }
}

} // verus!
