//! A horizontal divider across the terminal.
use vstd::prelude::*;
use crate::block::reps;
use crate::paint::{plain_spec, styled_spec, TermColor, TextStyle};
use crate::style::{line_char, LineStyle};
use crate::text::views;

verus! {

/// The divider's style and color.
pub struct Line {
    pub style: LineStyle,
    pub color: Option<TermColor>,
}

/// The divider: `max_width + 1` line characters in the color (dark grey
/// without one); `on` tells whether color output was on.
pub open spec fn line_text(l: Line, max_width: int, on: bool) -> Seq<char> {
    let c = match l.color {
        Some(c) => c,
        None => TermColor::DarkGrey,
    };
    styled_spec(reps(line_char(l.style), max_width + 1), TextStyle { fg: Some(c), ..plain_spec() }, on)
}

impl Line {
    /// A solid dark grey divider.
    pub fn new() -> (r: Line)
        ensures
            r.style == LineStyle::Solid,
            r.color == Some(TermColor::DarkGrey),
    {
        Line { style: LineStyle::Solid, color: Some(TermColor::DarkGrey) }
    }

    /// Sets the color.
    pub fn color(self, color: TermColor) -> (r: Line)
        ensures
            r == (Line { color: Some(color), ..self }),
    {
        Line { color: Some(color), ..self }
    }

    /// Sets the style.
    pub fn style(self, style: LineStyle) -> (r: Line)
        ensures
            r == (Line { style, ..self }),
    {
        Line { style, ..self }
    }

    /// The divider's one line (see `line_text`).
    pub fn render_content(&self, max_width: usize) -> (r: Vec<String>)
        ensures
            r@.len() == 1,
            exists|on: bool| r@[0]@ == line_text(*self, max_width as int, on),
    {
        let ch = self.style.as_char();
        let mut run = crate::text::repeat_char_exec(ch, max_width);
        run.push(ch);
        assert(run@ =~= reps(line_char(self.style), max_width + 1));
        let c = match self.color {
            Some(c) => c,
            None => TermColor::DarkGrey,
        };
        let st = TextStyle { fg: Some(c), bg: None, bold: false, dim: false, italic: false, underlined: false };
        let (x, on) = crate::paint::paint_logged(&run, st);
        let s = crate::text::string_of(x.as_slice());
        let r = vec![s];
        assert(r@[0]@ == line_text(*self, max_width as int, on@));
        r
    }
}

} // verus!
