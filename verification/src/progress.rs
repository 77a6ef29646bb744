//! A progress bar line: an optional label, the bar, the percentage.
//! The share done is a ratio computed in floating point by the caller; the
//! layout around it is computed here.
use vstd::prelude::*;
use crate::ansi::{reset_sequence, visible_width_spec};
use crate::block::{reps, sub0};
use crate::text::decimal;

verus! {

/// How far a task has got, with an optional label.
pub struct Progress {
    pub current: usize,
    pub total: usize,
    pub label: Option<String>,
}

/// The bar's characters and whether the percentage is shown.
pub struct ProgressBar {
    pub filled_char: char,
    pub empty_char: char,
    pub show_percentage: bool,
}

/// The label and a space, nothing without a label or with an empty one.
pub open spec fn progress_prefix(st: Progress) -> Seq<char> {
    match st.label {
        Some(l) => if l@.len() > 0 { l@ + seq![' '] } else { Seq::empty() },
        None => Seq::empty(),
    }
}

/// A space and the percentage right-aligned in three columns with `%`;
/// nothing when percentages are off.
pub open spec fn progress_suffix(b: ProgressBar, percent: nat) -> Seq<char> {
    if b.show_percentage {
        seq![' '] + reps(' ', 3 - decimal(percent).len()) + decimal(percent) + seq!['%']
    } else {
        Seq::empty()
    }
}

/// The columns left for the bar in `width`.
pub open spec fn bar_room(b: ProgressBar, st: Progress, width: int, percent: nat) -> int {
    sub0(width, visible_width_spec(progress_prefix(st)) + visible_width_spec(progress_suffix(b, percent)))
}

/// The progress line for a percentage and `filled` filled columns: empty
/// for no width; the label and percentage alone without room for a bar;
/// otherwise the label, `filled` filled characters, the rest of the room
/// empty characters, the percentage; closed by a reset.
pub open spec fn progress_line(b: ProgressBar, st: Progress, width: int, percent: nat, filled: int) -> Seq<char> {
    if width == 0 {
        Seq::empty()
    } else {
        let bw = bar_room(b, st, width, percent);
        if bw == 0 {
            progress_prefix(st) + progress_suffix(b, percent) + reset_sequence()
        } else {
            progress_prefix(st) + reps(b.filled_char, filled) + reps(b.empty_char, sub0(bw, filled))
                + progress_suffix(b, percent) + reset_sequence()
        }
    }
}

impl ProgressBar {
    /// A bar of full and light shade blocks with the percentage, and its
    /// progress without a label.
    pub fn new(current: usize, total: usize) -> (r: (ProgressBar, Progress))
        ensures
            r.0.filled_char == '\u{2588}' && r.0.empty_char == '\u{2591}' && r.0.show_percentage,
            r.1.current == current && r.1.total == total && r.1.label is None,
    {
        (ProgressBar { filled_char: '\u{2588}', empty_char: '\u{2591}', show_percentage: true }, Progress { current, total, label: None })
    }

    /// A bar as `new` gives, with a labelled progress.
    pub fn new_with_label(current: usize, total: usize, label: &str) -> (r: (ProgressBar, Progress))
        ensures
            r.0.filled_char == '\u{2588}' && r.0.empty_char == '\u{2591}' && r.0.show_percentage,
            r.1.current == current && r.1.total == total,
            r.1.label matches Some(l) && l@ == label@,
    {
        let l = crate::text::string_of(crate::text::chars_of(label).as_slice());
        (ProgressBar { filled_char: '\u{2588}', empty_char: '\u{2591}', show_percentage: true }, Progress { current, total, label: Some(l) })
    }

    /// Sets the filled character.
    pub fn filled_char(self, ch: char) -> (r: ProgressBar)
        ensures
            r == (ProgressBar { filled_char: ch, ..self }),
    {
        ProgressBar { filled_char: ch, ..self }
    }

    /// Sets the empty character.
    pub fn empty_char(self, ch: char) -> (r: ProgressBar)
        ensures
            r == (ProgressBar { empty_char: ch, ..self }),
    {
        ProgressBar { empty_char: ch, ..self }
    }

    /// Shows or hides the percentage.
    pub fn show_percentage(self, show: bool) -> (r: ProgressBar)
        ensures
            r == (ProgressBar { show_percentage: show, ..self }),
    {
        ProgressBar { show_percentage: show, ..self }
    }

    fn prefix_exec(st: &Progress) -> (r: Vec<char>)
        ensures
            r@ == progress_prefix(*st),
    {
        match &st.label {
            Some(l) => {
                let mut v = crate::text::chars_of(l.as_str());
                if v.len() > 0 {
                    v.push(' ');
                    v
                } else {
                    Vec::new()
                }
            },
            None => Vec::new(),
        }
    }

    fn suffix_exec(&self, percent: usize) -> (r: Vec<char>)
        ensures
            r@ == progress_suffix(*self, percent as nat),
    {
        if !self.show_percentage {
            return Vec::new();
        }
        let d = crate::text::decimal_chars(percent);
        let mut v: Vec<char> = vec![' '];
        let pad = if d.len() < 3 { 3 - d.len() } else { 0 };
        crate::text::extend_chars(&mut v, crate::text::repeat_char_exec(' ', pad).as_slice());
        crate::text::extend_chars(&mut v, d.as_slice());
        v.push('%');
        v
    }

    /// The columns left for the bar (see `bar_room`).
    pub fn bar_width(&self, st: &Progress, width: usize, percent: usize) -> (r: usize)
        ensures
            r == bar_room(*self, *st, width as int, percent as nat),
    {
        let p = Self::prefix_exec(st);
        let s = self.suffix_exec(percent);
        let used: u128 = crate::ansi::visible_width_chars(p.as_slice()) as u128 + crate::ansi::visible_width_chars(s.as_slice()) as u128;
        if (width as u128) > used { ((width as u128) - used) as usize } else { 0 }
    }

    /// The progress line (see `progress_line`).
    pub fn compose(&self, st: &Progress, width: usize, percent: usize, filled: usize) -> (r: String)
        ensures
            r@ == progress_line(*self, *st, width as int, percent as nat, filled as int),
    {
        if width == 0 {
            return String::new();
        }
        let bw = self.bar_width(st, width, percent);
        let mut v = Self::prefix_exec(st);
        if bw > 0 {
            crate::text::extend_chars(&mut v, crate::text::repeat_char_exec(self.filled_char, filled).as_slice());
            crate::text::extend_chars(&mut v, crate::text::repeat_char_exec(self.empty_char, if bw > filled { bw - filled } else { 0 }).as_slice());
        }
        crate::text::extend_chars(&mut v, self.suffix_exec(percent).as_slice());
        let reset: Vec<char> = vec!['\x1b', '[', '0', 'm'];
        assert(reset@ =~= reset_sequence());
        crate::text::extend_chars(&mut v, reset.as_slice());
        crate::text::string_of(v.as_slice())
    }
}

} // verus!
