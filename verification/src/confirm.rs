//! A yes/no question answered with `y` or `n` (or Enter for the default).
use vstd::prelude::*;
use crate::theme::CodeTheme;
use crate::input::{KeyCode, KeyPress};
use crate::md::{md_parse, md_render, Markdown, Paint};
use crate::paint::{plain_spec, styled_spec, TermColor, TextStyle};
use crate::style::{BulletStyle, StripeStyle};
use crate::text::{cviews, lines_of, views};
use crate::text_widget::trim_end_breaks;

verus! {

/// An answer.
#[derive(Debug, Clone, Copy, PartialEq, Eq, Structural)]
pub enum Confirmation {
    Yes,
    No,
}

/// The question, its default answer and the answer given.
pub struct ConfirmPrompt {
    pub prompt: String,
    pub default: Option<Confirmation>,
    pub output: Option<Confirmation>,
    pub finished: bool,
    /// Whether the prompt needs a redraw.
    pub dirty: bool,
    /// Markdown settings for the question; shown as it is without them.
    pub markdown: Option<Markdown>,
}

/// The hint after the question: the default in capitals.
pub open spec fn hint_text(d: Option<Confirmation>) -> Seq<char> {
    match d {
        Some(Confirmation::Yes) => seq!['[', 'Y', '/', 'n', ']'],
        Some(Confirmation::No) => seq!['[', 'y', '/', 'N', ']'],
        None => seq!['[', 'y', '/', 'n', ']'],
    }
}

/// The question as shown: rendered as markdown in the width less the hint
/// (unbounded without a width), without trailing line breaks; as it is
/// without markdown.
pub open spec fn question_text(c: ConfirmPrompt, max_width: Option<usize>, p: Paint) -> Seq<char> {
    match c.markdown {
        Some(md) => {
            let w = match max_width {
                Some(w) => crate::block::sub0(w as int, hint_text(c.default).len() as int + 1),
                None => usize::MAX as int,
            };
            let rendered = match md_parse(c.prompt@) {
                Some(tree) => md_render(md, tree, w, Seq::empty(), p),
                None => c.prompt@,
            };
            trim_end_breaks(rendered)
        },
        None => c.prompt@,
    }
}

/// The prompt's lines: the question's lines, the dimmed hint after the last
/// one (alone without any).
pub open spec fn confirm_lines(c: ConfirmPrompt, max_width: Option<usize>, p: Paint) -> Seq<Seq<char>> {
    let ls = lines_of(question_text(c, max_width, p));
    let hint = styled_spec(hint_text(c.default), TextStyle { dim: true, ..plain_spec() }, true);
    if ls.len() == 0 {
        seq![hint]
    } else {
        ls.update(ls.len() - 1, ls.last() + seq![' '] + hint)
    }
}

/// The prompt after a key: nothing changes once finished; `y`/`Y` answer
/// yes, `n`/`N` no, Enter and Ctrl+J the default when there is one, Esc
/// cancels with no answer; an answered key marks a redraw.
pub open spec fn confirm_key(c: ConfirmPrompt, k: KeyPress) -> ConfirmPrompt {
    if c.finished {
        c
    } else {
        match k.code {
            KeyCode::Char(ch) => if ch == 'y' || ch == 'Y' {
                ConfirmPrompt { output: Some(Confirmation::Yes), finished: true, dirty: true, ..c }
            } else if ch == 'n' || ch == 'N' {
                ConfirmPrompt { output: Some(Confirmation::No), finished: true, dirty: true, ..c }
            } else if k.ctrl && ch == 'j' && c.default is Some {
                ConfirmPrompt { output: c.default, finished: true, dirty: true, ..c }
            } else {
                c
            },
            KeyCode::Enter => if c.default is Some {
                ConfirmPrompt { output: c.default, finished: true, dirty: true, ..c }
            } else {
                c
            },
            KeyCode::Esc => ConfirmPrompt { output: None, finished: true, dirty: true, ..c },
            _ => c,
        }
    }
}

impl ConfirmPrompt {
    /// A yes/no question without a default, with markdown on.
    pub fn new(prompt: &str) -> (r: ConfirmPrompt)
        ensures
            r.prompt@ == prompt@,
            r.default is None,
            r.output is None,
            !r.finished,
            r.dirty,
            r.markdown == Some(Markdown::default_spec()),
    {
        let p = crate::text::string_of(crate::text::chars_of(prompt).as_slice());
        ConfirmPrompt { prompt: p, default: None, output: None, finished: false, dirty: true, markdown: Some(Markdown::new()) }
    }

    /// Sets the default answer.
    pub fn default(self, default: Confirmation) -> (r: ConfirmPrompt)
        ensures
            r == (ConfirmPrompt { default: Some(default), ..self }),
    {
        ConfirmPrompt { default: Some(default), ..self }
    }

    /// Turns markdown on (with default settings, when it is off) or off.
    pub fn markdown(self, enable: bool) -> (r: ConfirmPrompt)
        ensures
            r == (if enable && self.markdown is None {
                ConfirmPrompt { markdown: Some(Markdown::default_spec()), ..self }
            } else if !enable {
                ConfirmPrompt { markdown: None, ..self }
            } else {
                self
            }),
    {
        if enable && self.markdown.is_none() {
            ConfirmPrompt { markdown: Some(Markdown::new()), ..self }
        } else if !enable {
            ConfirmPrompt { markdown: None, ..self }
        } else {
            self
        }
    }

    /// One color for the markdown stripes, bullets and inline code, when markdown is on.
    pub fn accent_color(self, color: TermColor) -> (r: ConfirmPrompt)
        ensures
            r == (ConfirmPrompt {
                markdown: match self.markdown {
                    Some(md) => Some(Markdown { stripe_color: Some(color), bullet_color: Some(color), code_color: Some(color), ..md }),
                    None => None,
                },
                ..self
            }),
    {
        let markdown = match self.markdown {
            Some(md) => Some(md.stripe_color(color).bullet_color(color).code_color(color)),
            None => None,
        };
        ConfirmPrompt { markdown, ..self }
    }

    /// The markdown settings in use, the defaults when markdown is off.
    pub open spec fn md_or_default_spec(self) -> Markdown {
        match self.markdown {
            Some(md) => md,
            None => Markdown::default_spec(),
        }
    }

    fn md_or_default(&self) -> (r: Markdown)
        ensures
            r == self.md_or_default_spec(),
    {
        match self.markdown {
            Some(md) => md,
            None => Markdown::new(),
        }
    }

    /// Sets the markdown stripe style (turning markdown on).
    pub fn stripe_style(self, style: StripeStyle) -> (r: ConfirmPrompt)
        ensures
            r == (ConfirmPrompt { markdown: Some(Markdown { stripe_style: style, ..self.md_or_default_spec() }), ..self }),
    {
        let md = self.md_or_default();
        ConfirmPrompt { markdown: Some(md.stripe_style(style)), ..self }
    }

    /// Sets the markdown stripe color (turning markdown on).
    pub fn stripe_color(self, color: TermColor) -> (r: ConfirmPrompt)
        ensures
            r == (ConfirmPrompt { markdown: Some(Markdown { stripe_color: Some(color), ..self.md_or_default_spec() }), ..self }),
    {
        let md = self.md_or_default();
        ConfirmPrompt { markdown: Some(md.stripe_color(color)), ..self }
    }

    /// Sets the markdown bullet style (turning markdown on).
    pub fn bullet_style(self, style: BulletStyle) -> (r: ConfirmPrompt)
        ensures
            r == (ConfirmPrompt { markdown: Some(Markdown { bullet_style: style, ..self.md_or_default_spec() }), ..self }),
    {
        let md = self.md_or_default();
        ConfirmPrompt { markdown: Some(md.bullet_style(style)), ..self }
    }

    /// Sets the markdown bullet color (turning markdown on).
    pub fn bullet_color(self, color: TermColor) -> (r: ConfirmPrompt)
        ensures
            r == (ConfirmPrompt { markdown: Some(Markdown { bullet_color: Some(color), ..self.md_or_default_spec() }), ..self }),
    {
        let md = self.md_or_default();
        ConfirmPrompt { markdown: Some(md.bullet_color(color)), ..self }
    }

    /// Sets the markdown inline code color (turning markdown on).
    pub fn code_color(self, color: TermColor) -> (r: ConfirmPrompt)
        ensures
            r == (ConfirmPrompt { markdown: Some(Markdown { code_color: Some(color), ..self.md_or_default_spec() }), ..self }),
    {
        let md = self.md_or_default();
        ConfirmPrompt { markdown: Some(md.code_color(color)), ..self }
    }

    /// Sets the markdown code theme (turning markdown on).
    pub fn code_theme(self, theme: CodeTheme) -> (r: ConfirmPrompt)
        ensures
            r == (ConfirmPrompt { markdown: Some(Markdown { theme: theme, ..self.md_or_default_spec() }), ..self }),
    {
        let md = self.md_or_default();
        ConfirmPrompt { markdown: Some(md.theme(theme)), ..self }
    }

    /// Whether the prompt needs a redraw.
    pub fn is_changed(&self) -> (r: bool)
        ensures
            r == self.dirty,
    {
        self.dirty
    }

    /// Whether the question is answered or cancelled.
    pub fn is_finished(&self) -> (r: bool)
        ensures
            r == self.finished,
    {
        self.finished
    }

    /// Handles a key (see `confirm_key`).
    pub fn handle_key(&mut self, key: KeyPress)
        ensures
            *final(self) == confirm_key(*old(self), key),
    {
        if self.finished {
            return;
        }
        match key.code {
            KeyCode::Char(ch) => {
                if ch == 'y' || ch == 'Y' {
                    self.output = Some(Confirmation::Yes);
                    self.finished = true;
                    self.dirty = true;
                } else if ch == 'n' || ch == 'N' {
                    self.output = Some(Confirmation::No);
                    self.finished = true;
                    self.dirty = true;
                } else if key.ctrl && ch == 'j' && self.default.is_some() {
                    self.output = self.default;
                    self.finished = true;
                    self.dirty = true;
                }
            },
            KeyCode::Enter => {
                if self.default.is_some() {
                    self.output = self.default;
                    self.finished = true;
                    self.dirty = true;
                }
            },
            KeyCode::Esc => {
                self.output = None;
                self.finished = true;
                self.dirty = true;
            },
            _ => {},
        }
    }

    /// The question as shown (see `question_text`).
    fn question_exec(&self, max_width: Option<usize>) -> (r: (Vec<char>, Ghost<Paint>))
        ensures
            r.0@ == question_text(*self, max_width, r.1@),
    {
        let ghost none = Paint { flags: Seq::empty(), kids: Seq::empty() };
        match self.markdown {
            Some(md) => {
                let w: usize = match max_width {
                    Some(w) => if w > 6 { w - 6 } else { 0 },
                    None => usize::MAX,
                };
                assert(hint_text(self.default).len() == 5);
                let rendered = md.render(self.prompt.as_str(), w);
                let ghost p = match md_parse(self.prompt@) {
                    Some(tree) => choose|p: Paint| rendered@ == md_render(md, tree, w as int, Seq::empty(), p),
                    None => none,
                };
                let rv = crate::text::chars_of(rendered.as_str());
                (trim_end_breaks_chars(&rv), Ghost(p))
            },
            None => (crate::text::chars_of(self.prompt.as_str()), Ghost(none)),
        }
    }

    /// Draws the prompt (see `confirm_lines`) and clears the redraw mark.
    pub fn render_frame(&mut self, max_width: Option<usize>) -> (r: Vec<String>)
        ensures
            exists|p: Paint| views(r@) == confirm_lines(*old(self), max_width, p),
            *final(self) == (ConfirmPrompt { dirty: false, ..*old(self) }),
    {
        let ghost c = *self;
        let (q, p) = self.question_exec(max_width);
        self.dirty = false;
        let hint_raw: Vec<char> = match self.default {
            Some(Confirmation::Yes) => vec!['[', 'Y', '/', 'n', ']'],
            Some(Confirmation::No) => vec!['[', 'y', '/', 'N', ']'],
            None => vec!['[', 'y', '/', 'n', ']'],
        };
        assert(hint_raw@ =~= hint_text(self.default));
        let st = TextStyle { fg: None, bg: None, bold: false, dim: true, italic: false, underlined: false };
        let hint = crate::paint::fixed_styled(&hint_raw, st);
        let mut ls = crate::text::lines_chars(q.as_slice());
        assert(cviews(ls@) =~= ls@.map_values(|x: Vec<char>| x@));
        let ghost lv = cviews(ls@);
        let n = ls.len();
        if n == 0 {
            ls.push(hint);
            assert(cviews(ls@) =~= seq![hint@]);
        } else {
            let mut last = crate::text::chars_of(crate::text::string_of(ls[n - 1].as_slice()).as_str());
            assert(lv.last() == ls@[n - 1]@);
            last.push(' ');
            crate::text::extend_chars(&mut last, hint.as_slice());
            assert(last@ =~= lv.last() + seq![' '] + hint@);
            ls.set(n - 1, last);
            assert(cviews(ls@) =~= lv.update(n - 1, lv.last() + seq![' '] + hint@));
        }
        let r = crate::text::strings_of(&ls);
        assert(views(r@) =~= confirm_lines(c, max_width, p@));
        r
    }

    /// The answer, taken out (none afterwards).
    pub fn extract_output(&mut self) -> (r: Option<Confirmation>)
        ensures
            r == old(self).output,
            *final(self) == (ConfirmPrompt { output: None, ..*old(self) }),
    {
        let r = self.output;
        self.output = None;
        r
    }
}

fn trim_end_breaks_chars(s: &Vec<char>) -> (r: Vec<char>)
    ensures
        r@ == trim_end_breaks(s@),
{
    crate::text_widget::trim_end_breaks_exec(s)
}

} // verus!

verus! {

/// Every key leaves the prompt as it is or finishes it.
pub proof fn law_key_keeps_or_finishes(c: ConfirmPrompt, k: KeyPress)
    ensures
        confirm_key(c, k) == c || confirm_key(c, k).finished,
{
}

/// Once finished, the prompt ignores every key.
pub proof fn law_finished_is_final(c: ConfirmPrompt, k: KeyPress)
    requires
        c.finished,
    ensures
        confirm_key(c, k) == c,
{
}

} // verus!
