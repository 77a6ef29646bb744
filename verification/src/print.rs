//! Formatted text blocks: headers, status messages, bullets, tree items,
//! aligned key-value fields and horizontal rules.
use vstd::prelude::*;
use crate::ansi::{visible_width_spec, wrap_terminal_text_spec};
use crate::text::lines_of;
use crate::block::{reps, sub0, max_int};
use crate::paint::{paint_logged, plain_spec, styled_spec, TermColor, TextStyle};
use crate::text::{chars_of, cviews, extend_chars, string_of, views};

verus! {

/// Level of a status message.
#[derive(Debug, Clone, Copy, PartialEq, Eq, Structural)]
pub enum MessageKind {
    Info,
    Warn,
    Success,
    Error,
}

/// Level of a header.
#[derive(Debug, Clone, Copy, PartialEq, Eq, Structural)]
pub enum HeaderLevel {
    H1,
    H2,
    H3,
}

/// A block of formatted text.
pub enum PrintBlock {
    Header { level: HeaderLevel, text: String, color: Option<TermColor> },
    Message { kind: MessageKind, text: String, color: Option<TermColor> },
    Bullet { text: String, color: Option<TermColor> },
    Tree { text: String, color: Option<TermColor> },
    Field { label: String, value: String, color: Option<TermColor> },
    Line { color: Option<TermColor> },
}

/// The full reset sequence closing each line.
pub open spec fn reset() -> Seq<char> {
    seq!['\x1b', '[', '0', 'm']
}

pub open spec fn is_field(b: PrintBlock) -> bool {
    b is Field
}

/// First block of the run of fields that block `j` belongs to.
pub open spec fn run_start(bs: Seq<PrintBlock>, j: int) -> int
    decreases j,
{
    if j > 0 && j < bs.len() && is_field(bs[j - 1]) {
        run_start(bs, j - 1)
    } else {
        j
    }
}

/// End (exclusive) of the run of fields that block `j` belongs to.
pub open spec fn run_end(bs: Seq<PrintBlock>, j: int) -> int
    decreases bs.len() - j,
{
    if 0 <= j && j + 1 < bs.len() && is_field(bs[j + 1]) {
        run_end(bs, j + 1)
    } else {
        j + 1
    }
}

/// Widest label of the fields `s..e`.
pub open spec fn labels_width(bs: Seq<PrintBlock>, s: int, e: int) -> int
    decreases e - s,
{
    if e <= s {
        0
    } else {
        max_int(
            labels_width(bs, s, e - 1),
            match bs[e - 1] {
                PrintBlock::Field { label, .. } => visible_width_spec(label@) as int,
                _ => 0,
            },
        )
    }
}

/// The text wrapped to the width left after `used` columns, or split into
/// lines when there is no width or none is left.
pub open spec fn wrap_after(text: Seq<char>, w: Option<usize>, used: int) -> Seq<Seq<char>> {
    match w {
        Some(x) => if sub0(x as int, used) > 0 {
            wrap_terminal_text_spec(text, sub0(x as int, used) as nat)
        } else {
            lines_of(text)
        },
        None => lines_of(text),
    }
}

/// The lines with `first` before the first and `indent` before the others,
/// each closed by a reset.
pub open spec fn prefixed(ls: Seq<Seq<char>>, first: Seq<char>, indent: Seq<char>) -> Seq<Seq<char>> {
    Seq::new(ls.len(), |i: int| (if i == 0 { first } else { indent }) + ls[i] + reset())
}

/// Bold, in `color` when there is one.
pub open spec fn bold_in(color: Option<TermColor>) -> TextStyle {
    TextStyle { fg: color, bold: true, ..plain_spec() }
}

/// The style of a header.
pub open spec fn header_style(level: HeaderLevel, color: Option<TermColor>) -> TextStyle {
    match level {
        HeaderLevel::H1 => TextStyle { fg: color, bold: true, underlined: true, ..plain_spec() },
        HeaderLevel::H2 => TextStyle { fg: color, bold: true, ..plain_spec() },
        HeaderLevel::H3 => TextStyle { fg: color, bold: true, italic: true, ..plain_spec() },
    }
}

/// Icon and default color of a message kind.
pub open spec fn icon_of(kind: MessageKind) -> (Seq<char>, TermColor) {
    match kind {
        MessageKind::Info => (seq!['\u{2022}'], TermColor::Cyan),
        MessageKind::Warn => (seq!['\u{2139}'], TermColor::Yellow),
        MessageKind::Success => (seq!['\u{2713}'], TermColor::Green),
        MessageKind::Error => (seq!['\u{2717}'], TermColor::Red),
    }
}

/// Where `": "` first occurs in `s`.
pub open spec fn find_colon_space(s: Seq<char>, i: int) -> Option<int>
    decreases s.len() - i,
{
    if i < 0 || i + 1 >= s.len() {
        None
    } else if s[i] == ':' && s[i + 1] == ' ' {
        Some(i)
    } else {
        find_colon_space(s, i + 1)
    }
}

pub open spec fn fg(c: TermColor) -> TextStyle {
    TextStyle { fg: Some(c), ..plain_spec() }
}

/// The lines of block `j`, given the flags `f` of color output for its
/// styled parts (in order) and whether no line came before.
pub open spec fn block_lines(bs: Seq<PrintBlock>, j: int, w: Option<usize>, f: Seq<bool>, first: bool) -> Seq<Seq<char>> {
    match bs[j] {
        PrintBlock::Field { label, value, color } => {
            let width = labels_width(bs, run_start(bs, j), run_end(bs, j));
            let raw = seq![' ', ' '] + label@ + reps(' ', sub0(width, visible_width_spec(label@) as int)) + seq![' ', ':', ' '];
            let prefix = styled_spec(raw, bold_in(color), f[0]);
            let pw = visible_width_spec(prefix) as int;
            prefixed(wrap_after(value@, w, pw), prefix, reps(' ', pw))
        },
        PrintBlock::Header { level, text, color } => {
            let out = styled_spec(text@, header_style(level, color), f[0]);
            match w {
                Some(x) => if x > 0 { wrap_terminal_text_spec(out, x as nat) } else { seq![out] },
                None => seq![out],
            }
        },
        PrintBlock::Message { kind, text, color } => {
            let (icon, dflt) = icon_of(kind);
            let active = match color {
                Some(c) => c,
                None => dflt,
            };
            let icon_prefix = styled_spec(icon, fg(active), f[0]) + seq![' '];
            let iw = visible_width_spec(icon_prefix) as int;
            let body = if kind == MessageKind::Warn || kind == MessageKind::Error {
                match find_colon_space(text@, 0) {
                    Some(p) => styled_spec(text@.take(p), fg(active), f[1]) + styled_spec(seq![':'], fg(active), f[2])
                        + text@.skip(p + 2),
                    None => text@,
                }
            } else {
                text@
            };
            let ls = prefixed(wrap_after(body, w, iw), icon_prefix, reps(' ', iw));
            if first && ls.len() == 0 { seq![icon_prefix] } else { ls }
        },
        PrintBlock::Bullet { text, color } => {
            let prefix = styled_spec(seq![' ', ' ', '\u{2022}', ' '], bold_in(color), f[0]);
            let pw = visible_width_spec(prefix) as int;
            prefixed(wrap_after(text@, w, pw), prefix, reps(' ', pw))
        },
        PrintBlock::Tree { text, color } => {
            let prefix = styled_spec(seq![' ', ' ', '\u{2514}', '\u{2500}', ' '], bold_in(color), f[0]);
            let pw = visible_width_spec(prefix) as int;
            prefixed(wrap_after(text@, w, pw), prefix, reps(' ', pw))
        },
        PrintBlock::Line { color } => {
            let width = match w {
                Some(x) => x as int,
                None => 80,
            };
            let c = match color {
                Some(c) => c,
                None => TermColor::DarkGrey,
            };
            seq![styled_spec(reps('\u{2500}', width), fg(c), f[0]) + reset()]
        },
    }
}

/// The lines of the first `n` blocks, block `j` using the flags `flags[j]`.
pub open spec fn print_spec(bs: Seq<PrintBlock>, n: int, w: Option<usize>, flags: Seq<Seq<bool>>) -> Seq<Seq<char>>
    decreases n,
{
    if n <= 0 {
        Seq::empty()
    } else {
        let prev = print_spec(bs, n - 1, w, flags);
        prev + block_lines(bs, n - 1, w, flags[n - 1], prev.len() == 0)
    }
}

/// Whether `out` is the rendering of the blocks, the styled parts of each
/// printed by `crossterm` with color output on or off.
pub open spec fn print_ok(out: Seq<Seq<char>>, bs: Seq<PrintBlock>, w: Option<usize>) -> bool {
    exists|flags: Seq<Seq<bool>>| #[trigger] print_spec(bs, bs.len() as int, w, flags) == out
}

} // verus!

verus! {

pub proof fn lemma_run_start(bs: Seq<PrintBlock>, s: int, k: int)
    requires
        0 <= s <= k < bs.len(),
        s == 0 || !is_field(bs[s - 1]),
        forall|i: int| s <= i <= k ==> is_field(#[trigger] bs[i]),
    ensures
        run_start(bs, k) == s,
    decreases k - s,
{
    if k > s {
        lemma_run_start(bs, s, k - 1);
    }
}

pub proof fn lemma_run_end(bs: Seq<PrintBlock>, e: int, k: int)
    requires
        0 <= k < e <= bs.len(),
        e == bs.len() || !is_field(bs[e]),
        forall|i: int| k <= i < e ==> is_field(#[trigger] bs[i]),
    ensures
        run_end(bs, k) == e,
    decreases e - k,
{
    if k + 1 < e {
        lemma_run_end(bs, e, k + 1);
    }
}

fn wrap_after_exec(text: &Vec<char>, w: Option<usize>, used: usize) -> (r: Vec<Vec<char>>)
    ensures
        cviews(r@) == wrap_after(text@, w, used as int),
{
    let t = match w {
        Some(x) => if x > used { x - used } else { 0 },
        None => 0,
    };
    if t > 0 {
        let r = crate::ansi::wrap_text_chars(text, t);
        assert(cviews(r@) =~= r@.map_values(|c: Vec<char>| c@));
        r
    } else {
        let r = crate::text::lines_chars(text.as_slice());
        assert(cviews(r@) =~= r@.map_values(|c: Vec<char>| c@));
        r
    }
}

fn prefixed_exec(ls: &Vec<Vec<char>>, first: &Vec<char>, indent: &Vec<char>) -> (r: Vec<Vec<char>>)
    ensures
        cviews(r@) == prefixed(cviews(ls@), first@, indent@),
{
    let mut out: Vec<Vec<char>> = Vec::new();
    let mut i: usize = 0;
    while i < ls.len()
        invariant
            i <= ls@.len(),
            cviews(out@) == prefixed(cviews(ls@), first@, indent@).take(i as int),
        decreases ls.len() - i,
    {
        let mut line = if i == 0 { first.clone() } else { indent.clone() };
        extend_chars(&mut line, ls[i].as_slice());
        line.push('\x1b');
        line.push('[');
        line.push('0');
        line.push('m');
        let ghost b = out@;
        assert(cviews(ls@)[i as int] == ls@[i as int]@);
        assert(line@ =~= prefixed(cviews(ls@), first@, indent@)[i as int]);
        out.push(line);
        assert(cviews(out@) =~= cviews(b).push(line@));
        assert(prefixed(cviews(ls@), first@, indent@).take(i + 1) =~= prefixed(cviews(ls@), first@, indent@).take(i as int).push(
            line@,
        ));
        i += 1;
    }
    assert(prefixed(cviews(ls@), first@, indent@).take(ls@.len() as int) =~= prefixed(cviews(ls@), first@, indent@));
    out
}

fn reps_vec(c: char, n: usize) -> (r: Vec<char>)
    ensures
        r@ == reps(c, n as int),
{
    crate::text::repeat_char_exec(c, n)
}

fn find_colon_space_exec(s: &Vec<char>) -> (r: Option<usize>)
    ensures
        match r {
            Some(p) => find_colon_space(s@, 0) == Some(p as int) && p + 1 < s@.len(),
            None => find_colon_space(s@, 0) is None,
        },
{
    if s.len() < 2 {
        return None;
    }
    let mut i: usize = 0;
    while i < s.len() - 1
        invariant
            s@.len() >= 2,
            find_colon_space(s@, 0) == find_colon_space(s@, i as int),
        decreases s.len() - i,
    {
        if s[i] == ':' && s[i + 1] == ' ' {
            return Some(i);
        }
        i += 1;
    }
    None
}

/// A prefix, its width, and the lines of `text` wrapped after it.
fn prefixed_text(prefix: &Vec<char>, text: &Vec<char>, w: Option<usize>) -> (r: Vec<Vec<char>>)
    ensures
        cviews(r@) == prefixed(
            wrap_after(text@, w, visible_width_spec(prefix@) as int),
            prefix@,
            reps(' ', visible_width_spec(prefix@) as int),
        ),
{
    let pw = crate::ansi::visible_width_chars(prefix.as_slice());
    let wrapped = wrap_after_exec(text, w, pw);
    prefixed_exec(&wrapped, prefix, &reps_vec(' ', pw))
}

/// A print widget: the blocks to show.
pub struct Print {
    pub blocks: Vec<PrintBlock>,
}

impl Print {
    /// The lines of block `j` (see `block_lines`), for a field with the label width `width` of its run.
    fn block_exec(&self, j: usize, w: Option<usize>, width: usize, first: bool) -> (r: (Vec<Vec<char>>, Ghost<Seq<bool>>))
        requires
            j < self.blocks@.len(),
            is_field(self.blocks@[j as int]) ==> width == labels_width(
                self.blocks@,
                run_start(self.blocks@, j as int),
                run_end(self.blocks@, j as int),
            ),
        ensures
            cviews(r.0@) == block_lines(self.blocks@, j as int, w, r.1@, first),
    {
        match &self.blocks[j] {
            PrintBlock::Field { label, value, color } => {
                let lv = chars_of(label.as_str());
                let lw = crate::ansi::visible_width(label.as_str());
                let mut raw: Vec<char> = vec![' ', ' '];
                extend_chars(&mut raw, lv.as_slice());
                extend_chars(&mut raw, reps_vec(' ', if width > lw { width - lw } else { 0 }).as_slice());
                raw.push(' ');
                raw.push(':');
                raw.push(' ');
                let st = TextStyle { fg: *color, bg: None, bold: true, dim: false, italic: false, underlined: false };
                let (prefix, on) = paint_logged(&raw, st);
                let lines = prefixed_text(&prefix, &chars_of(value.as_str()), w);
                let ghost f = seq![on@];
                assert(raw@ =~= seq![' ', ' '] + label@ + reps(' ', sub0(width as int, visible_width_spec(label@) as int)) + seq![' ', ':', ' ']);
                assert(cviews(lines@) == block_lines(self.blocks@, j as int, w, f, first));
                (lines, Ghost(f))
            },
            PrintBlock::Header { level, text, color } => {
                let st = match level {
                    HeaderLevel::H1 => TextStyle { fg: *color, bg: None, bold: true, dim: false, italic: false, underlined: true },
                    HeaderLevel::H2 => TextStyle { fg: *color, bg: None, bold: true, dim: false, italic: false, underlined: false },
                    HeaderLevel::H3 => TextStyle { fg: *color, bg: None, bold: true, dim: false, italic: true, underlined: false },
                };
                let (out, on) = paint_logged(&chars_of(text.as_str()), st);
                let ghost f = seq![on@];
                let lines = match w {
                    Some(x) => if x > 0 {
                        let r = crate::ansi::wrap_text_chars(&out, x);
                        assert(cviews(r@) =~= r@.map_values(|c: Vec<char>| c@));
                        r
                    } else {
                        let r = vec![out];
                        assert(cviews(r@) =~= seq![out@]);
                        r
                    },
                    None => {
                        let r = vec![out];
                        assert(cviews(r@) =~= seq![out@]);
                        r
                    },
                };
                assert(cviews(lines@) == block_lines(self.blocks@, j as int, w, f, first));
                (lines, Ghost(f))
            },
            PrintBlock::Message { kind, text, color } => {
                let r = self.message_exec(*kind, text, *color, w, first);
                assert(cviews(r.0@) == block_lines(self.blocks@, j as int, w, r.1@, first));
                r
            },
            PrintBlock::Bullet { text, color } => {
                let st = TextStyle { fg: *color, bg: None, bold: true, dim: false, italic: false, underlined: false };
                let sym: Vec<char> = vec![' ', ' ', '\u{2022}', ' '];
                assert(sym@ =~= seq![' ', ' ', '\u{2022}', ' ']);
                let (prefix, on) = paint_logged(&sym, st);
                let ghost f = seq![on@];
                let r = prefixed_text(&prefix, &chars_of(text.as_str()), w);
                assert(cviews(r@) == block_lines(self.blocks@, j as int, w, f, first));
                (r, Ghost(f))
            },
            PrintBlock::Tree { text, color } => {
                let st = TextStyle { fg: *color, bg: None, bold: true, dim: false, italic: false, underlined: false };
                let sym: Vec<char> = vec![' ', ' ', '\u{2514}', '\u{2500}', ' '];
                assert(sym@ =~= seq![' ', ' ', '\u{2514}', '\u{2500}', ' ']);
                let (prefix, on) = paint_logged(&sym, st);
                let ghost f = seq![on@];
                let r = prefixed_text(&prefix, &chars_of(text.as_str()), w);
                assert(cviews(r@) == block_lines(self.blocks@, j as int, w, f, first));
                (r, Ghost(f))
            },
            PrintBlock::Line { color } => {
                let width = match w {
                    Some(x) => x,
                    None => 80,
                };
                let c = match color {
                    Some(c) => *c,
                    None => TermColor::DarkGrey,
                };
                let st = TextStyle { fg: Some(c), bg: None, bold: false, dim: false, italic: false, underlined: false };
                let (mut out, on) = paint_logged(&reps_vec('\u{2500}', width), st);
                let ghost painted = out@;
                out.push('\x1b');
                out.push('[');
                out.push('0');
                out.push('m');
                assert(out@ =~= painted + reset());
                assert(painted == styled_spec(reps('\u{2500}', width as int), fg(c), on@));
                let ghost o = out@;
                let r = vec![out];
                assert(cviews(r@) =~= seq![o]);
                let ghost f = seq![on@];
                assert(cviews(r@) == block_lines(self.blocks@, j as int, w, f, first));
                (r, Ghost(f))
            },
        }
    }

    fn message_exec(&self, kind: MessageKind, text: &String, color: Option<TermColor>, w: Option<usize>, first: bool) -> (r: (
        Vec<Vec<char>>,
        Ghost<Seq<bool>>,
    ))
        ensures
            cviews(r.0@) == block_lines(seq![PrintBlock::Message { kind, text: *text, color }], 0, w, r.1@, first),
    {
        let (icon, dflt): (char, TermColor) = match kind {
            MessageKind::Info => ('\u{2022}', TermColor::Cyan),
            MessageKind::Warn => ('\u{2139}', TermColor::Yellow),
            MessageKind::Success => ('\u{2713}', TermColor::Green),
            MessageKind::Error => ('\u{2717}', TermColor::Red),
        };
        let active = match color {
            Some(c) => c,
            None => dflt,
        };
        let st = TextStyle { fg: Some(active), bg: None, bold: false, dim: false, italic: false, underlined: false };
        let iv = vec![icon];
        assert(iv@ =~= seq![icon]);
        let (mut icon_prefix, on0) = paint_logged(&iv, st);
        icon_prefix.push(' ');
        let iw = crate::ansi::visible_width_chars(icon_prefix.as_slice());
        let tv = chars_of(text.as_str());
        let mut f1 = false;
        let mut f2 = false;
        let ghost mut g1 = false;
        let ghost mut g2 = false;
        let body = if matches!(kind, MessageKind::Warn) || matches!(kind, MessageKind::Error) {
            match find_colon_space_exec(&tv) {
                Some(p) => {
                    let head = crate::ansi::slice_vec(&tv, 0, p);
                    let (a, o1) = paint_logged(&head, st);
                    let colon = vec![':'];
                    assert(colon@ =~= seq![':']);
                    let (c, o2) = paint_logged(&colon, st);
                    proof {
                        g1 = o1@;
                        g2 = o2@;
                    }
                    let n = tv.len();
                    let tail = crate::ansi::slice_vec(&tv, p + 2, n);
                    let mut b = a;
                    extend_chars(&mut b, c.as_slice());
                    extend_chars(&mut b, tail.as_slice());
                    assert(head@ =~= tv@.take(p as int));
                    assert(tail@ =~= tv@.skip(p + 2));
                    b
                },
                None => tv.clone(),
            }
        } else {
            tv.clone()
        };
        let ghost f = seq![on0@, g1, g2];
        let ghost bl = seq![PrintBlock::Message { kind, text: *text, color }];
        assert(icon_of(kind) == (seq![icon], dflt));
        assert(icon_prefix@ == styled_spec(seq![icon], fg(active), f[0]) + seq![' ']);
        assert(body@ == (if kind == MessageKind::Warn || kind == MessageKind::Error {
            match find_colon_space(text@, 0) {
                Some(p) => styled_spec(text@.take(p), fg(active), f[1]) + styled_spec(seq![':'], fg(active), f[2])
                    + text@.skip(p + 2),
                None => text@,
            }
        } else {
            text@
        }));
        let wrapped = wrap_after_exec(&body, w, iw);
        let ls = prefixed_exec(&wrapped, &icon_prefix, &reps_vec(' ', iw));
        if first && ls.len() == 0 {
            let r = vec![icon_prefix];
            assert(cviews(r@) =~= seq![icon_prefix@]);
            (r, Ghost(f))
        } else {
            (ls, Ghost(f))
        }
    }
}

} // verus!

verus! {

impl Print {
    /// No blocks.
    pub fn new() -> (r: Print)
        ensures
            r.blocks@.len() == 0,
    {
        Print { blocks: Vec::new() }
    }

    fn push(self, b: PrintBlock) -> (r: Print)
        ensures
            r.blocks@ == self.blocks@.push(b),
    {
        let mut r = self;
        r.blocks.push(b);
        r
    }

    /// Appends a level-one header.
    pub fn h1(self, text: &str) -> (r: Print)
        ensures
            r.blocks@.len() == self.blocks@.len() + 1,
            r.blocks@.drop_last() == self.blocks@,
            r.blocks@.last() matches PrintBlock::Header { level, text: t, color } && level == HeaderLevel::H1 && t@ == text@ && color is None,
    {
        let r = self.push(PrintBlock::Header { level: HeaderLevel::H1, text: string_of(chars_of(text).as_slice()), color: None });
        assert(r.blocks@.drop_last() =~= self.blocks@);
        r
    }

    /// Appends a level-two header.
    pub fn h2(self, text: &str) -> (r: Print)
        ensures
            r.blocks@.drop_last() == self.blocks@,
            r.blocks@.last() matches PrintBlock::Header { level, text: t, color } && level == HeaderLevel::H2 && t@ == text@ && color is None,
    {
        let r = self.push(PrintBlock::Header { level: HeaderLevel::H2, text: string_of(chars_of(text).as_slice()), color: None });
        assert(r.blocks@.drop_last() =~= self.blocks@);
        r
    }

    /// Appends a level-three header.
    pub fn h3(self, text: &str) -> (r: Print)
        ensures
            r.blocks@.drop_last() == self.blocks@,
            r.blocks@.last() matches PrintBlock::Header { level, text: t, color } && level == HeaderLevel::H3 && t@ == text@ && color is None,
    {
        let r = self.push(PrintBlock::Header { level: HeaderLevel::H3, text: string_of(chars_of(text).as_slice()), color: None });
        assert(r.blocks@.drop_last() =~= self.blocks@);
        r
    }

    /// Appends a status message of the given kind.
    pub fn message(self, kind: MessageKind, text: &str) -> (r: Print)
        ensures
            r.blocks@.drop_last() == self.blocks@,
            r.blocks@.last() matches PrintBlock::Message { kind: k, text: t, color } && k == kind && t@ == text@ && color is None,
    {
        let r = self.push(PrintBlock::Message { kind, text: string_of(chars_of(text).as_slice()), color: None });
        assert(r.blocks@.drop_last() =~= self.blocks@);
        r
    }

    /// Appends an informational message.
    pub fn info(self, text: &str) -> (r: Print)
        ensures
            r.blocks@.drop_last() == self.blocks@,
            r.blocks@.last() matches PrintBlock::Message { kind: k, text: t, color } && k == MessageKind::Info && t@ == text@ && color is None,
    {
        self.message(MessageKind::Info, text)
    }

    /// Appends a warning.
    pub fn warn(self, text: &str) -> (r: Print)
        ensures
            r.blocks@.drop_last() == self.blocks@,
            r.blocks@.last() matches PrintBlock::Message { kind: k, text: t, color } && k == MessageKind::Warn && t@ == text@ && color is None,
    {
        self.message(MessageKind::Warn, text)
    }

    /// Appends a success message.
    pub fn success(self, text: &str) -> (r: Print)
        ensures
            r.blocks@.drop_last() == self.blocks@,
            r.blocks@.last() matches PrintBlock::Message { kind: k, text: t, color } && k == MessageKind::Success && t@ == text@ && color is None,
    {
        self.message(MessageKind::Success, text)
    }

    /// Appends an error message.
    pub fn error(self, text: &str) -> (r: Print)
        ensures
            r.blocks@.drop_last() == self.blocks@,
            r.blocks@.last() matches PrintBlock::Message { kind: k, text: t, color } && k == MessageKind::Error && t@ == text@ && color is None,
    {
        self.message(MessageKind::Error, text)
    }

    /// Appends a bullet item.
    pub fn item(self, text: &str) -> (r: Print)
        ensures
            r.blocks@.drop_last() == self.blocks@,
            r.blocks@.last() matches PrintBlock::Bullet { text: t, color } && t@ == text@ && color is None,
    {
        let r = self.push(PrintBlock::Bullet { text: string_of(chars_of(text).as_slice()), color: None });
        assert(r.blocks@.drop_last() =~= self.blocks@);
        r
    }

    /// Appends a tree item.
    pub fn tree_item(self, text: &str) -> (r: Print)
        ensures
            r.blocks@.drop_last() == self.blocks@,
            r.blocks@.last() matches PrintBlock::Tree { text: t, color } && t@ == text@ && color is None,
    {
        let r = self.push(PrintBlock::Tree { text: string_of(chars_of(text).as_slice()), color: None });
        assert(r.blocks@.drop_last() =~= self.blocks@);
        r
    }

    /// Appends a key-value field.
    pub fn field(self, label: &str, value: &str) -> (r: Print)
        ensures
            r.blocks@.drop_last() == self.blocks@,
            r.blocks@.last() matches PrintBlock::Field { label: l, value: v, color } && l@ == label@ && v@ == value@ && color is None,
    {
        let r = self.push(PrintBlock::Field {
            label: string_of(chars_of(label).as_slice()),
            value: string_of(chars_of(value).as_slice()),
            color: None,
        });
        assert(r.blocks@.drop_last() =~= self.blocks@);
        r
    }

    /// Appends a horizontal rule.
    pub fn line(self) -> (r: Print)
        ensures
            r.blocks@ == self.blocks@.push(PrintBlock::Line { color: None }),
    {
        self.push(PrintBlock::Line { color: None })
    }

    /// Sets the color of the last block.
    pub fn color(self, c: TermColor) -> (r: Print)
        ensures
            r.blocks@.len() == self.blocks@.len(),
            self.blocks@.len() > 0 ==> r.blocks@.drop_last() == self.blocks@.drop_last() && (match (self.blocks@.last(), r.blocks@.last()) {
                (PrintBlock::Header { level: a, text: t, .. }, PrintBlock::Header { level: b, text: u, color }) => a == b && t == u && color == Some(c),
                (PrintBlock::Message { kind: a, text: t, .. }, PrintBlock::Message { kind: b, text: u, color }) => a == b && t == u && color == Some(c),
                (PrintBlock::Bullet { text: t, .. }, PrintBlock::Bullet { text: u, color }) => t == u && color == Some(c),
                (PrintBlock::Tree { text: t, .. }, PrintBlock::Tree { text: u, color }) => t == u && color == Some(c),
                (PrintBlock::Field { label: l, value: v, .. }, PrintBlock::Field { label: m, value: x, color }) => l == m && v == x && color == Some(c),
                (PrintBlock::Line { .. }, PrintBlock::Line { color }) => color == Some(c),
                _ => false,
            }),
            self.blocks@.len() == 0 ==> r.blocks@ == self.blocks@,
    {
        let mut r = self;
        match r.blocks.pop() {
            Some(b) => {
                let nb = match b {
                    PrintBlock::Header { level, text, .. } => PrintBlock::Header { level, text, color: Some(c) },
                    PrintBlock::Message { kind, text, .. } => PrintBlock::Message { kind, text, color: Some(c) },
                    PrintBlock::Bullet { text, .. } => PrintBlock::Bullet { text, color: Some(c) },
                    PrintBlock::Tree { text, .. } => PrintBlock::Tree { text, color: Some(c) },
                    PrintBlock::Field { label, value, .. } => PrintBlock::Field { label, value, color: Some(c) },
                    PrintBlock::Line { .. } => PrintBlock::Line { color: Some(c) },
                };
                r.blocks.push(nb);
                r
            },
            None => r,
        }
    }

    /// The lines of all blocks for a width of `max_width` columns, if any
    /// (see `print_ok`): runs of fields share the width of their widest label.
    pub fn render_content(&self, max_width: Option<usize>) -> (r: Vec<String>)
        ensures
            print_ok(views(r@), self.blocks@, max_width),
    {
        let ghost bs = self.blocks@;
        let n = self.blocks.len();
        let mut out: Vec<Vec<char>> = Vec::new();
        let ghost mut fl: Seq<Seq<bool>> = Seq::empty();
        let mut idx: usize = 0;
        while idx < n
            invariant
                bs == self.blocks@,
                n == bs.len(),
                idx <= n,
                fl.len() == idx,
                idx == 0 || idx == n || !is_field(bs[idx - 1]) || !is_field(bs[idx as int]),
                cviews(out@) == print_spec(bs, idx as int, max_width, fl),
            decreases n - idx,
        {
            if matches!(self.blocks[idx], PrintBlock::Field { .. }) {
                let s = idx;
                let mut e = idx;
                let mut width: usize = 0;
                while e < n && matches!(self.blocks[e], PrintBlock::Field { .. })
                    invariant
                        bs == self.blocks@,
                        n == bs.len(),
                        s <= e <= n,
                        width == labels_width(bs, s as int, e as int),
                        forall|i: int| s <= i < e ==> is_field(#[trigger] bs[i]),
                    decreases n - e,
                {
                    let lw = match &self.blocks[e] {
                        PrintBlock::Field { label, .. } => crate::ansi::visible_width(label.as_str()),
                        _ => 0,
                    };
                    if lw > width {
                        width = lw;
                    }
                    e += 1;
                }
                let mut k = s;
                while k < e
                    invariant
                        bs == self.blocks@,
                        n == bs.len(),
                        s <= k <= e <= n,
                        s < e,
                        s == 0 || !is_field(bs[s - 1]),
                        e == n || !is_field(bs[e as int]),
                        forall|i: int| s <= i < e ==> is_field(#[trigger] bs[i]),
                        width == labels_width(bs, s as int, e as int),
                        fl.len() == k,
                        cviews(out@) == print_spec(bs, k as int, max_width, fl),
                    decreases e - k,
                {
                    proof {
                        lemma_run_start(bs, s as int, k as int);
                        lemma_run_end(bs, e as int, k as int);
                    }
                    let first = out.len() == 0;
                    let (lines, f) = self.block_exec(k, max_width, width, first);
                    let ghost prev = fl;
                    proof {
                        fl = fl.push(f@);
                    }
                    let ghost before = cviews(out@);
                    let mut q: usize = 0;
                    while q < lines.len()
                        invariant
                            q <= lines@.len(),
                            cviews(out@) == before + cviews(lines@).take(q as int),
                        decreases lines.len() - q,
                    {
                        let ghost b = out@;
                        out.push(lines[q].clone());
                        assert(cviews(out@) =~= before + cviews(lines@).take(q + 1)) by {
                            assert(cviews(out@) =~= cviews(b).push(lines@[q as int]@));
                            assert(cviews(lines@).take(q + 1) =~= cviews(lines@).take(q as int).push(lines@[q as int]@));
                        }
                        q += 1;
                    }
                    assert(cviews(lines@).take(lines@.len() as int) =~= cviews(lines@));
                    proof {
                        lemma_print_prefix(bs, k as int, max_width, prev, fl);
                    }
                    k += 1;
                }
                idx = e;
            } else {
                let first = out.len() == 0;
                let (lines, f) = self.block_exec(idx, max_width, 0, first);
                let ghost prev = fl;
                proof {
                    fl = fl.push(f@);
                }
                let ghost before = cviews(out@);
                let mut q: usize = 0;
                while q < lines.len()
                    invariant
                        q <= lines@.len(),
                        cviews(out@) == before + cviews(lines@).take(q as int),
                    decreases lines.len() - q,
                {
                    let ghost b = out@;
                    out.push(lines[q].clone());
                    assert(cviews(out@) =~= before + cviews(lines@).take(q + 1)) by {
                        assert(cviews(out@) =~= cviews(b).push(lines@[q as int]@));
                        assert(cviews(lines@).take(q + 1) =~= cviews(lines@).take(q as int).push(lines@[q as int]@));
                    }
                    q += 1;
                }
                assert(cviews(lines@).take(lines@.len() as int) =~= cviews(lines@));
                proof {
                    lemma_print_prefix(bs, idx as int, max_width, prev, fl);
                }
                idx += 1;
            }
        }
        let r = crate::text::strings_of(&out);
        assert(views(r@) =~= cviews(out@));
        r
    }
}

/// Extending the flags past the blocks rendered so far changes nothing of them.
proof fn lemma_print_prefix(bs: Seq<PrintBlock>, k: int, w: Option<usize>, prev: Seq<Seq<bool>>, fl: Seq<Seq<bool>>)
    requires
        0 <= k,
        prev.len() == k,
        fl == prev.push(fl[k]),
    ensures
        print_spec(bs, k, w, fl) == print_spec(bs, k, w, prev),
{
    assert(fl.take(k) =~= prev.take(k));
    lemma_print_prefix_gen(bs, k, w, fl, prev);
}

proof fn lemma_print_prefix_gen(bs: Seq<PrintBlock>, k: int, w: Option<usize>, a: Seq<Seq<bool>>, b: Seq<Seq<bool>>)
    requires
        0 <= k,
        a.len() >= k,
        b.len() >= k,
        a.take(k) == b.take(k),
    ensures
        print_spec(bs, k, w, a) == print_spec(bs, k, w, b),
    decreases k,
{
    if k > 0 {
        assert(a.take(k - 1) =~= a.take(k).take(k - 1));
        assert(b.take(k - 1) =~= b.take(k).take(k - 1));
        lemma_print_prefix_gen(bs, k - 1, w, a, b);
        assert(a[k - 1] == a.take(k)[k - 1]);
        assert(b[k - 1] == b.take(k)[k - 1]);
    }
}

} // verus!
