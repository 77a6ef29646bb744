//! Code wrapping that keeps color escapes intact: lines are cut at the
//! column limit one character at a time, escape sequences are carried along
//! whole, and the active color is closed before a cut and reopened after it.
use vstd::prelude::*;
use crate::ansi::{active_fg, esc, reset_sequence, visible_width_spec};
use crate::text::{cviews, join_with, replace_char, replace_crlf, split_on};
use crate::paint::{plain_spec, styled_spec, TermColor, TextStyle};
use crate::theme::{capture_names, color_for, highlight_names, CodeTheme};
use crate::parser::context::str_eq;
use tree_sitter_highlight::{HighlightConfiguration, HighlightEvent, Highlighter};

verus! {

/// The end of an escape sequence whose body starts at `k`: just past the
/// first `m`, or the end of the line.
pub open spec fn m_end(s: Seq<char>, k: int) -> int
    decreases s.len() - k,
{
    if k >= s.len() {
        s.len() as int
    } else if s[k] == 'm' {
        k + 1
    } else {
        m_end(s, k + 1)
    }
}

/// An escape sequence ends after its start and within the line.
pub proof fn lemma_m_end(s: Seq<char>, k: int)
    requires
        0 <= k <= s.len(),
    ensures
        k <= m_end(s, k) <= s.len(),
    decreases s.len() - k,
{
    if k < s.len() && s[k] != 'm' {
        lemma_m_end(s, k + 1);
    }
}

/// The cut lines of a line so far, the piece being filled and its width.
pub struct CutState {
    pub out: Seq<Seq<char>>,
    pub chunk: Seq<char>,
    pub width: int,
}

/// Cuts a line from `i` on at `max` columns: an escape sequence joins the
/// piece whole; a character that does not fit closes the piece with a reset
/// and starts the next one with the piece's active color.
pub open spec fn cut_from(line: Seq<char>, i: int, max: int, st: CutState) -> CutState
    decreases line.len() - i,
{
    if i < 0 || i >= line.len() {
        st
    } else if line[i] == esc() {
        let j = m_end(line, i + 1);
        proof {
            lemma_m_end(line, i + 1);
        }
        cut_from(line, j, max, CutState { chunk: st.chunk + line.subrange(i, j), ..st })
    } else {
        let w = visible_width_spec(seq![line[i]]) as int;
        let st1 = if st.width + w > max {
            CutState {
                out: st.out.push(st.chunk + reset_sequence()),
                chunk: match active_fg(st.chunk) {
                    Some(c) => c,
                    None => Seq::empty(),
                },
                width: 0,
            }
        } else {
            st
        };
        cut_from(line, i + 1, max, CutState { chunk: st1.chunk.push(line[i]), width: st1.width + w, ..st1 })
    }
}

/// The lines of one line: itself when it fits, otherwise its cut pieces.
pub open spec fn cut_line(line: Seq<char>, max: int) -> Seq<Seq<char>> {
    if visible_width_spec(line) <= max {
        seq![line]
    } else {
        let st = cut_from(line, 0, max, CutState { out: Seq::empty(), chunk: Seq::empty(), width: 0 });
        st.out.push(st.chunk)
    }
}

/// All lines cut, in order.
pub open spec fn cut_lines(ls: Seq<Seq<char>>, max: int) -> Seq<Seq<char>>
    decreases ls.len(),
{
    if ls.len() == 0 {
        Seq::empty()
    } else {
        cut_lines(ls.drop_last(), max) + cut_line(ls.last(), max)
    }
}

/// What `wrap_highlighted_code` returns: unchanged for no width, otherwise
/// every line cut to the width, joined by line breaks.
pub open spec fn wrap_highlighted_spec(content: Seq<char>, max: int) -> Seq<char> {
    if max == 0 {
        content
    } else {
        join_with(cut_lines(split_on(content, '\n'), max), '\n')
    }
}

/// Line breaks made uniform: `\r\n` and a lone `\r` become `\n`.
pub open spec fn clean_breaks(s: Seq<char>) -> Seq<char> {
    replace_char(replace_crlf(s), '\r', seq!['\n'])
}

/// Code highlighting support.
pub struct SyntaxHighlighter;

impl SyntaxHighlighter {
    /// Cuts code (possibly with color escapes) to `max_width` columns per
    /// line; returned unchanged for a width of 0.
    pub fn wrap_highlighted_code(content: &str, max_width: usize) -> (r: String)
        ensures
            r@ == wrap_highlighted_spec(content@, max_width as int),
    {
        let cv = crate::text::chars_of(content);
        let out = wrap_highlighted_chars(&cv, max_width);
        crate::text::string_of(out.as_slice())
    }

    /// Plain code with uniform line breaks, cut to the width when one is given.
    pub fn wrap_plain_code(code: &str, max_width: Option<usize>) -> (r: String)
        ensures
            r@ == match max_width {
                Some(w) => wrap_highlighted_spec(clean_breaks(code@), w as int),
                None => clean_breaks(code@),
            },
    {
        let cv = crate::text::chars_of(code);
        let a = crate::text::replace_crlf_exec(cv.as_slice());
        let nl: Vec<char> = vec!['\n'];
        assert(nl@ =~= seq!['\n']);
        let clean = crate::text::replace_char_exec(a.as_slice(), '\r', nl.as_slice());
        match max_width {
            Some(w) => {
                let out = wrap_highlighted_chars(&clean, w);
                crate::text::string_of(out.as_slice())
            },
            None => crate::text::string_of(clean.as_slice()),
        }
    }
}

/// The end of an escape sequence (see `m_end`).
fn m_end_exec(s: &Vec<char>, k: usize) -> (r: usize)
    requires
        k <= s@.len(),
    ensures
        r == m_end(s@, k as int),
        k <= r <= s@.len(),
{
    let mut j = k;
    while j < s.len() && s[j] != 'm'
        invariant
            k <= j <= s@.len(),
            m_end(s@, k as int) == m_end(s@, j as int),
        decreases s.len() - j,
    {
        j += 1;
    }
    if j < s.len() {
        j + 1
    } else {
        j
    }
}

/// Cuts one line (see `cut_line`).
fn cut_line_exec(line: &Vec<char>, max: usize) -> (r: Vec<Vec<char>>)
    ensures
        cviews(r@) == cut_line(line@, max as int),
{
    if crate::ansi::visible_width_chars(line.as_slice()) <= max {
        let r = vec![line.clone()];
        assert(cviews(r@) =~= seq![line@]);
        return r;
    }
    let reset: Vec<char> = vec!['\x1b', '[', '0', 'm'];
    assert(reset@ =~= reset_sequence());
    let mut out: Vec<Vec<char>> = Vec::new();
    let mut chunk: Vec<char> = Vec::new();
    let mut width: u128 = 0;
    let mut i: usize = 0;
    let ghost init = CutState { out: Seq::empty(), chunk: Seq::empty(), width: 0 };
    assert(cviews(out@) =~= Seq::<Seq<char>>::empty());
    assert(chunk@ =~= Seq::<char>::empty());
    while i < line.len()
        invariant
            reset@ == reset_sequence(),
            init == (CutState { out: Seq::empty(), chunk: Seq::empty(), width: 0 }),
            i <= line@.len(),
            width <= i * 0x1_0000_0000_0000_0000,
            cut_from(line@, 0, max as int, init) == cut_from(line@, i as int, max as int, CutState { out: cviews(out@), chunk: chunk@, width: width as int }),
        decreases line.len() - i,
    {
        if line[i] == '\x1b' {
            let j = m_end_exec(line, i + 1);
            let piece = crate::ansi::slice_vec(line, i, j);
            crate::text::extend_chars(&mut chunk, piece.as_slice());
            i = j;
        } else {
            let one: Vec<char> = vec![line[i]];
            let w = crate::ansi::visible_width_chars(one.as_slice());
            assert(one@ =~= seq![line@[i as int]]);
            if width + (w as u128) > max as u128 {
                let active = crate::ansi::active_color_chars(&chunk);
                let mut closed = chunk.clone();
                crate::text::extend_chars(&mut closed, reset.as_slice());
                let ghost b = out@;
                out.push(closed);
                assert(cviews(out@) =~= cviews(b).push(closed@));
                chunk = match active {
                    Some(c) => c,
                    None => Vec::new(),
                };
                width = 0;
            }
            chunk.push(line[i]);
            width = width + w as u128;
            i += 1;
        }
    }
    let ghost b = out@;
    out.push(chunk);
    assert(cviews(out@) =~= cviews(b).push(chunk@));
    out
}

/// Cuts code to a width (see `wrap_highlighted_spec`).
fn wrap_highlighted_chars(content: &Vec<char>, max: usize) -> (r: Vec<char>)
    ensures
        r@ == wrap_highlighted_spec(content@, max as int),
{
    if max == 0 {
        return content.clone();
    }
    let parts = crate::text::split_chars(content.as_slice(), '\n');
    let ghost pv = split_on(content@, '\n');
    let mut out: Vec<Vec<char>> = Vec::new();
    let mut i: usize = 0;
    assert(pv.take(0) =~= Seq::<Seq<char>>::empty());
    assert(cviews(out@) =~= Seq::<Seq<char>>::empty());
    while i < parts.len()
        invariant
            pv == split_on(content@, '\n'),
            parts@.len() == pv.len(),
            forall|q: int| 0 <= q < parts@.len() ==> #[trigger] parts@[q]@ == pv[q],
            i <= parts@.len(),
            cviews(out@) == cut_lines(pv.take(i as int), max as int),
        decreases parts.len() - i,
    {
        let cut = cut_line_exec(&parts[i], max);
        let ghost before = cviews(out@);
        let mut k: usize = 0;
        while k < cut.len()
            invariant
                k <= cut@.len(),
                cviews(out@) == before + cviews(cut@).take(k as int),
            decreases cut.len() - k,
        {
            let ghost b = out@;
            out.push(cut[k].clone());
            assert(cviews(out@) =~= cviews(b).push(cut@[k as int]@));
            assert(cviews(cut@).take(k + 1) =~= cviews(cut@).take(k as int).push(cut@[k as int]@));
            k += 1;
        }
        assert(cviews(cut@).take(cut@.len() as int) =~= cviews(cut@));
        assert(pv.take(i + 1).drop_last() =~= pv.take(i as int));
        assert(pv.take(i + 1).last() == parts@[i as int]@);
        i += 1;
    }
    assert(pv.take(parts@.len() as int) =~= pv);
    crate::text::join_with_exec(&out, '\n')
}

} // verus!

verus! {

/// A step of a highlighted document: source bytes `start..end`, the start
/// of a highlight with a capture index, the end of the innermost one, or a
/// failure that ends the document.
#[derive(Debug, Clone, Copy, PartialEq, Eq, Structural)]
pub enum HlEvent {
    Source { start: usize, end: usize },
    Start(usize),
    End,
    Error,
}

/// The languages that can be highlighted.
#[derive(Debug, Clone, Copy, PartialEq, Eq, Structural)]
pub enum Lang {
    Yaml,
    Toml,
    Rust,
    Bash,
    Python,
    JavaScript,
    TypeScript,
    Go,
    Json,
}

/// The characters of `code` in bytes `start..end`; none when either end is
/// not at a character boundary or they are out of order.
pub open spec fn fragment(code: Seq<char>, start: int, end: int) -> Option<Seq<char>> {
    match (crate::fields::byte_prefix_from(code, 0, start), crate::fields::byte_prefix_from(code, 0, end)) {
        (Some(a), Some(b)) => if a <= b { Some(code.subrange(a, b)) } else { None },
        _ => None,
    }
}

/// The parts of a fragment joined by line breaks, each non-empty part in
/// `color`; part after part uses the next color flag from `k` on. Gives
/// the text and the next flag.
pub open spec fn colored_parts(parts: Seq<Seq<char>>, color: TermColor, f: Seq<bool>, k: int) -> (Seq<char>, int)
    decreases parts.len(),
{
    if parts.len() == 0 {
        (Seq::empty(), k)
    } else {
        let (prev, k1) = colored_parts(parts.drop_last(), color, f, k);
        let sep = if parts.len() > 1 { seq!['\n'] } else { Seq::<char>::empty() };
        let last = parts.last();
        if last.len() > 0 {
            (prev + sep + styled_spec(last, TextStyle { fg: Some(color), ..plain_spec() }, f[k1]), k1 + 1)
        } else {
            (prev + sep, k1)
        }
    }
}

/// The text so far, the open highlights' colors, the next color flag, and
/// whether the document ended.
pub struct HlState {
    pub out: Seq<char>,
    pub stack: Seq<TermColor>,
    pub k: int,
    pub stop: bool,
}

/// One event: source text is added, in the innermost highlight's color
/// when there is one other than the reset color; a start opens a highlight
/// in the theme's color for its capture; an end closes the innermost one.
pub open spec fn hl_step(code: Seq<char>, theme: CodeTheme, st: HlState, ev: HlEvent, f: Seq<bool>) -> HlState {
    if st.stop {
        st
    } else {
        match ev {
            HlEvent::Source { start, end } => match fragment(code, start as int, end as int) {
                Some(fr) => if st.stack.len() > 0 && st.stack.last() != TermColor::Reset {
                    let (t, k2) = colored_parts(split_on(fr, '\n'), st.stack.last(), f, st.k);
                    HlState { out: st.out + t, k: k2, ..st }
                } else {
                    HlState { out: st.out + fr, ..st }
                },
                None => HlState { stop: true, ..st },
            },
            HlEvent::Start(i) => HlState { stack: st.stack.push(color_for(theme, i as int)), ..st },
            HlEvent::End => HlState { stack: if st.stack.len() > 0 { st.stack.drop_last() } else { st.stack }, ..st },
            HlEvent::Error => HlState { stop: true, ..st },
        }
    }
}

/// The state after the first `n` events.
pub open spec fn hl_run(code: Seq<char>, theme: CodeTheme, evs: Seq<HlEvent>, n: int, f: Seq<bool>) -> HlState
    decreases n,
{
    if n <= 0 || n > evs.len() {
        HlState { out: Seq::empty(), stack: Seq::empty(), k: 0, stop: false }
    } else {
        hl_step(code, theme, hl_run(code, theme, evs, n - 1, f), evs[n - 1], f)
    }
}

/// The highlighted code: the events' text, cut to the width when one is given.
pub open spec fn highlighted(code: Seq<char>, theme: CodeTheme, evs: Seq<HlEvent>, max_width: Option<usize>, f: Seq<bool>) -> Seq<char> {
    let raw = hl_run(code, theme, evs, evs.len() as int, f).out;
    match max_width {
        Some(w) => wrap_highlighted_spec(raw, w as int),
        None => raw,
    }
}

} // verus!

verus! {

proof fn lemma_parts_mono(parts: Seq<Seq<char>>, color: TermColor, f: Seq<bool>, k: int)
    ensures
        colored_parts(parts, color, f, k).1 >= k,
    decreases parts.len(),
{
    if parts.len() > 0 {
        lemma_parts_mono(parts.drop_last(), color, f, k);
    }
}

/// Colored parts read only the flags they use.
proof fn lemma_parts_frame(parts: Seq<Seq<char>>, color: TermColor, a: Seq<bool>, b: Seq<bool>, k: int)
    requires
        forall|j: int| k <= j < colored_parts(parts, color, a, k).1 ==> a[j] == b[j],
    ensures
        colored_parts(parts, color, a, k) == colored_parts(parts, color, b, k),
    decreases parts.len(),
{
    if parts.len() > 0 {
        let k1 = colored_parts(parts.drop_last(), color, a, k).1;
        lemma_parts_mono(parts.drop_last(), color, a, k);
        assert(colored_parts(parts, color, a, k).1 >= k1);
        lemma_parts_frame(parts.drop_last(), color, a, b, k);
    }
}

proof fn lemma_step_mono(code: Seq<char>, theme: CodeTheme, st: HlState, ev: HlEvent, f: Seq<bool>)
    ensures
        hl_step(code, theme, st, ev, f).k >= st.k,
{
    if !st.stop {
        if let HlEvent::Source { start, end } = ev {
            if let Some(fr) = fragment(code, start as int, end as int) {
                if st.stack.len() > 0 && st.stack.last() != TermColor::Reset {
                    lemma_parts_mono(split_on(fr, '\n'), st.stack.last(), f, st.k);
                }
            }
        }
    }
}

/// A run of events reads only the flags it uses.
proof fn lemma_run_frame(code: Seq<char>, theme: CodeTheme, evs: Seq<HlEvent>, n: int, a: Seq<bool>, b: Seq<bool>)
    requires
        forall|j: int| 0 <= j < hl_run(code, theme, evs, n, a).k ==> a[j] == b[j],
    ensures
        hl_run(code, theme, evs, n, a) == hl_run(code, theme, evs, n, b),
        hl_run(code, theme, evs, n, a).k >= 0,
    decreases n,
{
    if !(n <= 0 || n > evs.len()) {
        let st = hl_run(code, theme, evs, n - 1, a);
        lemma_step_mono(code, theme, st, evs[n - 1], a);
        lemma_run_frame(code, theme, evs, n - 1, a, b);
        if !st.stop {
            if let HlEvent::Source { start, end } = evs[n - 1] {
                if let Some(fr) = fragment(code, start as int, end as int) {
                    if st.stack.len() > 0 && st.stack.last() != TermColor::Reset {
                        lemma_parts_frame(split_on(fr, '\n'), st.stack.last(), a, b, st.k);
                    }
                }
            }
        }
    }
}

/// The text of the fragment in bytes `start..end` (see `fragment`).
fn fragment_exec(code: &Vec<char>, start: usize, end: usize) -> (r: Option<Vec<char>>)
    ensures
        match fragment(code@, start as int, end as int) {
            Some(fr) => r matches Some(v) && v@ == fr,
            None => r is None,
        },
{
    let a = crate::fields::byte_prefix_exec(code, start);
    let b = crate::fields::byte_prefix_exec(code, end);
    match (a, b) {
        (Some(x), Some(y)) => {
            if x <= y {
                let v = crate::ansi::slice_vec(code, x, y);
                Some(v)
            } else {
                None
            }
        },
        _ => None,
    }
}

/// Adds source text in a color (see `colored_parts`).
fn colored_parts_exec(out: &mut Vec<char>, fr: &Vec<char>, color: TermColor, fl: Ghost<Seq<bool>>) -> (r: Ghost<Seq<bool>>)
    ensures
        r@.len() >= fl@.len(),
        r@.take(fl@.len() as int) == fl@,
        ({
            let (t, k2) = colored_parts(split_on(fr@, '\n'), color, r@, fl@.len() as int);
            final(out)@ == old(out)@ + t && k2 == r@.len()
        }),
{
    let parts = crate::text::split_chars(fr.as_slice(), '\n');
    let ghost pv = split_on(fr@, '\n');
    let ghost base = out@;
    let ghost k0 = fl@.len() as int;
    let ghost mut f = fl@;
    let st = TextStyle { fg: Some(color), bg: None, bold: false, dim: false, italic: false, underlined: false };
    let mut p: usize = 0;
    assert(pv.take(0) =~= Seq::<Seq<char>>::empty());
    assert(f.take(k0) =~= fl@);
    while p < parts.len()
        invariant
            pv == split_on(fr@, '\n'),
            parts@.len() == pv.len(),
            forall|q: int| 0 <= q < parts@.len() ==> #[trigger] parts@[q]@ == pv[q],
            st == (TextStyle { fg: Some(color), ..plain_spec() }),
            k0 == fl@.len(),
            p <= parts@.len(),
            f.len() >= k0,
            f.take(k0) == fl@,
            out@ == base + colored_parts(pv.take(p as int), color, f, k0).0,
            colored_parts(pv.take(p as int), color, f, k0).1 == f.len(),
        decreases parts.len() - p,
    {
        assert(pv.take(p + 1).drop_last() =~= pv.take(p as int));
        assert(pv.take(p + 1).last() == parts@[p as int]@);
        if p > 0 {
            out.push('\n');
        }
        if parts[p].len() > 0 {
            let (x, g) = crate::paint::paint_logged(&parts[p], st);
            crate::text::extend_chars(out, x.as_slice());
            let ghost old_f = f;
            proof {
                f = f.push(g@);
                lemma_parts_frame(pv.take(p as int), color, old_f, f, k0);
                assert(f.take(k0) =~= old_f.take(k0));
            }
        }
        p += 1;
    }
    assert(pv.take(parts@.len() as int) =~= pv);
    Ghost(f)
}

/// Highlights code from its events (see `highlighted`): source text in the
/// color of the innermost highlight, cut to the width when one is given.
pub fn highlight_events(code: &str, events: &Vec<HlEvent>, theme: &CodeTheme, max_width: Option<usize>) -> (r: String)
    ensures
        exists|f: Seq<bool>| r@ == highlighted(code@, *theme, events@, max_width, f),
{
    let cv = crate::text::chars_of(code);
    let mut out: Vec<char> = Vec::new();
    let mut stack: Vec<TermColor> = Vec::new();
    let mut stop = false;
    let ghost mut fl: Seq<bool> = Seq::empty();
    let mut i: usize = 0;
    while i < events.len()
        invariant
            cv@ == code@,
            i <= events@.len(),
            hl_run(code@, *theme, events@, i as int, fl) == (HlState { out: out@, stack: stack@, k: fl.len() as int, stop }),
        decreases events.len() - i,
    {
        let ghost st0 = hl_run(code@, *theme, events@, i as int, fl);
        let ghost f0 = fl;
        if !stop {
            match events[i] {
                HlEvent::Source { start, end } => match fragment_exec(&cv, start, end) {
                    Some(fr) => {
                        if stack.len() > 0 && stack[stack.len() - 1] != TermColor::Reset {
                            let color = stack[stack.len() - 1];
                            let g = colored_parts_exec(&mut out, &fr, color, Ghost(fl));
                            proof {
                                fl = g@;
                            }
                        } else {
                            crate::text::extend_chars(&mut out, fr.as_slice());
                        }
                    },
                    None => {
                        stop = true;
                    },
                },
                HlEvent::Start(idx) => {
                    stack.push(theme.color_for_index(idx));
                },
                HlEvent::End => {
                    if stack.len() > 0 {
                        stack.pop();
                    }
                },
                HlEvent::Error => {
                    stop = true;
                },
            }
        }
        proof {
            lemma_run_frame(code@, *theme, events@, i as int, f0, fl);
        }
        i += 1;
    }
    let raw = out;
    let r = match max_width {
        Some(w) => wrap_highlighted_chars(&raw, w),
        None => raw,
    };
    let s = crate::text::string_of(r.as_slice());
    assert(s@ == highlighted(code@, *theme, events@, max_width, fl));
    s
}

} // verus!

verus! {

/// The events `tree_sitter_highlight::Highlighter::highlight` gives for
/// `code` with the language's configuration set up for the capture names
/// `names`, converted one for one (an iteration error as `Error`); none when
/// the configuration or the highlighting fails.
pub uninterp spec fn hl_events(lang: Lang, names: Seq<Seq<char>>, code: Seq<char>) -> Option<Seq<HlEvent>>;

/// Highlights `code` as Yaml with `tree_sitter_highlight` (configuration from
/// `tree_sitter_yaml`); the events are named by `hl_events`.
#[verifier::external_body]
fn events_yaml(code: &str, names: &[&str]) -> (r: Option<Vec<HlEvent>>)
    ensures
        match r {
            Some(v) => hl_events(Lang::Yaml, names@.map_values(|s: &str| s@), code@) == Some(v@),
            None => hl_events(Lang::Yaml, names@.map_values(|s: &str| s@), code@) is None,
        },
{
    let mut c = HighlightConfiguration::new(tree_sitter_yaml::LANGUAGE.into(), "yaml", tree_sitter_yaml::HIGHLIGHTS_QUERY, "", "").ok()?;
    c.configure(names);
    let mut h = Highlighter::new();
    let it = h.highlight(&c, code.as_bytes(), None, None, |_| None).ok()?;
    Some(it.map(|e| match e {
        Ok(HighlightEvent::Source { start, end }) => HlEvent::Source { start, end },
        Ok(HighlightEvent::HighlightStart(s)) => HlEvent::Start(s.0),
        Ok(HighlightEvent::HighlightEnd) => HlEvent::End,
        Err(_) => HlEvent::Error,
    }).collect())
}

/// Highlights `code` as Toml with `tree_sitter_highlight` (configuration from
/// `tree_sitter_toml_ng`); the events are named by `hl_events`.
#[verifier::external_body]
fn events_toml(code: &str, names: &[&str]) -> (r: Option<Vec<HlEvent>>)
    ensures
        match r {
            Some(v) => hl_events(Lang::Toml, names@.map_values(|s: &str| s@), code@) == Some(v@),
            None => hl_events(Lang::Toml, names@.map_values(|s: &str| s@), code@) is None,
        },
{
    let mut c = HighlightConfiguration::new(tree_sitter_toml_ng::LANGUAGE.into(), "toml", tree_sitter_toml_ng::HIGHLIGHTS_QUERY, "", "").ok()?;
    c.configure(names);
    let mut h = Highlighter::new();
    let it = h.highlight(&c, code.as_bytes(), None, None, |_| None).ok()?;
    Some(it.map(|e| match e {
        Ok(HighlightEvent::Source { start, end }) => HlEvent::Source { start, end },
        Ok(HighlightEvent::HighlightStart(s)) => HlEvent::Start(s.0),
        Ok(HighlightEvent::HighlightEnd) => HlEvent::End,
        Err(_) => HlEvent::Error,
    }).collect())
}

/// Highlights `code` as Rust with `tree_sitter_highlight` (configuration from
/// `tree_sitter_rust`); the events are named by `hl_events`.
#[verifier::external_body]
fn events_rust(code: &str, names: &[&str]) -> (r: Option<Vec<HlEvent>>)
    ensures
        match r {
            Some(v) => hl_events(Lang::Rust, names@.map_values(|s: &str| s@), code@) == Some(v@),
            None => hl_events(Lang::Rust, names@.map_values(|s: &str| s@), code@) is None,
        },
{
    let mut c = HighlightConfiguration::new(tree_sitter_rust::LANGUAGE.into(), "rust", tree_sitter_rust::HIGHLIGHTS_QUERY, tree_sitter_rust::INJECTIONS_QUERY, "").ok()?;
    c.configure(names);
    let mut h = Highlighter::new();
    let it = h.highlight(&c, code.as_bytes(), None, None, |_| None).ok()?;
    Some(it.map(|e| match e {
        Ok(HighlightEvent::Source { start, end }) => HlEvent::Source { start, end },
        Ok(HighlightEvent::HighlightStart(s)) => HlEvent::Start(s.0),
        Ok(HighlightEvent::HighlightEnd) => HlEvent::End,
        Err(_) => HlEvent::Error,
    }).collect())
}

/// Highlights `code` as Bash with `tree_sitter_highlight` (configuration from
/// `tree_sitter_bash`); the events are named by `hl_events`.
#[verifier::external_body]
fn events_bash(code: &str, names: &[&str]) -> (r: Option<Vec<HlEvent>>)
    ensures
        match r {
            Some(v) => hl_events(Lang::Bash, names@.map_values(|s: &str| s@), code@) == Some(v@),
            None => hl_events(Lang::Bash, names@.map_values(|s: &str| s@), code@) is None,
        },
{
    let mut c = HighlightConfiguration::new(tree_sitter_bash::LANGUAGE.into(), "bash", tree_sitter_bash::HIGHLIGHT_QUERY, "", "").ok()?;
    c.configure(names);
    let mut h = Highlighter::new();
    let it = h.highlight(&c, code.as_bytes(), None, None, |_| None).ok()?;
    Some(it.map(|e| match e {
        Ok(HighlightEvent::Source { start, end }) => HlEvent::Source { start, end },
        Ok(HighlightEvent::HighlightStart(s)) => HlEvent::Start(s.0),
        Ok(HighlightEvent::HighlightEnd) => HlEvent::End,
        Err(_) => HlEvent::Error,
    }).collect())
}

/// Highlights `code` as Python with `tree_sitter_highlight` (configuration from
/// `tree_sitter_python`); the events are named by `hl_events`.
#[verifier::external_body]
fn events_python(code: &str, names: &[&str]) -> (r: Option<Vec<HlEvent>>)
    ensures
        match r {
            Some(v) => hl_events(Lang::Python, names@.map_values(|s: &str| s@), code@) == Some(v@),
            None => hl_events(Lang::Python, names@.map_values(|s: &str| s@), code@) is None,
        },
{
    let mut c = HighlightConfiguration::new(tree_sitter_python::LANGUAGE.into(), "python", tree_sitter_python::HIGHLIGHTS_QUERY, "", "").ok()?;
    c.configure(names);
    let mut h = Highlighter::new();
    let it = h.highlight(&c, code.as_bytes(), None, None, |_| None).ok()?;
    Some(it.map(|e| match e {
        Ok(HighlightEvent::Source { start, end }) => HlEvent::Source { start, end },
        Ok(HighlightEvent::HighlightStart(s)) => HlEvent::Start(s.0),
        Ok(HighlightEvent::HighlightEnd) => HlEvent::End,
        Err(_) => HlEvent::Error,
    }).collect())
}

/// Highlights `code` as JavaScript with `tree_sitter_highlight` (configuration from
/// `tree_sitter_javascript`); the events are named by `hl_events`.
#[verifier::external_body]
fn events_javascript(code: &str, names: &[&str]) -> (r: Option<Vec<HlEvent>>)
    ensures
        match r {
            Some(v) => hl_events(Lang::JavaScript, names@.map_values(|s: &str| s@), code@) == Some(v@),
            None => hl_events(Lang::JavaScript, names@.map_values(|s: &str| s@), code@) is None,
        },
{
    let mut c = HighlightConfiguration::new(tree_sitter_javascript::LANGUAGE.into(), "javascript", tree_sitter_javascript::HIGHLIGHT_QUERY, tree_sitter_javascript::INJECTIONS_QUERY, "").ok()?;
    c.configure(names);
    let mut h = Highlighter::new();
    let it = h.highlight(&c, code.as_bytes(), None, None, |_| None).ok()?;
    Some(it.map(|e| match e {
        Ok(HighlightEvent::Source { start, end }) => HlEvent::Source { start, end },
        Ok(HighlightEvent::HighlightStart(s)) => HlEvent::Start(s.0),
        Ok(HighlightEvent::HighlightEnd) => HlEvent::End,
        Err(_) => HlEvent::Error,
    }).collect())
}

/// Highlights `code` as TypeScript with `tree_sitter_highlight` (configuration from
/// `tree_sitter_typescript`); the events are named by `hl_events`.
#[verifier::external_body]
fn events_typescript(code: &str, names: &[&str]) -> (r: Option<Vec<HlEvent>>)
    ensures
        match r {
            Some(v) => hl_events(Lang::TypeScript, names@.map_values(|s: &str| s@), code@) == Some(v@),
            None => hl_events(Lang::TypeScript, names@.map_values(|s: &str| s@), code@) is None,
        },
{
    let mut c = HighlightConfiguration::new(tree_sitter_typescript::LANGUAGE_TYPESCRIPT.into(), "typescript", tree_sitter_typescript::HIGHLIGHTS_QUERY, "", "").ok()?;
    c.configure(names);
    let mut h = Highlighter::new();
    let it = h.highlight(&c, code.as_bytes(), None, None, |_| None).ok()?;
    Some(it.map(|e| match e {
        Ok(HighlightEvent::Source { start, end }) => HlEvent::Source { start, end },
        Ok(HighlightEvent::HighlightStart(s)) => HlEvent::Start(s.0),
        Ok(HighlightEvent::HighlightEnd) => HlEvent::End,
        Err(_) => HlEvent::Error,
    }).collect())
}

/// Highlights `code` as Go with `tree_sitter_highlight` (configuration from
/// `tree_sitter_go`); the events are named by `hl_events`.
#[verifier::external_body]
fn events_go(code: &str, names: &[&str]) -> (r: Option<Vec<HlEvent>>)
    ensures
        match r {
            Some(v) => hl_events(Lang::Go, names@.map_values(|s: &str| s@), code@) == Some(v@),
            None => hl_events(Lang::Go, names@.map_values(|s: &str| s@), code@) is None,
        },
{
    let mut c = HighlightConfiguration::new(tree_sitter_go::LANGUAGE.into(), "go", tree_sitter_go::HIGHLIGHTS_QUERY, "", "").ok()?;
    c.configure(names);
    let mut h = Highlighter::new();
    let it = h.highlight(&c, code.as_bytes(), None, None, |_| None).ok()?;
    Some(it.map(|e| match e {
        Ok(HighlightEvent::Source { start, end }) => HlEvent::Source { start, end },
        Ok(HighlightEvent::HighlightStart(s)) => HlEvent::Start(s.0),
        Ok(HighlightEvent::HighlightEnd) => HlEvent::End,
        Err(_) => HlEvent::Error,
    }).collect())
}

/// Highlights `code` as Json with `tree_sitter_highlight` (configuration from
/// `tree_sitter_json`); the events are named by `hl_events`.
#[verifier::external_body]
fn events_json(code: &str, names: &[&str]) -> (r: Option<Vec<HlEvent>>)
    ensures
        match r {
            Some(v) => hl_events(Lang::Json, names@.map_values(|s: &str| s@), code@) == Some(v@),
            None => hl_events(Lang::Json, names@.map_values(|s: &str| s@), code@) is None,
        },
{
    let mut c = HighlightConfiguration::new(tree_sitter_json::LANGUAGE.into(), "json", tree_sitter_json::HIGHLIGHTS_QUERY, "", "").ok()?;
    c.configure(names);
    let mut h = Highlighter::new();
    let it = h.highlight(&c, code.as_bytes(), None, None, |_| None).ok()?;
    Some(it.map(|e| match e {
        Ok(HighlightEvent::Source { start, end }) => HlEvent::Source { start, end },
        Ok(HighlightEvent::HighlightStart(s)) => HlEvent::Start(s.0),
        Ok(HighlightEvent::HighlightEnd) => HlEvent::End,
        Err(_) => HlEvent::Error,
    }).collect())
}

/// The events for a language (see `hl_events`).
fn events_for(lang: Lang, code: &str, names: &[&str]) -> (r: Option<Vec<HlEvent>>)
    ensures
        match r {
            Some(v) => hl_events(lang, names@.map_values(|s: &str| s@), code@) == Some(v@),
            None => hl_events(lang, names@.map_values(|s: &str| s@), code@) is None,
        },
{
    match lang {
        Lang::Yaml => events_yaml(code, names),
        Lang::Toml => events_toml(code, names),
        Lang::Rust => events_rust(code, names),
        Lang::Bash => events_bash(code, names),
        Lang::Python => events_python(code, names),
        Lang::JavaScript => events_javascript(code, names),
        Lang::TypeScript => events_typescript(code, names),
        Lang::Go => events_go(code, names),
        Lang::Json => events_json(code, names),
    }
}

} // verus!

verus! {

/// `s` in lower case, as `str::to_lowercase` gives it.
pub uninterp spec fn lowercase(s: Seq<char>) -> Seq<char>;

/// Lower-cases `s` with `str::to_lowercase`; the result is named by
/// `lowercase`.
#[verifier::external_body]
fn to_lowercase(s: &str) -> (r: String)
    ensures
        r@ == lowercase(s@),
{
    s.to_lowercase()
}

/// The language a lower-case name stands for: its full name or its usual
/// short forms.
pub open spec fn lang_named(n: Seq<char>) -> Option<Lang> {
    if n == "yaml"@ {
        Some(Lang::Yaml)
    } else if n == "toml"@ {
        Some(Lang::Toml)
    } else if n == "rust"@ || n == "rs"@ {
        Some(Lang::Rust)
    } else if n == "bash"@ || n == "sh"@ || n == "zsh"@ {
        Some(Lang::Bash)
    } else if n == "python"@ || n == "py"@ {
        Some(Lang::Python)
    } else if n == "javascript"@ || n == "js"@ {
        Some(Lang::JavaScript)
    } else if n == "typescript"@ || n == "ts"@ {
        Some(Lang::TypeScript)
    } else if n == "go"@ {
        Some(Lang::Go)
    } else if n == "json"@ {
        Some(Lang::Json)
    } else {
        None
    }
}

/// The language a name stands for, in any letter case.
fn lang_of(name: &str) -> (r: Option<Lang>)
    ensures
        r == lang_named(lowercase(name@)),
{
    let low = to_lowercase(name);
    let n = low.as_str();
    if str_eq(n, "yaml") {
        Some(Lang::Yaml)
    } else if str_eq(n, "toml") {
        Some(Lang::Toml)
    } else if str_eq(n, "rust") || str_eq(n, "rs") {
        Some(Lang::Rust)
    } else if str_eq(n, "bash") || str_eq(n, "sh") || str_eq(n, "zsh") {
        Some(Lang::Bash)
    } else if str_eq(n, "python") || str_eq(n, "py") {
        Some(Lang::Python)
    } else if str_eq(n, "javascript") || str_eq(n, "js") {
        Some(Lang::JavaScript)
    } else if str_eq(n, "typescript") || str_eq(n, "ts") {
        Some(Lang::TypeScript)
    } else if str_eq(n, "go") {
        Some(Lang::Go)
    } else if str_eq(n, "json") {
        Some(Lang::Json)
    } else {
        None
    }
}

/// The characters of a name, when there is one.
pub open spec fn name_view(name: Option<&str>) -> Option<Seq<char>> {
    match name {
        Some(s) => Some(s@),
        None => None,
    }
}

/// Plain code with uniform line breaks, cut to the width when one is given.
pub open spec fn plain_code(code: Seq<char>, max_width: Option<usize>) -> Seq<char> {
    match max_width {
        Some(w) => wrap_highlighted_spec(clean_breaks(code), w as int),
        None => clean_breaks(code),
    }
}

/// Highlighted code: plain (see `plain_code`) without a language, with a name
/// that stands for none, or where the highlighter gives no events; else the
/// events for the capture names, colored by the theme (see `highlighted`).
pub open spec fn highlight_spec(
    code: Seq<char>,
    lang: Option<Seq<char>>,
    theme: CodeTheme,
    max_width: Option<usize>,
    f: Seq<bool>,
) -> Seq<char> {
    match lang {
        None => plain_code(code, max_width),
        Some(n) => match lang_named(lowercase(n)) {
            None => plain_code(code, max_width),
            Some(l) => match hl_events(l, capture_names(), code) {
                None => plain_code(code, max_width),
                Some(evs) => highlighted(code, theme, evs, max_width, f),
            },
        },
    }
}

impl SyntaxHighlighter {
    /// Highlights `code` in the named language with the theme's colors, cut
    /// to `max_width` columns when a width is given; plain code where the
    /// language is missing or unknown or highlighting fails.
    pub fn highlight(code: &str, lang: Option<&str>, theme: &CodeTheme, max_width: Option<usize>) -> (r: String)
        ensures
            exists|f: Seq<bool>|
                r@ == highlight_spec(code@, name_view(lang), *theme, max_width, f),
    {
        let ghost lv = name_view(lang);
        let ghost none: Seq<bool> = Seq::empty();
        let name = match lang {
            Some(n) => n,
            None => {
                let r = Self::wrap_plain_code(code, max_width);
                assert(r@ == highlight_spec(code@, lv, *theme, max_width, none));
                return r;
            },
        };
        let l = match lang_of(name) {
            Some(l) => l,
            None => {
                let r = Self::wrap_plain_code(code, max_width);
                assert(r@ == highlight_spec(code@, lv, *theme, max_width, none));
                return r;
            },
        };
        let names = highlight_names();
        let evs = match events_for(l, code, names.as_slice()) {
            Some(evs) => evs,
            None => {
                let r = Self::wrap_plain_code(code, max_width);
                assert(r@ == highlight_spec(code@, lv, *theme, max_width, none));
                return r;
            },
        };
        let r = highlight_events(code, &evs, theme, max_width);
        let ghost f = choose|f: Seq<bool>| r@ == highlighted(code@, *theme, evs@, max_width, f);
        assert(r@ == highlight_spec(code@, lv, *theme, max_width, f));
        r
    }
}

} // verus!
