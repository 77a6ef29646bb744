//! The text widget: a static prefix (wrapped, with an optional side stripe,
//! underline and margin), then the dynamic text (plain or markdown) after an
//! animated spinner icon, scrollable with the arrow keys.
use vstd::prelude::*;
use crate::theme::CodeTheme;
use crate::ansi::{active_fg, normalize_text, reset_sequence, visible_width_spec, wrap_terminal_text_spec};
use crate::block::{min_int, reps, sub0};
use crate::input::KeyCode;
use crate::md::{colored, md_parse, md_render, Markdown, Paint};
use crate::paint::{plain_spec, styled_spec, TermColor, TextStyle};
use crate::style::{line_char, spinner_frames, stripe_char, BulletStyle, LineStyle, SpinnerStyle, StripeStyle};
use crate::text::{cviews, lines_of, split_on};

verus! {

/// The text widget's settings and state.
pub struct Text {
    /// Text shown above the dynamic content.
    pub static_prefix: String,
    pub spinner_style: SpinnerStyle,
    /// Index of the next spinner frame.
    pub frame_idx: usize,
    pub spinner_color: Option<TermColor>,
    /// Stripe left of the prefix lines.
    pub prefix_stripe: StripeStyle,
    /// Line under the prefix.
    pub prefix_line: LineStyle,
    /// Color of the stripe and the underline (the spinner's when unset).
    pub prefix_color: Option<TermColor>,
    /// Blank lines between the prefix and the content.
    pub prefix_margin: usize,
    /// Lines scrolled off the top.
    pub scroll_offset: usize,
    /// Whether the layout changed since the last frame.
    pub is_changed: bool,
    /// Markdown settings; the content is plain wrapped text without them.
    pub markdown: Option<Markdown>,
}

/// Whether a spinner icon is drawn.
pub open spec fn spinner_shown(t: Text, is_final: bool) -> bool {
    !is_final && spinner_frames(t.spinner_style).len() > 0
}

/// The spinner text: the current frame in the spinner color and a space;
/// nothing on the final frame or without frames.
pub open spec fn spinner_text(t: Text, is_final: bool, on: bool) -> Seq<char> {
    if spinner_shown(t, is_final) {
        let fr = spinner_frames(t.spinner_style);
        colored(seq![fr[(t.frame_idx as int) % (fr.len() as int)]], t.spinner_color, on) + seq![' ']
    } else {
        Seq::empty()
    }
}

/// The color of the stripe and the underline.
pub open spec fn side_color(t: Text) -> Option<TermColor> {
    match t.prefix_color {
        Some(c) => Some(c),
        None => t.spinner_color,
    }
}

/// The stripe before each prefix line: the stripe character and a space,
/// colored; nothing without a stripe.
pub open spec fn sideline(t: Text, on: bool) -> Seq<char> {
    if t.prefix_stripe is Hidden {
        Seq::empty()
    } else {
        colored(seq![stripe_char(t.prefix_stripe), ' '], side_color(t), on)
    }
}

/// Prefix lines produced so far and the color escape still active.
pub struct PrefixState {
    pub lines: Seq<Seq<char>>,
    pub active: Seq<char>,
}

/// Adds wrapped pieces: a non-empty one as it is (its active color, if any,
/// becomes the carried one), an empty one as the carried color alone.
pub open spec fn place_sublines(st: PrefixState, subs: Seq<Seq<char>>) -> PrefixState
    decreases subs.len(),
{
    if subs.len() == 0 {
        st
    } else {
        let s0 = place_sublines(st, subs.drop_last());
        let sub = subs.last();
        if sub.len() > 0 {
            PrefixState {
                lines: s0.lines.push(sub),
                active: match active_fg(sub) {
                    Some(c) => c,
                    None => s0.active,
                },
            }
        } else {
            PrefixState { lines: s0.lines.push(s0.active), active: s0.active }
        }
    }
}

/// A prefix line wrapped to `target` columns; left whole without a positive width.
pub open spec fn prefix_sublines(line: Seq<char>, target: Option<int>) -> Seq<Seq<char>> {
    match target {
        Some(w) => if w > 0 { wrap_terminal_text_spec(line, w as nat) } else { seq![line] },
        None => seq![line],
    }
}

/// The raw prefix lines wrapped in turn, each starting with the color carried
/// from the line before.
pub open spec fn prefix_fold(raws: Seq<Seq<char>>, target: Option<int>) -> PrefixState
    decreases raws.len(),
{
    if raws.len() == 0 {
        PrefixState { lines: Seq::empty(), active: Seq::empty() }
    } else {
        let st = prefix_fold(raws.drop_last(), target);
        place_sublines(st, prefix_sublines(st.active + raws.last(), target))
    }
}

/// The wrapped prefix lines, in `max_width` less the stripe.
pub open spec fn prefix_lines(t: Text, max_width: Option<usize>, on: bool) -> Seq<Seq<char>> {
    let sw = visible_width_spec(sideline(t, on)) as int;
    let target = match max_width {
        Some(w) => Some(sub0(w as int, sw)),
        None => None,
    };
    prefix_fold(split_on(normalize_text(t.static_prefix@), '\n'), target).lines
}

/// The prefix block: each prefix line after the stripe, closed by a reset.
pub open spec fn prefix_block(t: Text, max_width: Option<usize>, on: bool) -> Seq<Seq<char>> {
    if t.static_prefix@.len() == 0 {
        Seq::empty()
    } else {
        let pl = prefix_lines(t, max_width, on);
        Seq::new(pl.len(), |i: int| sideline(t, on) + pl[i] + reset_sequence())
    }
}

/// The widest visible width of the lines, 0 for none.
pub open spec fn max_vis(ls: Seq<Seq<char>>) -> int
    decreases ls.len(),
{
    if ls.len() == 0 {
        0
    } else {
        let m = max_vis(ls.drop_last());
        let x = visible_width_spec(ls.last()) as int;
        if x > m { x } else { m }
    }
}

/// `s` dimmed in `color`, unchanged without one.
pub open spec fn dimmed(s: Seq<char>, color: Option<TermColor>, on: bool) -> Seq<char> {
    match color {
        Some(c) => styled_spec(s, TextStyle { fg: Some(c), dim: true, ..plain_spec() }, on),
        None => s,
    }
}

/// The underline: as wide as the widest prefix line (at most `max_width`),
/// after the stripe when there is one.
pub open spec fn underline(t: Text, max_width: Option<usize>, pmw: int, f1: bool, f2: bool) -> Seq<char> {
    let ul = match max_width {
        Some(w) => min_int(pmw, w as int),
        None => pmw,
    };
    let ch = line_char(t.prefix_line);
    if t.prefix_stripe is Hidden {
        dimmed(reps(ch, ul), side_color(t), f2)
    } else {
        let sp = sideline(t, f1);
        sp + dimmed(reps(ch, sub0(ul, visible_width_spec(sp) as int)), side_color(t), f2)
    }
}

/// `s` without trailing line breaks and carriage returns.
pub open spec fn trim_end_breaks(s: Seq<char>) -> Seq<char>
    decreases s.len(),
{
    if s.len() > 0 && (s.last() == '\n' || s.last() == '\r') {
        trim_end_breaks(s.drop_last())
    } else {
        s
    }
}

/// The lines of the dynamic text: without a width its lines as they are;
/// with one, less the spinner, nothing when no column is left, otherwise the
/// markdown rendering (unparsable text as it is) without trailing line
/// breaks, or the text wrapped when markdown is off.
pub open spec fn content_lines(t: Text, state: Seq<char>, max_width: Option<usize>, sw: int, p: Paint) -> Seq<Seq<char>> {
    match max_width {
        Some(w) => {
            let acw = sub0(w as int, sw);
            if acw == 0 {
                Seq::empty()
            } else {
                match t.markdown {
                    Some(md) => {
                        let rendered = match md_parse(state) {
                            Some(tree) => md_render(md, tree, acw, Seq::empty(), p),
                            None => state,
                        };
                        let trimmed = trim_end_breaks(rendered);
                        if trimmed.len() == 0 { Seq::empty() } else { lines_of(trimmed) }
                    },
                    None => wrap_terminal_text_spec(state, acw as nat),
                }
            }
        },
        None => lines_of(state),
    }
}

/// The lines without trailing ones of no visible width.
pub open spec fn drop_blank_tail(ls: Seq<Seq<char>>) -> Seq<Seq<char>>
    decreases ls.len(),
{
    if ls.len() > 0 && visible_width_spec(ls.last()) == 0 {
        drop_blank_tail(ls.drop_last())
    } else {
        ls
    }
}

/// Whether color output was on for each colored part of a frame: the spinner,
/// the stripe of the prefix block, the stripe and the dimmed run of the
/// underline, the margin stripe, and the markdown content.
pub struct FramePaint {
    pub spin: bool,
    pub side: bool,
    pub line_side: bool,
    pub line_dim: bool,
    pub margin: bool,
    pub md: Paint,
}

/// The lines above the dynamic text: the prefix block, the underline when
/// there is a prefix and a line style, and the margin after either.
pub open spec fn head_lines(t: Text, max_width: Option<usize>, fp: FramePaint) -> Seq<Seq<char>> {
    let pb = prefix_block(t, max_width, fp.side);
    let pmw = max_vis(pb);
    let ul_shown = !(t.prefix_line is Hidden) && t.static_prefix@.len() > 0 && pmw > 0;
    let ul = if ul_shown { seq![underline(t, max_width, pmw, fp.line_side, fp.line_dim)] } else { Seq::empty() };
    let margin = if (pb.len() > 0 || ul_shown) && t.prefix_margin > 0 {
        Seq::new(t.prefix_margin as nat, |i: int| sideline(t, fp.margin))
    } else {
        Seq::empty()
    };
    pb + ul + margin
}

/// The dynamic lines: the first after the spinner, the others indented as
/// far, each closed by a reset; the spinner alone without content.
pub open spec fn dyn_lines(t: Text, state: Seq<char>, max_width: Option<usize>, is_final: bool, fp: FramePaint) -> Seq<Seq<char>> {
    let spin = spinner_text(t, is_final, fp.spin);
    let sw = visible_width_spec(spin) as int;
    let cl = content_lines(t, state, max_width, sw, fp.md);
    if cl.len() == 0 {
        seq![spin]
    } else {
        Seq::new(cl.len(), |i: int| (if i == 0 { spin } else { reps(' ', sw) }) + cl[i] + reset_sequence())
    }
}

/// The lines of a frame before scrolling, without trailing blank ones.
pub open spec fn frame_lines(t: Text, state: Seq<char>, max_width: Option<usize>, is_final: bool, fp: FramePaint) -> Seq<Seq<char>> {
    drop_blank_tail(head_lines(t, max_width, fp) + dyn_lines(t, state, max_width, is_final, fp))
}

/// A frame: its lines less the first `scroll_offset` when that leaves some.
pub open spec fn text_frame(t: Text, state: Seq<char>, max_width: Option<usize>, is_final: bool, fp: FramePaint) -> Seq<Seq<char>> {
    let all = frame_lines(t, state, max_width, is_final, fp);
    if t.scroll_offset > 0 && t.scroll_offset < all.len() {
        all.skip(t.scroll_offset as int)
    } else {
        all
    }
}

/// The widget after drawing a frame: the spinner advanced when shown, the
/// change mark cleared.
pub open spec fn after_frame(t: Text, is_final: bool) -> Text {
    Text {
        frame_idx: if spinner_shown(t, is_final) {
            if t.frame_idx == usize::MAX { 0 } else { (t.frame_idx + 1) as usize }
        } else {
            t.frame_idx
        },
        is_changed: false,
        ..t
    }
}

/// The scroll offset after a key: up and `k` one line back (not past the
/// top), down and `j` one line on, page up five back, page down five on.
pub open spec fn scrolled(off: usize, key: KeyCode) -> (usize, bool) {
    match key {
        KeyCode::Up => if off > 0 { ((off - 1) as usize, true) } else { (off, false) },
        KeyCode::Char(c) => if c == 'k' {
            if off > 0 { ((off - 1) as usize, true) } else { (off, false) }
        } else if c == 'j' {
            ((off + 1) as usize, true)
        } else {
            (off, false)
        },
        KeyCode::Down => ((off + 1) as usize, true),
        KeyCode::PageUp => if off > 0 { (sub0(off as int, 5) as usize, true) } else { (off, false) },
        KeyCode::PageDown => ((off + 5) as usize, true),
        _ => (off, false),
    }
}

/// How far a key scrolls down (for the room it needs).
pub open spec fn scroll_step(key: KeyCode) -> int {
    match key {
        KeyCode::Down => 1,
        KeyCode::Char(c) => if c == 'j' { 1 } else { 0 },
        KeyCode::PageDown => 5,
        _ => 0,
    }
}

} // verus!

verus! {

/// An optional width as an optional integer.
pub open spec fn opt_int(o: Option<usize>) -> Option<int> {
    match o {
        Some(w) => Some(w as int),
        None => None,
    }
}

fn reset_exec() -> (r: Vec<char>)
    ensures
        r@ == reset_sequence(),
{
    let r = vec!['\x1b', '[', '0', 'm'];
    assert(r@ =~= reset_sequence());
    r
}

/// `a` followed by `b` and `c`.
fn cat3(a: &Vec<char>, b: &Vec<char>, c: &Vec<char>) -> (r: Vec<char>)
    ensures
        r@ == a@ + b@ + c@,
{
    let mut r = a.clone();
    crate::text::extend_chars(&mut r, b.as_slice());
    crate::text::extend_chars(&mut r, c.as_slice());
    r
}

/// Adds wrapped pieces to the prefix lines (see `place_sublines`).
fn place_sublines_exec(lines: &mut Vec<Vec<char>>, active: &mut Vec<char>, subs: &Vec<Vec<char>>)
    ensures
        place_sublines(PrefixState { lines: cviews(old(lines)@), active: old(active)@ }, cviews(subs@))
            == (PrefixState { lines: cviews(final(lines)@), active: final(active)@ }),
{
    let ghost st0 = PrefixState { lines: cviews(lines@), active: active@ };
    let ghost sv = cviews(subs@);
    let mut k: usize = 0;
    assert(sv.take(0) =~= Seq::<Seq<char>>::empty());
    while k < subs.len()
        invariant
            sv == cviews(subs@),
            k <= subs@.len(),
            place_sublines(st0, sv.take(k as int)) == (PrefixState { lines: cviews(lines@), active: active@ }),
        decreases subs.len() - k,
    {
        assert(sv.take(k + 1).drop_last() =~= sv.take(k as int));
        assert(sv[k as int] == subs@[k as int]@);
        let ghost b = lines@;
        if subs[k].len() > 0 {
            lines.push(subs[k].clone());
            match crate::ansi::active_color_chars(&subs[k]) {
                Some(c) => {
                    *active = c;
                },
                None => {},
            }
        } else {
            lines.push(active.clone());
        }
        assert(cviews(lines@) =~= cviews(b).push(lines@[b.len() as int]@));
        k += 1;
    }
    assert(sv.take(subs@.len() as int) =~= sv);
}

impl Text {
    /// The spinner text (see `spinner_text`).
    fn spinner_exec(&self, is_final: bool) -> (r: (Vec<char>, Ghost<bool>))
        ensures
            r.0@ == spinner_text(*self, is_final, r.1@),
    {
        let frames = self.spinner_style.frames();
        if is_final || frames.len() == 0 {
            return (Vec::new(), Ghost(true));
        }
        let icon: Vec<char> = vec![frames[self.frame_idx % frames.len()]];
        let (mut s, on) = crate::md::colored_exec(&icon, self.spinner_color);
        s.push(' ');
        assert(icon@ =~= seq![spinner_frames(self.spinner_style)[(self.frame_idx as int) % (frames@.len() as int)]]);
        (s, on)
    }

    /// The stripe before prefix lines (see `sideline`).
    fn sideline_exec(&self) -> (r: (Vec<char>, Ghost<bool>))
        ensures
            r.0@ == sideline(*self, r.1@),
    {
        match self.prefix_stripe {
            StripeStyle::Hidden => (Vec::new(), Ghost(true)),
            _ => {
                let raw: Vec<char> = vec![self.prefix_stripe.char(), ' '];
                let color = match self.prefix_color {
                    Some(c) => Some(c),
                    None => self.spinner_color,
                };
                assert(raw@ =~= seq![stripe_char(self.prefix_stripe), ' ']);
                crate::md::colored_exec(&raw, color)
            },
        }
    }

    /// The wrapped prefix lines for a wrap width (see `prefix_fold`).
    fn prefix_lines_exec(&self, target: Option<usize>) -> (r: Vec<Vec<char>>)
        ensures
            cviews(r@) == prefix_fold(split_on(normalize_text(self.static_prefix@), '\n'), opt_int(target)).lines,
    {
        let text = crate::text::chars_of(self.static_prefix.as_str());
        let a = crate::text::replace_crlf_exec(text.as_slice());
        let nl: Vec<char> = vec!['\n'];
        let b = crate::text::replace_char_exec(a.as_slice(), '\r', nl.as_slice());
        let sp = crate::text::repeat_char_exec(' ', 4);
        let c = crate::text::replace_char_exec(b.as_slice(), '\t', sp.as_slice());
        assert(nl@ =~= seq!['\n']);
        assert(c@ == normalize_text(self.static_prefix@));
        let raws = crate::text::split_chars(c.as_slice(), '\n');
        let ghost rv = split_on(c@, '\n');
        let ghost tg = opt_int(target);
        let mut lines: Vec<Vec<char>> = Vec::new();
        let mut active: Vec<char> = Vec::new();
        let mut i: usize = 0;
        assert(rv.take(0) =~= Seq::<Seq<char>>::empty());
        assert(cviews(lines@) =~= Seq::<Seq<char>>::empty());
        assert(active@ =~= Seq::<char>::empty());
        while i < raws.len()
            invariant
                rv == split_on(c@, '\n'),
                tg == opt_int(target),
                raws@.len() == rv.len(),
                forall|q: int| 0 <= q < raws@.len() ==> #[trigger] raws@[q]@ == rv[q],
                i <= raws@.len(),
                prefix_fold(rv.take(i as int), tg) == (PrefixState { lines: cviews(lines@), active: active@ }),
            decreases raws.len() - i,
        {
            assert(rv.take(i + 1).drop_last() =~= rv.take(i as int));
            assert(rv.take(i + 1).last() == raws@[i as int]@);
            let mut lwc = active.clone();
            crate::text::extend_chars(&mut lwc, raws[i].as_slice());
            let subs: Vec<Vec<char>> = match target {
                Some(w) => if w > 0 {
                    let s = crate::ansi::wrap_text_chars(&lwc, w);
                    assert(cviews(s@) =~= s@.map_values(|c: Vec<char>| c@));
                    s
                } else {
                    let s = vec![lwc.clone()];
                    assert(cviews(s@) =~= seq![lwc@]);
                    s
                },
                None => {
                    let s = vec![lwc.clone()];
                    assert(cviews(s@) =~= seq![lwc@]);
                    s
                },
            };
            assert(cviews(subs@) == prefix_sublines(lwc@, tg));
            place_sublines_exec(&mut lines, &mut active, &subs);
            i += 1;
        }
        assert(rv.take(raws@.len() as int) =~= rv);
        lines
    }
}

/// The widest visible width of the lines (see `max_vis`).
fn max_vis_exec(ls: &Vec<Vec<char>>) -> (r: usize)
    ensures
        r == max_vis(cviews(ls@)),
{
    let ghost lv = cviews(ls@);
    let mut m: usize = 0;
    let mut i: usize = 0;
    assert(lv.take(0) =~= Seq::<Seq<char>>::empty());
    while i < ls.len()
        invariant
            lv == cviews(ls@),
            i <= ls@.len(),
            m == max_vis(lv.take(i as int)),
        decreases ls.len() - i,
    {
        assert(lv.take(i + 1).drop_last() =~= lv.take(i as int));
        assert(lv[i as int] == ls@[i as int]@);
        let x = crate::ansi::visible_width_chars(ls[i].as_slice());
        if x > m {
            m = x;
        }
        i += 1;
    }
    assert(lv.take(ls@.len() as int) =~= lv);
    m
}

/// `s` without trailing line breaks (see `trim_end_breaks`).
pub(crate) fn trim_end_breaks_exec(s: &Vec<char>) -> (r: Vec<char>)
    ensures
        r@ == trim_end_breaks(s@),
{
    let mut n: usize = s.len();
    assert(s@.take(n as int) =~= s@);
    while n > 0 && (s[n - 1] == '\n' || s[n - 1] == '\r')
        invariant
            n <= s@.len(),
            trim_end_breaks(s@) == trim_end_breaks(s@.take(n as int)),
        decreases n,
    {
        assert(s@.take(n as int).drop_last() =~= s@.take(n - 1));
        n -= 1;
    }
    let r = crate::ansi::slice_vec(s, 0, n);
    assert(r@ =~= s@.take(n as int));
    r
}

/// A run of `c` dimmed in `color` (see `dimmed`).
fn dimmed_exec(s: &Vec<char>, color: Option<TermColor>) -> (r: (Vec<char>, Ghost<bool>))
    ensures
        r.0@ == dimmed(s@, color, r.1@),
{
    match color {
        Some(c) => {
            let st = TextStyle { fg: Some(c), bg: None, bold: false, dim: true, italic: false, underlined: false };
            crate::paint::paint_logged(s, st)
        },
        None => (s.clone(), Ghost(true)),
    }
}

} // verus!

verus! {

impl Text {
    /// The lines of the dynamic text (see `content_lines`).
    fn content_exec(&self, state: &str, max_width: Option<usize>, sw: usize) -> (r: (Vec<Vec<char>>, Ghost<Paint>))
        ensures
            cviews(r.0@) == content_lines(*self, state@, max_width, sw as int, r.1@),
    {
        let ghost none = Paint { flags: Seq::empty(), kids: Seq::empty() };
        match max_width {
            Some(w) => {
                let acw = if w > sw { w - sw } else { 0 };
                if acw == 0 {
                    let r: Vec<Vec<char>> = Vec::new();
                    assert(cviews(r@) =~= Seq::<Seq<char>>::empty());
                    return (r, Ghost(none));
                }
                match self.markdown {
                    Some(md) => {
                        let rendered = md.render(state, acw);
                        let ghost p = match md_parse(state@) {
                            Some(tree) => choose|p: Paint| rendered@ == md_render(md, tree, acw as int, Seq::empty(), p),
                            None => none,
                        };
                        let rv = crate::text::chars_of(rendered.as_str());
                        let trimmed = trim_end_breaks_exec(&rv);
                        if trimmed.len() == 0 {
                            let r: Vec<Vec<char>> = Vec::new();
                            assert(cviews(r@) =~= Seq::<Seq<char>>::empty());
                            (r, Ghost(p))
                        } else {
                            let r = crate::text::lines_chars(trimmed.as_slice());
                            assert(cviews(r@) =~= r@.map_values(|c: Vec<char>| c@));
                            (r, Ghost(p))
                        }
                    },
                    None => {
                        let sv = crate::text::chars_of(state);
                        let r = crate::ansi::wrap_text_chars(&sv, acw);
                        assert(cviews(r@) =~= r@.map_values(|c: Vec<char>| c@));
                        (r, Ghost(none))
                    },
                }
            },
            None => {
                let sv = crate::text::chars_of(state);
                let r = crate::text::lines_chars(sv.as_slice());
                assert(cviews(r@) =~= r@.map_values(|c: Vec<char>| c@));
                (r, Ghost(none))
            },
        }
    }

    /// The underline under the prefix (see `underline`).
    fn underline_exec(&self, max_width: Option<usize>, pmw: usize) -> (r: (Vec<char>, Ghost<bool>, Ghost<bool>))
        ensures
            r.0@ == underline(*self, max_width, pmw as int, r.1@, r.2@),
    {
        let ul = match max_width {
            Some(w) => if pmw < w { pmw } else { w },
            None => pmw,
        };
        let ch = self.prefix_line.as_char();
        let color = match self.prefix_color {
            Some(c) => Some(c),
            None => self.spinner_color,
        };
        match self.prefix_stripe {
            StripeStyle::Hidden => {
                let run = crate::text::repeat_char_exec(ch, ul);
                let (d, f2) = dimmed_exec(&run, color);
                (d, Ghost(true), f2)
            },
            _ => {
                let (sp, f1) = self.sideline_exec();
                let spw = crate::ansi::visible_width_chars(sp.as_slice());
                let n = if ul > spw { ul - spw } else { 0 };
                let run = crate::text::repeat_char_exec(ch, n);
                let (d, f2) = dimmed_exec(&run, color);
                let mut out = sp.clone();
                crate::text::extend_chars(&mut out, d.as_slice());
                (out, f1, f2)
            },
        }
    }
}

} // verus!

verus! {

impl Text {
    /// The lines above the dynamic text (see `head_lines`), with the color
    /// settings met.
    fn head_exec(&self, max_width: Option<usize>) -> (r: (Vec<Vec<char>>, Ghost<FramePaint>))
        ensures
            cviews(r.0@) == head_lines(*self, max_width, r.1@),
    {
        let ghost t = *self;
        let reset = reset_exec();
        let mut lines: Vec<Vec<char>> = Vec::new();
        let ghost mut fside: bool = true;
        if !self.static_prefix.as_str().is_empty() {
            let (side, g) = self.sideline_exec();
            proof {
                fside = g@;
            }
            let swid = crate::ansi::visible_width_chars(side.as_slice());
            let target = match max_width {
                Some(w) => Some(if w > swid { w - swid } else { 0 }),
                None => None,
            };
            let pl = self.prefix_lines_exec(target);
            assert(cviews(pl@) == prefix_lines(t, max_width, fside));
            let mut i: usize = 0;
            while i < pl.len()
                invariant
                    i <= pl@.len(),
                    cviews(lines@) == Seq::new(i as nat, |k: int| side@ + cviews(pl@)[k] + reset@),
                decreases pl.len() - i,
            {
                let line = cat3(&side, &pl[i], &reset);
                let ghost b = lines@;
                lines.push(line);
                assert(cviews(lines@) =~= Seq::new((i + 1) as nat, |k: int| side@ + cviews(pl@)[k] + reset@)) by {
                    assert(cviews(lines@) =~= cviews(b).push(line@));
                }
                i += 1;
            }
        }
        let ghost pb = cviews(lines@);
        assert(pb =~= prefix_block(t, max_width, fside));
        let pmw = max_vis_exec(&lines);
        let has_pb = lines.len() > 0;
        let ul_shown = match self.prefix_line {
            LineStyle::Hidden => false,
            _ => !self.static_prefix.as_str().is_empty() && pmw > 0,
        };
        let ghost mut fls: bool = true;
        let ghost mut fld: bool = true;
        if ul_shown {
            let (u, g1, g2) = self.underline_exec(max_width, pmw);
            proof {
                fls = g1@;
                fld = g2@;
            }
            lines.push(u);
        }
        let ghost ul = if ul_shown { seq![underline(t, max_width, pmw as int, fls, fld)] } else { Seq::<Seq<char>>::empty() };
        assert(cviews(lines@) =~= pb + ul);
        let ghost mut fmargin: bool = true;
        let ghost before_margin = cviews(lines@);
        if (has_pb || ul_shown) && self.prefix_margin > 0 {
            let (m, g) = self.sideline_exec();
            proof {
                fmargin = g@;
            }
            let mut k: usize = 0;
            while k < self.prefix_margin
                invariant
                    k <= self.prefix_margin,
                    cviews(lines@) == before_margin + Seq::new(k as nat, |q: int| m@),
                decreases self.prefix_margin - k,
            {
                let ghost b = lines@;
                lines.push(m.clone());
                assert(cviews(lines@) =~= before_margin + Seq::new((k + 1) as nat, |q: int| m@)) by {
                    assert(cviews(lines@) =~= cviews(b).push(m@));
                }
                k += 1;
            }
        }
        let ghost fp = FramePaint {
            spin: true,
            side: fside,
            line_side: fls,
            line_dim: fld,
            margin: fmargin,
            md: Paint { flags: Seq::empty(), kids: Seq::empty() },
        };
        assert(cviews(lines@) =~= head_lines(t, max_width, fp));
        (lines, Ghost(fp))
    }

    /// The dynamic lines (see `dyn_lines`), with the color settings met.
    fn dyn_exec(&self, state: &str, max_width: Option<usize>, is_final: bool) -> (r: (Vec<Vec<char>>, Ghost<bool>, Ghost<Paint>))
        ensures
            forall|fp: FramePaint| fp.spin == r.1@ && fp.md == r.2@ ==> cviews(r.0@) == #[trigger] dyn_lines(*self, state@, max_width, is_final, fp),
    {
        let (spin, fspin) = self.spinner_exec(is_final);
        let sw = crate::ansi::visible_width_chars(spin.as_slice());
        let reset = reset_exec();
        let (cl, pmd) = self.content_exec(state, max_width, sw);
        let indent = crate::text::repeat_char_exec(' ', sw);
        let mut lines: Vec<Vec<char>> = Vec::new();
        if cl.len() == 0 {
            lines.push(spin.clone());
            assert(cviews(lines@) =~= seq![spin@]);
        } else {
            let mut i: usize = 0;
            while i < cl.len()
                invariant
                    i <= cl@.len(),
                    cviews(lines@) == Seq::new(i as nat, |k: int| (if k == 0 { spin@ } else { indent@ }) + cviews(cl@)[k] + reset@),
                decreases cl.len() - i,
            {
                let line = if i == 0 { cat3(&spin, &cl[i], &reset) } else { cat3(&indent, &cl[i], &reset) };
                let ghost b = lines@;
                lines.push(line);
                assert(cviews(lines@) =~= Seq::new((i + 1) as nat, |k: int| (if k == 0 { spin@ } else { indent@ }) + cviews(cl@)[k] + reset@)) by {
                    assert(cviews(lines@) =~= cviews(b).push(line@));
                }
                i += 1;
            }
        }
        (lines, fspin, pmd)
    }

    /// Draws a frame of the widget for the dynamic text `state` in
    /// `max_width` columns (unbounded without one); the final frame has no
    /// spinner. Advances the spinner when it is shown.
    pub fn render_frame(&mut self, state: &str, max_width: Option<usize>, is_final: bool) -> (r: Vec<String>)
        ensures
            exists|fp: FramePaint| crate::text::views(r@) == text_frame(*old(self), state@, max_width, is_final, fp),
            *final(self) == after_frame(*old(self), is_final),
    {
        let ghost t = *self;
        let (mut lines, hp) = self.head_exec(max_width);
        let (dl, fspin, pmd) = self.dyn_exec(state, max_width, is_final);
        let ghost fp = FramePaint { spin: fspin@, md: pmd@, ..hp@ };
        assert(head_lines(t, max_width, fp) == head_lines(t, max_width, hp@));
        assert(cviews(dl@) == dyn_lines(t, state@, max_width, is_final, fp));
        let ghost head = cviews(lines@);
        let mut i: usize = 0;
        while i < dl.len()
            invariant
                i <= dl@.len(),
                cviews(lines@) == head + cviews(dl@).take(i as int),
            decreases dl.len() - i,
        {
            let ghost b = lines@;
            lines.push(dl[i].clone());
            assert(cviews(lines@) =~= cviews(b).push(dl@[i as int]@));
            assert(cviews(dl@).take(i + 1) =~= cviews(dl@).take(i as int).push(dl@[i as int]@));
            i += 1;
        }
        assert(cviews(dl@).take(dl@.len() as int) =~= cviews(dl@));
        let ghost all = cviews(lines@);
        while lines.len() > 0 && crate::ansi::visible_width_chars(lines[lines.len() - 1].as_slice()) == 0
            invariant
                drop_blank_tail(all) == drop_blank_tail(cviews(lines@)),
            decreases lines.len(),
        {
            let ghost b = lines@;
            lines.pop();
            assert(cviews(lines@) =~= cviews(b).drop_last());
        }
        assert(drop_blank_tail(cviews(lines@)) == cviews(lines@));
        assert(cviews(lines@) == frame_lines(t, state@, max_width, is_final, fp));
        let off = self.scroll_offset;
        let shown: Vec<Vec<char>> = if off > 0 && off < lines.len() {
            let mut v: Vec<Vec<char>> = Vec::new();
            let mut i: usize = off;
            while i < lines.len()
                invariant
                    off <= i <= lines@.len(),
                    cviews(v@) == cviews(lines@).subrange(off as int, i as int),
                decreases lines.len() - i,
            {
                let ghost b = v@;
                v.push(lines[i].clone());
                assert(cviews(v@) =~= cviews(b).push(lines@[i as int]@));
                assert(cviews(v@) =~= cviews(lines@).subrange(off as int, i + 1));
                i += 1;
            }
            v
        } else {
            lines
        };
        let r = crate::text::strings_of(&shown);
        assert(crate::text::views(r@) =~= text_frame(t, state@, max_width, is_final, fp));
        if spinner_shown_exec(self, is_final) {
            self.frame_idx = if self.frame_idx == usize::MAX { 0 } else { self.frame_idx + 1 };
        }
        self.is_changed = false;
        r
    }
}

fn spinner_shown_exec(t: &Text, is_final: bool) -> (r: bool)
    ensures
        r == spinner_shown(*t, is_final),
{
    let frames = t.spinner_style.frames();
    !is_final && frames.len() > 0
}

} // verus!

verus! {

impl Text {
    /// A text widget with a static prefix: dots spinner in cyan, no stripe
    /// or underline, a margin of one line, markdown with default settings.
    pub fn new(static_prefix: &str) -> (r: Text)
        ensures
            r.static_prefix@ == static_prefix@,
            r.spinner_style == SpinnerStyle::Dots,
            r.frame_idx == 0,
            r.spinner_color == Some(TermColor::Cyan),
            r.prefix_stripe == StripeStyle::Hidden,
            r.prefix_line == LineStyle::Hidden,
            r.prefix_color is None,
            r.prefix_margin == 1,
            r.scroll_offset == 0,
            r.is_changed,
            r.markdown == Some(Markdown::default_spec()),
    {
        let v = crate::text::chars_of(static_prefix);
        Text {
            static_prefix: crate::text::string_of(v.as_slice()),
            spinner_style: SpinnerStyle::Dots,
            frame_idx: 0,
            spinner_color: Some(TermColor::Cyan),
            prefix_stripe: StripeStyle::Hidden,
            prefix_line: LineStyle::Hidden,
            prefix_color: None,
            prefix_margin: 1,
            scroll_offset: 0,
            is_changed: true,
            markdown: Some(Markdown::new()),
        }
    }

    /// Scrolls with a key (see `scrolled`); a move marks the layout changed.
    pub fn handle_key(&mut self, key: KeyCode)
        requires
            old(self).scroll_offset + scroll_step(key) <= usize::MAX,
        ensures
            final(self).scroll_offset == scrolled(old(self).scroll_offset, key).0,
            final(self).is_changed == (old(self).is_changed || scrolled(old(self).scroll_offset, key).1),
            *final(self) == (Text { scroll_offset: final(self).scroll_offset, is_changed: final(self).is_changed, ..*old(self) }),
    {
        let mut moved = false;
        match key {
            KeyCode::Up => {
                if self.scroll_offset > 0 {
                    self.scroll_offset = self.scroll_offset - 1;
                    moved = true;
                }
            },
            KeyCode::Char(c) => {
                if c == 'k' {
                    if self.scroll_offset > 0 {
                        self.scroll_offset = self.scroll_offset - 1;
                        moved = true;
                    }
                } else if c == 'j' {
                    self.scroll_offset = self.scroll_offset + 1;
                    moved = true;
                }
            },
            KeyCode::Down => {
                self.scroll_offset = self.scroll_offset + 1;
                moved = true;
            },
            KeyCode::PageUp => {
                if self.scroll_offset > 0 {
                    self.scroll_offset = if self.scroll_offset > 5 { self.scroll_offset - 5 } else { 0 };
                    moved = true;
                }
            },
            KeyCode::PageDown => {
                self.scroll_offset = self.scroll_offset + 5;
                moved = true;
            },
            _ => {},
        }
        if moved {
            self.is_changed = true;
        }
    }

    /// Whether the widget animates (and so redraws by itself): with a spinner.
    pub fn animates(&self) -> (r: bool)
        ensures
            r == !(self.spinner_style is Hidden),
    {
        match self.spinner_style {
            SpinnerStyle::Hidden => false,
            _ => true,
        }
    }

    /// A terminal resize marks the layout changed.
    pub fn on_resize(&mut self)
        ensures
            *final(self) == (Text { is_changed: true, ..*old(self) }),
    {
        self.is_changed = true;
    }

    /// Sets the line style under the prefix.
    pub fn prefix_line(self, style: LineStyle) -> (r: Text)
        ensures
            r == (Text { prefix_line: style, ..self }),
    {
        Text { prefix_line: style, ..self }
    }

    /// Sets the stripe left of the prefix.
    pub fn prefix_stripe(self, style: StripeStyle) -> (r: Text)
        ensures
            r == (Text { prefix_stripe: style, ..self }),
    {
        Text { prefix_stripe: style, ..self }
    }

    /// Sets the color of the stripe and the underline.
    pub fn prefix_color(self, color: TermColor) -> (r: Text)
        ensures
            r == (Text { prefix_color: Some(color), ..self }),
    {
        Text { prefix_color: Some(color), ..self }
    }

    /// Sets the blank lines between prefix and content.
    pub fn prefix_margin(self, margin: usize) -> (r: Text)
        ensures
            r == (Text { prefix_margin: margin, ..self }),
    {
        Text { prefix_margin: margin, ..self }
    }

    /// Sets the spinner animation.
    pub fn spinner_style(self, style: SpinnerStyle) -> (r: Text)
        ensures
            r == (Text { spinner_style: style, ..self }),
    {
        Text { spinner_style: style, ..self }
    }

    /// Sets the spinner color.
    pub fn spinner_color(self, color: TermColor) -> (r: Text)
        ensures
            r == (Text { spinner_color: Some(color), ..self }),
    {
        Text { spinner_color: Some(color), ..self }
    }

    /// Turns markdown on with default settings when it is off; asking to
    /// turn it off changes nothing.
    pub fn markdown(self, enable: bool) -> (r: Text)
        ensures
            r == (if enable && self.markdown is None { Text { markdown: Some(Markdown::default_spec()), ..self } } else { self }),
    {
        if enable && self.markdown.is_none() {
            Text { markdown: Some(Markdown::new()), ..self }
        } else {
            self
        }
    }

    /// One color for the markdown stripes, bullets and inline code (when
    /// markdown is on) and for the spinner.
    pub fn accent_color(self, color: TermColor) -> (r: Text)
        ensures
            r == (Text {
                markdown: match self.markdown {
                    Some(md) => Some(Markdown { stripe_color: Some(color), bullet_color: Some(color), code_color: Some(color), ..md }),
                    None => None,
                },
                spinner_color: Some(color),
                ..self
            }),
    {
        let markdown = match self.markdown {
            Some(md) => Some(md.stripe_color(color).bullet_color(color).code_color(color)),
            None => None,
        };
        Text { markdown, spinner_color: Some(color), ..self }
    }

    /// The markdown settings, the defaults when markdown is off.
    fn md_or_default(&self) -> (r: Markdown)
        ensures
            r == (match self.markdown {
                Some(md) => md,
                None => Markdown::default_spec(),
            }),
    {
        match self.markdown {
            Some(md) => md,
            None => Markdown::new(),
        }
    }

    /// Sets the markdown stripe style (turning markdown on).
    pub fn stripe_style(self, style: StripeStyle) -> (r: Text)
        ensures
            r == (Text { markdown: Some(Markdown { stripe_style: style, ..self.md_or_default_spec() }), ..self }),
    {
        let md = self.md_or_default();
        Text { markdown: Some(md.stripe_style(style)), ..self }
    }

    /// Sets the markdown stripe color (turning markdown on).
    pub fn stripe_color(self, color: TermColor) -> (r: Text)
        ensures
            r == (Text { markdown: Some(Markdown { stripe_color: Some(color), ..self.md_or_default_spec() }), ..self }),
    {
        let md = self.md_or_default();
        Text { markdown: Some(md.stripe_color(color)), ..self }
    }

    /// Sets the markdown bullet style (turning markdown on).
    pub fn bullet_style(self, style: BulletStyle) -> (r: Text)
        ensures
            r == (Text { markdown: Some(Markdown { bullet_style: style, ..self.md_or_default_spec() }), ..self }),
    {
        let md = self.md_or_default();
        Text { markdown: Some(md.bullet_style(style)), ..self }
    }

    /// Sets the markdown bullet color (turning markdown on).
    pub fn bullet_color(self, color: TermColor) -> (r: Text)
        ensures
            r == (Text { markdown: Some(Markdown { bullet_color: Some(color), ..self.md_or_default_spec() }), ..self }),
    {
        let md = self.md_or_default();
        Text { markdown: Some(md.bullet_color(color)), ..self }
    }

    /// Sets the markdown inline code color (turning markdown on).
    pub fn code_color(self, color: TermColor) -> (r: Text)
        ensures
            r == (Text { markdown: Some(Markdown { code_color: Some(color), ..self.md_or_default_spec() }), ..self }),
    {
        let md = self.md_or_default();
        Text { markdown: Some(md.code_color(color)), ..self }
    }

    /// Sets the markdown code theme (turning markdown on).
    pub fn code_theme(self, theme: CodeTheme) -> (r: Text)
        ensures
            r == (Text { markdown: Some(Markdown { theme: theme, ..self.md_or_default_spec() }), ..self }),
    {
        let md = self.md_or_default();
        Text { markdown: Some(md.theme(theme)), ..self }
    }

    /// The markdown settings in use, the defaults when markdown is off.
    pub open spec fn md_or_default_spec(self) -> Markdown {
        match self.markdown {
            Some(md) => md,
            None => Markdown::default_spec(),
        }
    }
}

} // verus!

verus! {

/// Scrolling down a line and back up returns to the same offset.
pub proof fn law_scroll_down_then_up(off: usize)
    requires
        off < usize::MAX,
    ensures
        scrolled(scrolled(off, KeyCode::Down).0, KeyCode::Up).0 == off,
{
}

/// Scrolling down a page and back up a page returns to the same offset.
pub proof fn law_page_down_then_up(off: usize)
    requires
        off + 5 <= usize::MAX,
    ensures
        scrolled(scrolled(off, KeyCode::PageDown).0, KeyCode::PageUp).0 == off,
{
}

/// Scrolling up never goes past the top.
pub proof fn law_scroll_up_stays_at_top(key: KeyCode)
    requires
        key == KeyCode::Up || key == KeyCode::PageUp || key == KeyCode::Char('k'),
    ensures
        scrolled(0, key) == (0usize, false),
{
}

} // verus!

verus! {

/// The character of a stripe style; none for the hidden style.
pub fn get_stripe_char(style: StripeStyle) -> (r: Option<char>)
    ensures
        r == (if style is Hidden { None } else { Some(stripe_char(style)) }),
{
    match style {
        StripeStyle::Hidden => None,
        _ => Some(style.char()),
    }
}

} // verus!
