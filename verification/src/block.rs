//! Layout of a bordered block around a widget's lines: margins, borders with
//! titles, padding, background color and the frame of lines it gives.
use vstd::prelude::*;
use crate::ansi::{esc, truncate_spec, truncate_str, visible_width, visible_width_spec};
use crate::paint::{is_styled, plain_spec, styled, TermColor, TextStyle};
use crate::style::{border_chars, Align, BorderStyle, Margin, Padding, Title};
use crate::text::{chars_of, cviews, decimal, decimal_chars, extend_chars, repeat_char, repeat_char_exec, split_on, string_of, views};

verus! {

/// `a - b`, or zero when `b` is larger.
pub open spec fn sub0(a: int, b: int) -> int {
    if a > b { a - b } else { 0 }
}

pub open spec fn max_int(a: int, b: int) -> int {
    if a >= b { a } else { b }
}

pub open spec fn min_int(a: int, b: int) -> int {
    if a <= b { a } else { b }
}

/// `n` copies of `c`, none when `n` is negative.
pub open spec fn reps(c: char, n: int) -> Seq<char> {
    repeat_char(c, if n < 0 { 0 } else { n as nat })
}

/// The background escape sequence the block writes for a color; empty for
/// the colors it has no code for.
pub open spec fn bg_code(c: TermColor) -> Seq<char> {
    let csi = seq![esc(), '['];
    match c {
        TermColor::Reset => csi + seq!['4', '9', 'm'],
        TermColor::Black => csi + seq!['4', '0', 'm'],
        TermColor::Red => csi + seq!['4', '1', 'm'],
        TermColor::Green => csi + seq!['4', '2', 'm'],
        TermColor::Yellow => csi + seq!['4', '3', 'm'],
        TermColor::Blue => csi + seq!['4', '4', 'm'],
        TermColor::Magenta => csi + seq!['4', '5', 'm'],
        TermColor::Cyan => csi + seq!['4', '6', 'm'],
        TermColor::White => csi + seq!['4', '7', 'm'],
        TermColor::DarkGrey => csi + seq!['1', '0', '0', 'm'],
        TermColor::Rgb { r, g, b } => csi + seq!['4', '8', ';', '2', ';'] + decimal(r as nat) + seq![';'] + decimal(g as nat)
            + seq![';'] + decimal(b as nat) + seq!['m'],
        TermColor::AnsiValue(v) => csi + seq!['4', '8', ';', '5', ';'] + decimal(v as nat) + seq!['m'],
        _ => Seq::empty(),
    }
}

/// The full reset sequence `ESC[0m`.
pub open spec fn reset_seq() -> Seq<char> {
    seq![esc(), '[', '0', 'm']
}

/// `s` with every `ESC[0m` (scanning left to right) replaced by `rep`.
pub open spec fn replace_resets(s: Seq<char>, rep: Seq<char>) -> Seq<char>
    decreases s.len(),
{
    if s.len() < 4 {
        s
    } else if s.take(4) == reset_seq() {
        rep + replace_resets(s.skip(4), rep)
    } else {
        seq![s[0]] + replace_resets(s.skip(1), rep)
    }
}

/// `text` on the background color: the color's code first, every full
/// reset followed by the code again, and the default background at the
/// end; unchanged without a background color or with one that has no code.
pub open spec fn with_bg(text: Seq<char>, bg: Option<TermColor>) -> Seq<char> {
    match bg {
        None => text,
        Some(c) => if bg_code(c).len() == 0 {
            text
        } else {
            bg_code(c) + replace_resets(text, reset_seq() + bg_code(c)) + seq![esc(), '[', '4', '9', 'm']
        },
    }
}

fn bg_code_exec(c: TermColor) -> (r: Vec<char>)
    ensures
        r@ == bg_code(c),
{
    let mut r: Vec<char> = vec!['\x1b', '['];
    match c {
        TermColor::Reset => { r.push('4'); r.push('9'); r.push('m'); },
        TermColor::Black => { r.push('4'); r.push('0'); r.push('m'); },
        TermColor::Red => { r.push('4'); r.push('1'); r.push('m'); },
        TermColor::Green => { r.push('4'); r.push('2'); r.push('m'); },
        TermColor::Yellow => { r.push('4'); r.push('3'); r.push('m'); },
        TermColor::Blue => { r.push('4'); r.push('4'); r.push('m'); },
        TermColor::Magenta => { r.push('4'); r.push('5'); r.push('m'); },
        TermColor::Cyan => { r.push('4'); r.push('6'); r.push('m'); },
        TermColor::White => { r.push('4'); r.push('7'); r.push('m'); },
        TermColor::DarkGrey => { r.push('1'); r.push('0'); r.push('0'); r.push('m'); },
        TermColor::Rgb { r: cr, g, b } => {
            r.push('4'); r.push('8'); r.push(';'); r.push('2'); r.push(';');
            extend_chars(&mut r, decimal_chars(cr as usize).as_slice());
            r.push(';');
            extend_chars(&mut r, decimal_chars(g as usize).as_slice());
            r.push(';');
            extend_chars(&mut r, decimal_chars(b as usize).as_slice());
            r.push('m');
        },
        TermColor::AnsiValue(v) => {
            r.push('4'); r.push('8'); r.push(';'); r.push('5'); r.push(';');
            extend_chars(&mut r, decimal_chars(v as usize).as_slice());
            r.push('m');
        },
        _ => {
            r = Vec::new();
        },
    }
    assert(r@ =~= bg_code(c));
    r
}

fn is_reset_at(s: &Vec<char>, i: usize) -> (r: bool)
    requires
        i <= s@.len(),
    ensures
        r == (s@.len() - i >= 4 && s@.skip(i as int).take(4) == reset_seq()),
{
    if s.len() - i < 4 {
        return false;
    }
    let r = s[i] == '\x1b' && s[i + 1] == '[' && s[i + 2] == '0' && s[i + 3] == 'm';
    if r {
        assert(s@.skip(i as int).take(4) =~= reset_seq());
    } else {
        assert(s@.skip(i as int).take(4)[0] == s@[i as int]);
        assert(s@.skip(i as int).take(4)[1] == s@[i + 1]);
        assert(s@.skip(i as int).take(4)[2] == s@[i + 2]);
        assert(s@.skip(i as int).take(4)[3] == s@[i + 3]);
    }
    r
}

/// Puts `text` on the background color (see `with_bg`).
pub fn apply_bg(text: &Vec<char>, bg: Option<TermColor>) -> (r: Vec<char>)
    ensures
        r@ == with_bg(text@, bg),
{
    let c = match bg {
        None => return text.clone(),
        Some(c) => c,
    };
    let code = bg_code_exec(c);
    if code.len() == 0 {
        return text.clone();
    }
    let mut rep: Vec<char> = vec!['\x1b', '[', '0', 'm'];
    extend_chars(&mut rep, code.as_slice());
    assert(rep@ =~= reset_seq() + bg_code(c));
    let mut out = code.clone();
    let mut i: usize = 0;
    assert(text@.skip(0) =~= text@);
    while i < text.len()
        invariant
            i <= text@.len(),
            rep@ == reset_seq() + bg_code(c),
            out@ + replace_resets(text@.skip(i as int), rep@) == bg_code(c) + replace_resets(text@, rep@),
        decreases text.len() - i,
    {
        let ghost rest = text@.skip(i as int);
        if is_reset_at(text, i) {
            extend_chars(&mut out, rep.as_slice());
            assert(rest.skip(4) =~= text@.skip(i + 4));
            assert(out@ + replace_resets(text@.skip(i + 4), rep@) =~= bg_code(c) + replace_resets(text@, rep@));
            i = i + 4;
        } else if text.len() - i < 4 {
            let ghost before = out@;
            let mut j = i;
            while j < text.len()
                invariant
                    i <= j <= text@.len(),
                    out@ == before + text@.subrange(i as int, j as int),
                decreases text.len() - j,
            {
                out.push(text[j]);
                assert(out@ =~= before + text@.subrange(i as int, j + 1));
                j += 1;
            }
            assert(rest =~= text@.subrange(i as int, text@.len() as int));
            assert(text@.skip(text@.len() as int) =~= Seq::<char>::empty());
            i = text.len();
        } else {
            out.push(text[i]);
            assert(rest.skip(1) =~= text@.skip(i + 1));
            assert(out@ + replace_resets(text@.skip(i + 1), rep@) =~= bg_code(c) + replace_resets(text@, rep@));
            i += 1;
        }
    }
    assert(replace_resets(text@.skip(text@.len() as int), rep@) =~= Seq::<char>::empty()) by {
        assert(text@.skip(text@.len() as int) =~= Seq::<char>::empty());
    }
    out.push('\x1b');
    out.push('[');
    out.push('4');
    out.push('9');
    out.push('m');
    assert(out@ =~= with_bg(text@, bg));
    out
}

} // verus!

verus! {

/// The texts and alignments of titles.
pub open spec fn title_views(ts: Seq<Title>) -> Seq<(Seq<char>, Align)> {
    ts.map_values(|t: Title| (t.text@, t.align))
}

/// Whether the alignment is one of the three.
pub open spec fn one_of(a: Align, al: (Align, Align, Align)) -> bool {
    a == al.0 || a == al.1 || a == al.2
}

/// Whether a title has one of the three alignments.
pub open spec fn any_title(ts: Seq<(Seq<char>, Align)>, al: (Align, Align, Align)) -> bool {
    exists|i: int| 0 <= i < ts.len() && one_of(#[trigger] ts[i].1, al)
}

/// The texts of the titles with alignment `a`, in order, run together.
pub open spec fn group_text(ts: Seq<(Seq<char>, Align)>, a: Align) -> Seq<char>
    decreases ts.len(),
{
    if ts.len() == 0 {
        Seq::empty()
    } else {
        group_text(ts.drop_last(), a) + if ts.last().1 == a { ts.last().0 } else { Seq::empty() }
    }
}

/// `a + b`, at most `usize::MAX`.
pub open spec fn sadd(a: int, b: int) -> int {
    if a + b > usize::MAX { usize::MAX as int } else { a + b }
}

/// The total width of the titles with one of the three alignments.
pub open spec fn titles_width(ts: Seq<(Seq<char>, Align)>, al: (Align, Align, Align)) -> int
    decreases ts.len(),
{
    if ts.len() == 0 {
        0
    } else {
        sadd(titles_width(ts.drop_last(), al), if one_of(ts.last().1, al) { visible_width_spec(ts.last().0) as int } else { 0 })
    }
}

pub open spec fn fg_spec(c: TermColor) -> TextStyle {
    TextStyle { fg: Some(c), ..plain_spec() }
}

/// Columns of border before the centered titles (or between the left and
/// right titles when none is centered), and after them.
pub open spec fn title_gaps(ts: Seq<(Seq<char>, Align)>, al: (Align, Align, Align), inner_w: int) -> (int, int) {
    let lw = visible_width_spec(group_text(ts, al.0)) as int;
    let cw = visible_width_spec(group_text(ts, al.1)) as int;
    let rw = visible_width_spec(group_text(ts, al.2)) as int;
    let lg = if cw > 0 { sub0(sub0(inner_w, cw) / 2, lw) } else { sub0(inner_w, sadd(lw, rw)) };
    (lg, sub0(inner_w, sadd(sadd(sadd(lw, lg), cw), rw)))
}

/// Whether `out` is a horizontal border line: the left margin, then on the
/// background the corner, the line (with the left, centered and right titles
/// of the three alignments set into it) and the other corner, the border
/// parts in the border color.
pub open spec fn border_ok(
    out: Seq<char>,
    margin_left: int,
    ts: Seq<(Seq<char>, Align)>,
    corners: (char, char),
    h: char,
    al: (Align, Align, Align),
    inner_w: int,
    col: TermColor,
    bg: Option<TermColor>,
) -> bool {
    let st = fg_spec(col);
    if !any_title(ts, al) {
        exists|a: Seq<char>, m: Seq<char>, z: Seq<char>|
            #![trigger is_styled(a, seq![corners.0], st), is_styled(m, reps(h, inner_w), st), is_styled(z, seq![corners.1], st)]
            is_styled(a, seq![corners.0], st) && is_styled(m, reps(h, inner_w), st) && is_styled(z, seq![corners.1], st)
                && out == reps(' ', margin_left) + with_bg(a + m + z, bg)
    } else {
        let (lg, rg) = title_gaps(ts, al, inner_w);
        exists|a: Seq<char>, g1: Seq<char>, g2: Seq<char>, z: Seq<char>|
            #![trigger is_styled(a, seq![corners.0], st), is_styled(g1, reps(h, lg), st), is_styled(g2, reps(h, rg), st), is_styled(z, seq![corners.1], st)]
            is_styled(a, seq![corners.0], st) && is_styled(g1, reps(h, lg), st) && is_styled(g2, reps(h, rg), st)
                && is_styled(z, seq![corners.1], st) && out == reps(' ', margin_left) + with_bg(
                a + group_text(ts, al.0) + g1 + group_text(ts, al.1) + g2 + group_text(ts, al.2) + z,
                bg,
            )
    }
}

fn styled_chars(s: &Vec<char>, st: TextStyle) -> (r: Vec<char>)
    ensures
        is_styled(r@, s@, st),
{
    let t = string_of(s.as_slice());
    let u = styled(t.as_str(), st);
    chars_of(u.as_str())
}

fn reps_exec(c: char, n: usize) -> (r: Vec<char>)
    ensures
        r@ == reps(c, n as int),
{
    repeat_char_exec(c, n)
}

fn group_text_exec(titles: &Vec<Title>, a: Align) -> (r: Vec<char>)
    ensures
        r@ == group_text(title_views(titles@), a),
{
    let ghost tv = title_views(titles@);
    let mut out: Vec<char> = Vec::new();
    let mut i: usize = 0;
    assert(tv.take(0) =~= Seq::<(Seq<char>, Align)>::empty());
    while i < titles.len()
        invariant
            tv == title_views(titles@),
            i <= titles@.len(),
            out@ == group_text(tv.take(i as int), a),
        decreases titles.len() - i,
    {
        assert(tv[i as int] == (titles@[i as int].text@, titles@[i as int].align));
        assert(tv.take(i + 1).drop_last() =~= tv.take(i as int));
        let ghost before = out@;
        if titles[i].align == a {
            extend_chars(&mut out, chars_of(titles[i].text.as_str()).as_slice());
        }
        assert(out@ =~= group_text(tv.take(i + 1), a));
        i += 1;
    }
    assert(tv.take(titles@.len() as int) =~= tv);
    out
}

fn any_title_exec(titles: &Vec<Title>, al: (Align, Align, Align)) -> (r: bool)
    ensures
        r == any_title(title_views(titles@), al),
{
    let ghost tv = title_views(titles@);
    let mut i: usize = 0;
    while i < titles.len()
        invariant
            tv == title_views(titles@),
            i <= titles@.len(),
            forall|j: int| 0 <= j < i ==> !one_of(#[trigger] tv[j].1, al),
        decreases titles.len() - i,
    {
        assert(tv[i as int].1 == titles@[i as int].align);
        let a = titles[i].align;
        if a == al.0 || a == al.1 || a == al.2 {
            return true;
        }
        i += 1;
    }
    false
}

fn titles_width_exec(titles: &Vec<Title>, al: (Align, Align, Align)) -> (r: usize)
    ensures
        r == titles_width(title_views(titles@), al),
{
    let ghost tv = title_views(titles@);
    let mut w: usize = 0;
    let mut i: usize = 0;
    assert(tv.take(0) =~= Seq::<(Seq<char>, Align)>::empty());
    while i < titles.len()
        invariant
            tv == title_views(titles@),
            i <= titles@.len(),
            w == titles_width(tv.take(i as int), al),
        decreases titles.len() - i,
    {
        assert(tv[i as int] == (titles@[i as int].text@, titles@[i as int].align));
        assert(tv.take(i + 1).drop_last() =~= tv.take(i as int));
        let a = titles[i].align;
        if a == al.0 || a == al.1 || a == al.2 {
            w = w.saturating_add(visible_width(titles[i].text.as_str()));
        }
        i += 1;
    }
    assert(tv.take(titles@.len() as int) =~= tv);
    w
}

/// Renders a horizontal border line (see `border_ok`).
pub fn render_border_line(
    margin_left: usize,
    titles: &Vec<Title>,
    corners: (char, char),
    h: char,
    al: (Align, Align, Align),
    inner_w: usize,
    col: TermColor,
    bg: Option<TermColor>,
) -> (r: String)
    ensures
        border_ok(r@, margin_left as int, title_views(titles@), corners, h, al, inner_w as int, col, bg),
{
    if !any_title_exec(titles, al) {
        border_plain(margin_left, titles, corners, h, al, inner_w, col, bg)
    } else {
        border_titled(margin_left, titles, corners, h, al, inner_w, col, bg)
    }
}

fn corner_pieces(corners: (char, char), col: TermColor) -> (r: (Vec<char>, Vec<char>))
    ensures
        is_styled(r.0@, seq![corners.0], fg_spec(col)),
        is_styled(r.1@, seq![corners.1], fg_spec(col)),
{
    let st = TextStyle { fg: Some(col), bg: None, bold: false, dim: false, italic: false, underlined: false };
    let cl = vec![corners.0];
    let cr = vec![corners.1];
    assert(cl@ =~= seq![corners.0]);
    assert(cr@ =~= seq![corners.1]);
    (styled_chars(&cl, st), styled_chars(&cr, st))
}

fn border_plain(
    margin_left: usize,
    titles: &Vec<Title>,
    corners: (char, char),
    h: char,
    al: (Align, Align, Align),
    inner_w: usize,
    col: TermColor,
    bg: Option<TermColor>,
) -> (r: String)
    requires
        !any_title(title_views(titles@), al),
    ensures
        border_ok(r@, margin_left as int, title_views(titles@), corners, h, al, inner_w as int, col, bg),
{
    let st = TextStyle { fg: Some(col), bg: None, bold: false, dim: false, italic: false, underlined: false };
    let (lc, rc) = corner_pieces(corners, col);
    let m = styled_chars(&reps_exec(h, inner_w), st);
    let mut raw = lc.clone();
    extend_chars(&mut raw, m.as_slice());
    extend_chars(&mut raw, rc.as_slice());
    let body = apply_bg(&raw, bg);
    let mut out = reps_exec(' ', margin_left);
    extend_chars(&mut out, body.as_slice());
    assert(out@ =~= reps(' ', margin_left as int) + with_bg(lc@ + m@ + rc@, bg));
    assert(is_styled(lc@, seq![corners.0], fg_spec(col)) && is_styled(m@, reps(h, inner_w as int), fg_spec(col))
        && is_styled(rc@, seq![corners.1], fg_spec(col)));
    string_of(out.as_slice())
}

#[verifier::rlimit(40)]
fn border_titled(
    margin_left: usize,
    titles: &Vec<Title>,
    corners: (char, char),
    h: char,
    al: (Align, Align, Align),
    inner_w: usize,
    col: TermColor,
    bg: Option<TermColor>,
) -> (r: String)
    requires
        any_title(title_views(titles@), al),
    ensures
        border_ok(r@, margin_left as int, title_views(titles@), corners, h, al, inner_w as int, col, bg),
{
    let st = TextStyle { fg: Some(col), bg: None, bold: false, dim: false, italic: false, underlined: false };
    let (lc, rc) = corner_pieces(corners, col);
    let l = group_text_exec(titles, al.0);
    let c = group_text_exec(titles, al.1);
    let rt = group_text_exec(titles, al.2);
    let (lg, rg) = gaps_exec(&l, &c, &rt, inner_w);
    assert((lg as int, rg as int) == title_gaps(title_views(titles@), al, inner_w as int));
    let g1 = styled_chars(&reps_exec(h, lg), st);
    let g2 = styled_chars(&reps_exec(h, rg), st);
    let mut raw = lc.clone();
    extend_chars(&mut raw, l.as_slice());
    extend_chars(&mut raw, g1.as_slice());
    extend_chars(&mut raw, c.as_slice());
    extend_chars(&mut raw, g2.as_slice());
    extend_chars(&mut raw, rt.as_slice());
    extend_chars(&mut raw, rc.as_slice());
    let body = apply_bg(&raw, bg);
    let mut out = reps_exec(' ', margin_left);
    extend_chars(&mut out, body.as_slice());
    assert(out@ =~= reps(' ', margin_left as int) + with_bg(lc@ + l@ + g1@ + c@ + g2@ + rt@ + rc@, bg));
    assert(is_styled(lc@, seq![corners.0], fg_spec(col)) && is_styled(g1@, reps(h, lg as int), fg_spec(col))
        && is_styled(g2@, reps(h, rg as int), fg_spec(col)) && is_styled(rc@, seq![corners.1], fg_spec(col)));
    string_of(out.as_slice())
}

fn gaps_exec(l: &Vec<char>, c: &Vec<char>, rt: &Vec<char>, inner_w: usize) -> (r: (usize, usize))
    ensures
        ({
            let lw = visible_width_spec(l@) as int;
            let cw = visible_width_spec(c@) as int;
            let rw = visible_width_spec(rt@) as int;
            let lg = if cw > 0 { sub0(sub0(inner_w as int, cw) / 2, lw) } else { sub0(inner_w as int, sadd(lw, rw)) };
            r.0 == lg && r.1 == sub0(inner_w as int, sadd(sadd(sadd(lw, lg), cw), rw))
        }),
{
    let lw = crate::ansi::visible_width_chars(l.as_slice());
    let cw = crate::ansi::visible_width_chars(c.as_slice());
    let rw = crate::ansi::visible_width_chars(rt.as_slice());
    let lg = if cw > 0 {
        let half = if inner_w > cw { (inner_w - cw) / 2 } else { 0 };
        if half > lw { half - lw } else { 0 }
    } else {
        let t = lw.saturating_add(rw);
        if inner_w > t { inner_w - t } else { 0 }
    };
    let used = lw.saturating_add(lg).saturating_add(cw).saturating_add(rw);
    let rg = if inner_w > used { inner_w - used } else { 0 };
    (lg, rg)
}

} // verus!

verus! {

/// The styling and size limits of a block.
pub struct BlockStyle {
    pub titles: Vec<Title>,
    pub border: BorderStyle,
    pub border_color: Option<TermColor>,
    pub bg_color: Option<TermColor>,
    pub margin: Margin,
    pub padding: Padding,
    pub min_width: Option<usize>,
    pub max_width: Option<usize>,
    pub min_height: Option<usize>,
    pub max_height: Option<usize>,
    pub truncate_lines: bool,
    pub no_top_border: bool,
    pub no_bottom_border: bool,
    pub show_cursor: bool,
    /// Whether the block's lines are erased when it finishes.
    pub remove_on_finish: bool,
    /// The color the background flashes in when the block finishes.
    pub blink_color: Option<TermColor>,
    /// How long the flash lasts, in milliseconds.
    pub blink_ms: u64,
}

pub open spec fn top_aligns() -> (Align, Align, Align) {
    (Align::TopLeft, Align::TopCenter, Align::TopRight)
}

pub open spec fn bottom_aligns() -> (Align, Align, Align) {
    (Align::BottomLeft, Align::BottomCenter, Align::BottomRight)
}

/// Whether the margins, paddings and borders add up within `usize`.
pub open spec fn sizes_fit(st: &BlockStyle) -> bool {
    &&& st.margin.top + st.margin.bottom + st.padding.top + st.padding.bottom + 2 <= usize::MAX
    &&& st.margin.left + st.margin.right + st.padding.left + st.padding.right + 2 <= usize::MAX
}

/// Whether the block draws a top line: not switched off, and a border or a top title.
pub open spec fn has_top_line(st: &BlockStyle) -> bool {
    !st.no_top_border && (st.border != BorderStyle::Hidden || any_title(title_views(st.titles@), top_aligns()))
}

/// Whether the block draws a bottom line.
pub open spec fn has_bottom_line(st: &BlockStyle) -> bool {
    !st.no_bottom_border && (st.border != BorderStyle::Hidden || any_title(title_views(st.titles@), bottom_aligns()))
}

/// Rows taken by margins, paddings and border lines.
pub open spec fn vert_overhead(st: &BlockStyle) -> int {
    st.margin.top + st.margin.bottom + st.padding.top + st.padding.bottom + (if has_top_line(st) { 1int } else { 0 })
        + (if has_bottom_line(st) { 1int } else { 0 })
}

/// Columns taken by the two sides of a border, when there is one.
pub open spec fn border_overhead(st: &BlockStyle) -> int {
    if has_top_line(st) || has_bottom_line(st) { 2 } else { 0 }
}

/// The widest text the inner widget may use: the terminal width less one
/// column and the horizontal overhead, and within the maximum width.
pub open spec fn max_inner(st: &BlockStyle, avail: int) -> int {
    let bo = border_overhead(st);
    let horiz = bo + st.padding.left + st.padding.right + st.margin.left + st.margin.right;
    let m = sub0(sub0(avail, 1), horiz);
    match st.max_width {
        Some(mw) => min_int(m, sub0(mw as int, bo + st.padding.left + st.padding.right)),
        None => m,
    }
}

/// The height limit: the maximum height of the block, else the viewport's.
pub open spec fn height_limit(st: &BlockStyle, viewport: Option<usize>) -> Option<usize> {
    match st.max_height {
        Some(h) => Some(h),
        None => viewport,
    }
}

/// The lines of the inner widget split at line breaks.
pub open spec fn flatten_lines(raw: Seq<Seq<char>>) -> Seq<Seq<char>>
    decreases raw.len(),
{
    if raw.len() == 0 {
        Seq::empty()
    } else {
        flatten_lines(raw.drop_last()) + split_on(raw.last(), '\n')
    }
}

/// The content lines shown: the last ones that fit within the height limit.
pub open spec fn shown_lines(st: &BlockStyle, raw: Seq<Seq<char>>, viewport: Option<usize>) -> Seq<Seq<char>> {
    let c = flatten_lines(raw);
    match height_limit(st, viewport) {
        Some(mh) => {
            let rows = sub0(mh as int, vert_overhead(st));
            if c.len() > rows { c.skip(c.len() - rows) } else { c }
        },
        None => c,
    }
}

/// The widest of the lines, zero for none.
pub open spec fn lines_width(ls: Seq<Seq<char>>) -> int
    decreases ls.len(),
{
    if ls.len() == 0 {
        0
    } else {
        max_int(lines_width(ls.drop_last()), visible_width_spec(ls.last()) as int)
    }
}

/// The width inside the border: the content and padding, at least the
/// titles and the minimum width, at most what the terminal allows.
pub open spec fn inner_width(st: &BlockStyle, raw: Seq<Seq<char>>, avail: int, viewport: Option<usize>) -> int {
    let pl = st.padding.left as int;
    let pr = st.padding.right as int;
    let ts = title_views(st.titles@);
    let acw = lines_width(shown_lines(st, raw, viewport));
    let w0 = max_int(sadd(sadd(acw, pl), pr), max_int(titles_width(ts, top_aligns()), titles_width(ts, bottom_aligns())));
    let w1 = match st.min_width {
        Some(mw) => max_int(w0, sub0(mw as int, border_overhead(st))),
        None => w0,
    };
    min_int(w1, sadd(sadd(max_inner(st, avail), pl), pr))
}

/// A row inside the border: the left margin, then on the background the
/// vertical bars (when there is a border) around `inner`.
pub open spec fn framed_row(st: &BlockStyle, inner: Seq<char>, vbar: Seq<char>) -> Seq<char> {
    reps(' ', st.margin.left as int) + with_bg(
        if has_top_line(st) || has_bottom_line(st) { vbar + inner + vbar } else { inner },
        st.bg_color,
    )
}

/// A content row: tabs as four spaces, truncated when the block truncates,
/// padded to the text width and framed.
pub open spec fn content_row(st: &BlockStyle, line: Seq<char>, inner_w: int, vbar: Seq<char>) -> Seq<char> {
    let text_w = sub0(inner_w, st.padding.left + st.padding.right);
    let safe0 = crate::ansi::expand_tabs_spec(line, 4);
    let safe = if st.truncate_lines { truncate_spec(safe0, text_w as nat) } else { safe0 };
    framed_row(
        st,
        reps(' ', st.padding.left as int) + safe + reps(' ', sub0(text_w, visible_width_spec(safe) as int)) + reps(' ', st.padding.right as int),
        vbar,
    )
}

/// `n` copies of a line.
pub open spec fn rows(n: int, line: Seq<char>) -> Seq<Seq<char>> {
    Seq::new(if n < 0 { 0 } else { n as nat }, |i: int| line)
}

/// The lines of the block: top margin, top line, top padding, content,
/// bottom padding, bottom line, bottom margin.
pub open spec fn frame_spec(
    st: &BlockStyle,
    raw: Seq<Seq<char>>,
    avail: int,
    viewport: Option<usize>,
    top: Seq<char>,
    bottom: Seq<char>,
    vbar: Seq<char>,
) -> Seq<Seq<char>> {
    let iw = inner_width(st, raw, avail, viewport);
    let pad_row = framed_row(st, reps(' ', iw), vbar);
    let content = shown_lines(st, raw, viewport);
    rows(st.margin.top as int, Seq::empty()) + (if has_top_line(st) { seq![top] } else { Seq::empty() }) + rows(
        st.padding.top as int,
        pad_row,
    ) + Seq::new(content.len(), |i: int| content_row(st, content[i], iw, vbar)) + rows(st.padding.bottom as int, pad_row)
        + (if has_bottom_line(st) { seq![bottom] } else { Seq::empty() }) + rows(st.margin.bottom as int, Seq::empty())
}

/// The border color: the block's, dark grey by default.
pub open spec fn border_col(st: &BlockStyle) -> TermColor {
    match st.border_color {
        Some(c) => c,
        None => TermColor::DarkGrey,
    }
}

/// Whether `out` is the block's frame around the inner lines `raw`, its
/// colored parts (border lines and vertical bars) printed with color output
/// on or off.
pub open spec fn frame_ok(out: Seq<Seq<char>>, st: &BlockStyle, raw: Seq<Seq<char>>, avail: int, viewport: Option<usize>) -> bool {
    let iw = inner_width(st, raw, avail, viewport);
    let (tl, tr, bl, br, h, v) = border_chars(st.border);
    let ts = title_views(st.titles@);
    exists|top: Seq<char>, bottom: Seq<char>, vbar: Seq<char>|
        #![trigger frame_spec(st, raw, avail, viewport, top, bottom, vbar)]
        {
            &&& has_top_line(st) ==> border_ok(top, st.margin.left as int, ts, (tl, tr), h, top_aligns(), iw, border_col(st), st.bg_color)
            &&& has_bottom_line(st) ==> border_ok(bottom, st.margin.left as int, ts, (bl, br), h, bottom_aligns(), iw, border_col(st), st.bg_color)
            &&& (has_top_line(st) || has_bottom_line(st)) ==> is_styled(vbar, seq![v], fg_spec(border_col(st)))
            &&& out == frame_spec(st, raw, avail, viewport, top, bottom, vbar)
        }
}

/// While running, a frame within a height limit (the block's maximum height,
/// else the terminal's) is no taller than the limit when the limit leaves
/// room for margins, paddings and border lines, and it shows the latest
/// content lines; without a limit (the final frame) every line is shown.
pub proof fn law_viewport_shows_latest_lines(
    out: Seq<Seq<char>>,
    st: &BlockStyle,
    raw: Seq<Seq<char>>,
    avail: int,
    viewport: Option<usize>,
)
    requires
        frame_ok(out, st, raw, avail, viewport),
    ensures
        out.len() == vert_overhead(st) + shown_lines(st, raw, viewport).len(),
        shown_lines(st, raw, viewport) =~= flatten_lines(raw).skip(
            flatten_lines(raw).len() - shown_lines(st, raw, viewport).len(),
        ),
        height_limit(st, viewport) is None ==> shown_lines(st, raw, viewport) == flatten_lines(raw),
        (match height_limit(st, viewport) {
            Some(h) => vert_overhead(st) <= h ==> out.len() <= h,
            None => true,
        }),
{
    let (top, bottom, vbar) = choose|top: Seq<char>, bottom: Seq<char>, vbar: Seq<char>|
        #![trigger frame_spec(st, raw, avail, viewport, top, bottom, vbar)]
        {
            &&& has_top_line(st) ==> border_ok(top, st.margin.left as int, title_views(st.titles@), (border_chars(st.border).0, border_chars(st.border).1), border_chars(st.border).4, top_aligns(), inner_width(st, raw, avail, viewport), border_col(st), st.bg_color)
            &&& has_bottom_line(st) ==> border_ok(bottom, st.margin.left as int, title_views(st.titles@), (border_chars(st.border).2, border_chars(st.border).3), border_chars(st.border).4, bottom_aligns(), inner_width(st, raw, avail, viewport), border_col(st), st.bg_color)
            &&& (has_top_line(st) || has_bottom_line(st)) ==> is_styled(vbar, seq![border_chars(st.border).5], fg_spec(border_col(st)))
            &&& out == frame_spec(st, raw, avail, viewport, top, bottom, vbar)
        };
    let c = flatten_lines(raw);
    let sh = shown_lines(st, raw, viewport);
    assert(out == frame_spec(st, raw, avail, viewport, top, bottom, vbar));
    assert(c.skip(0) =~= c);
}

} // verus!

verus! {

fn flatten_exec(raw: &Vec<String>) -> (r: Vec<Vec<char>>)
    ensures
        cviews(r@) == flatten_lines(views(raw@)),
{
    let ghost rv = views(raw@);
    let mut out: Vec<Vec<char>> = Vec::new();
    let mut i: usize = 0;
    assert(rv.take(0) =~= Seq::<Seq<char>>::empty());
    while i < raw.len()
        invariant
            rv == views(raw@),
            i <= raw@.len(),
            cviews(out@) == flatten_lines(rv.take(i as int)),
        decreases raw.len() - i,
    {
        assert(rv.take(i + 1).drop_last() =~= rv.take(i as int));
        assert(rv[i as int] == raw@[i as int]@);
        let parts = crate::text::split_chars(chars_of(raw[i].as_str()).as_slice(), '\n');
        let ghost before = cviews(out@);
        let mut k: usize = 0;
        while k < parts.len()
            invariant
                rv == views(raw@),
                i < raw@.len(),
                k <= parts@.len(),
                parts@.len() == split_on(rv[i as int], '\n').len(),
                forall|q: int| 0 <= q < parts@.len() ==> #[trigger] parts@[q]@ == split_on(rv[i as int], '\n')[q],
                cviews(out@) == before + split_on(rv[i as int], '\n').take(k as int),
            decreases parts.len() - k,
        {
            let ghost b2 = out@;
            let e = parts[k].clone();
            assert(e@ == split_on(rv[i as int], '\n')[k as int]);
            out.push(e);
            let ghost sp = split_on(rv[i as int], '\n');
            assert(cviews(out@) =~= cviews(b2).push(e@));
            assert(before + sp.take(k + 1) =~= (before + sp.take(k as int)).push(sp[k as int]));
            k += 1;
        }
        assert(split_on(rv[i as int], '\n').take(parts@.len() as int) =~= split_on(rv[i as int], '\n'));
        i += 1;
    }
    assert(rv.take(raw@.len() as int) =~= rv);
    out
}

fn lines_width_exec(ls: &Vec<Vec<char>>) -> (r: usize)
    ensures
        r == lines_width(cviews(ls@)),
{
    let ghost cv = cviews(ls@);
    let mut w: usize = 0;
    let mut i: usize = 0;
    assert(cv.take(0) =~= Seq::<Seq<char>>::empty());
    while i < ls.len()
        invariant
            cv == cviews(ls@),
            i <= ls@.len(),
            w == lines_width(cv.take(i as int)),
        decreases ls.len() - i,
    {
        assert(cv.take(i + 1).drop_last() =~= cv.take(i as int));
        assert(cv[i as int] == ls@[i as int]@);
        let x = crate::ansi::visible_width_chars(ls[i].as_slice());
        if x > w {
            w = x;
        }
        i += 1;
    }
    assert(cv.take(ls@.len() as int) =~= cv);
    w
}

impl BlockStyle {
    /// The default block: no titles, border or colors, one column of right
    /// padding, no size limits.
    pub fn new() -> (r: BlockStyle)
        ensures
            r.titles@.len() == 0,
            r.border == BorderStyle::Hidden,
            r.border_color is None,
            r.bg_color is None,
            r.margin == (Margin { top: 0, right: 0, bottom: 0, left: 0 }),
            r.padding == (Padding { top: 0, right: 1, bottom: 0, left: 0 }),
            r.min_width is None && r.max_width is None && r.min_height is None && r.max_height is None,
            !r.truncate_lines && !r.no_top_border && !r.no_bottom_border && !r.show_cursor,
            !r.remove_on_finish && r.blink_color is None && r.blink_ms == 600,
    {
        BlockStyle {
            titles: Vec::new(),
            border: BorderStyle::Hidden,
            border_color: None,
            bg_color: None,
            margin: Margin { top: 0, right: 0, bottom: 0, left: 0 },
            padding: Padding { top: 0, right: 1, bottom: 0, left: 0 },
            min_width: None,
            max_width: None,
            min_height: None,
            max_height: None,
            truncate_lines: false,
            no_top_border: false,
            no_bottom_border: false,
            show_cursor: false,
            remove_on_finish: false,
            blink_color: None,
            blink_ms: 600,
        }
    }

    /// Rows taken by the border and the vertical padding.
    pub fn vertical_overhead(&self) -> (r: usize)
        requires
            sizes_fit(self),
        ensures
            r == (if self.border != BorderStyle::Hidden { 2int } else { 0 }) + self.padding.top + self.padding.bottom,
    {
        let b: usize = if self.border != BorderStyle::Hidden { 2 } else { 0 };
        b + self.padding.top + self.padding.bottom
    }

    /// Columns taken by the border, the horizontal margins and the horizontal padding.
    pub fn horizontal_overhead(&self) -> (r: usize)
        requires
            sizes_fit(self),
        ensures
            r == (if self.border != BorderStyle::Hidden { 2int } else { 0 }) + self.margin.left + self.margin.right
                + self.padding.left + self.padding.right,
    {
        let b: usize = if self.border != BorderStyle::Hidden { 2 } else { 0 };
        b + self.margin.left + self.margin.right + self.padding.left + self.padding.right
    }

    fn has_top_exec(&self) -> (r: bool)
        ensures
            r == has_top_line(self),
    {
        !self.no_top_border && (self.border != BorderStyle::Hidden || any_title_exec(
            &self.titles,
            (Align::TopLeft, Align::TopCenter, Align::TopRight),
        ))
    }

    fn has_bottom_exec(&self) -> (r: bool)
        ensures
            r == has_bottom_line(self),
    {
        !self.no_bottom_border && (self.border != BorderStyle::Hidden || any_title_exec(
            &self.titles,
            (Align::BottomLeft, Align::BottomCenter, Align::BottomRight),
        ))
    }

    /// Where the terminal cursor goes for a cursor at `cursor` inside the
    /// widget: shifted by the left margin, border and padding and by the top
    /// margin, top line and padding; none when the block hides the cursor.
    pub fn calculate_cursor_offset(&self, cursor: Option<(usize, usize)>) -> (r: Option<(u16, u16)>)
        requires
            sizes_fit(self),
            cursor matches Some((x, y)) ==> x + self.margin.left + self.padding.left + 1 <= usize::MAX
                && y + self.margin.top + self.padding.top + 1 <= usize::MAX,
        ensures
            r == (if !self.show_cursor || cursor is None {
                None
            } else {
                let (x, y) = cursor->0;
                Some((
                    (self.margin.left + (if self.border != BorderStyle::Hidden { 1int } else { 0 }) + self.padding.left + x) as u16,
                    (self.margin.top + (if has_top_line(self) { 1int } else { 0 }) + self.padding.top + y) as u16,
                ))
            }),
    {
        if !self.show_cursor {
            return None;
        }
        let (rx, ry) = match cursor {
            Some(c) => c,
            None => return None,
        };
        let left: usize = if self.border != BorderStyle::Hidden { 1 } else { 0 };
        let top: usize = if self.has_top_exec() { 1 } else { 0 };
        let x = self.margin.left + left + self.padding.left + rx;
        let y = self.margin.top + top + self.padding.top + ry;
        Some((x as u16, y as u16))
    }

    /// Limits for the inner widget: the text width (none when the block
    /// truncates lines itself) and the rows it may fill.
    pub fn frame_limits(&self, available_width: usize, viewport_height: Option<usize>) -> (r: (Option<usize>, Option<usize>))
        requires
            sizes_fit(self),
        ensures
            r.0 == (if self.truncate_lines { None } else { Some(max_inner(self, available_width as int) as usize) }),
            r.1 == (match height_limit(self, viewport_height) {
                Some(h) => Some(sub0(h as int, vert_overhead(self)) as usize),
                None => None,
            }),
    {
        let mi = self.max_inner_exec(available_width);
        let w = if self.truncate_lines { None } else { Some(mi) };
        let vo = self.vert_overhead_exec();
        let lim = match self.max_height {
            Some(h) => Some(h),
            None => viewport_height,
        };
        let h = match lim {
            Some(h) => Some(if h > vo { h - vo } else { 0 }),
            None => None,
        };
        (w, h)
    }

    fn vert_overhead_exec(&self) -> (r: usize)
        requires
            sizes_fit(self),
        ensures
            r == vert_overhead(self),
    {
        let t: usize = if self.has_top_exec() { 1 } else { 0 };
        let b: usize = if self.has_bottom_exec() { 1 } else { 0 };
        self.margin.top + self.margin.bottom + self.padding.top + self.padding.bottom + t + b
    }

    fn max_inner_exec(&self, avail: usize) -> (r: usize)
        requires
            sizes_fit(self),
        ensures
            r == max_inner(self, avail as int),
    {
        let bo: usize = if self.has_top_exec() || self.has_bottom_exec() { 2 } else { 0 };
        let horiz = bo + self.padding.left + self.padding.right + self.margin.left + self.margin.right;
        let safe = if avail > 1 { avail - 1 } else { 0 };
        let m = if safe > horiz { safe - horiz } else { 0 };
        match self.max_width {
            Some(mw) => {
                let o = bo + self.padding.left + self.padding.right;
                let u = if mw > o { mw - o } else { 0 };
                if u < m { u } else { m }
            },
            None => m,
        }
    }
}

} // verus!

verus! {

impl BlockStyle {
    fn shown_exec(&self, raw: &Vec<String>, viewport: Option<usize>) -> (r: Vec<Vec<char>>)
        requires
            sizes_fit(self),
        ensures
            cviews(r@) == shown_lines(self, views(raw@), viewport),
    {
        let c = flatten_exec(raw);
        let lim = match self.max_height {
            Some(h) => Some(h),
            None => viewport,
        };
        match lim {
            Some(mh) => {
                let vo = self.vert_overhead_exec();
                let rows = if mh > vo { mh - vo } else { 0 };
                if c.len() > rows {
                    let mut out: Vec<Vec<char>> = Vec::new();
                    let from = c.len() - rows;
                    let mut i = from;
                    while i < c.len()
                        invariant
                            from <= i <= c@.len(),
                            cviews(out@) == cviews(c@).subrange(from as int, i as int),
                        decreases c.len() - i,
                    {
                        let ghost b = out@;
                        let e = c[i].clone();
                        out.push(e);
                        assert(cviews(out@) =~= cviews(b).push(e@));
                        assert(cviews(c@).subrange(from as int, i + 1) =~= cviews(c@).subrange(from as int, i as int).push(
                            c@[i as int]@,
                        ));
                        i += 1;
                    }
                    out
                } else {
                    c
                }
            },
            None => c,
        }
    }

    fn inner_w_exec(&self, shown: &Vec<Vec<char>>, raw: &Vec<String>, avail: usize, viewport: Option<usize>) -> (r: usize)
        requires
            sizes_fit(self),
            cviews(shown@) == shown_lines(self, views(raw@), viewport),
        ensures
            r == inner_width(self, views(raw@), avail as int, viewport),
    {
        let pl = self.padding.left;
        let pr = self.padding.right;
        let acw = lines_width_exec(shown);
        let tw = titles_width_exec(&self.titles, (Align::TopLeft, Align::TopCenter, Align::TopRight));
        let bw = titles_width_exec(&self.titles, (Align::BottomLeft, Align::BottomCenter, Align::BottomRight));
        let tmax = if tw >= bw { tw } else { bw };
        let c = acw.saturating_add(pl).saturating_add(pr);
        let mut w = if c >= tmax { c } else { tmax };
        let bo: usize = if self.has_top_exec() || self.has_bottom_exec() { 2 } else { 0 };
        match self.min_width {
            Some(mw) => {
                let m = if mw > bo { mw - bo } else { 0 };
                if m > w {
                    w = m;
                }
            },
            None => {},
        }
        let cap = self.max_inner_exec(avail).saturating_add(pl).saturating_add(pr);
        if cap < w { cap } else { w }
    }

    fn framed_row_exec(&self, inner: &Vec<char>, vbar: &Vec<char>, has_border: bool) -> (r: Vec<char>)
        requires
            has_border == (has_top_line(self) || has_bottom_line(self)),
        ensures
            r@ == framed_row(self, inner@, vbar@),
    {
        let body = if has_border {
            let mut b = vbar.clone();
            extend_chars(&mut b, inner.as_slice());
            extend_chars(&mut b, vbar.as_slice());
            b
        } else {
            inner.clone()
        };
        let bg = apply_bg(&body, self.bg_color);
        let mut out = reps_exec(' ', self.margin.left);
        extend_chars(&mut out, bg.as_slice());
        out
    }

    fn content_row_exec(&self, line: &Vec<char>, inner_w: usize, vbar: &Vec<char>, has_border: bool) -> (r: Vec<char>)
        requires
            has_border == (has_top_line(self) || has_bottom_line(self)),
            sizes_fit(self),
        ensures
            r@ == content_row(self, line@, inner_w as int, vbar@),
    {
        let pads = self.padding.left + self.padding.right;
        let text_w = if inner_w > pads { inner_w - pads } else { 0 };
        let s = string_of(line.as_slice());
        let safe0 = crate::ansi::expand_tabs(s.as_str(), 4);
        let safe = if self.truncate_lines { truncate_str(safe0.as_str(), text_w) } else { safe0 };
        let w = visible_width(safe.as_str());
        let right = if text_w > w { text_w - w } else { 0 };
        let mut inner = reps_exec(' ', self.padding.left);
        extend_chars(&mut inner, chars_of(safe.as_str()).as_slice());
        extend_chars(&mut inner, reps_exec(' ', right).as_slice());
        extend_chars(&mut inner, reps_exec(' ', self.padding.right).as_slice());
        self.framed_row_exec(&inner, vbar, has_border)
    }

    /// The block's frame around the lines `raw` of its inner widget, for a
    /// terminal `available_width` columns wide (see `frame_ok`).
    pub fn render_frame_with_viewport(&self, raw: &Vec<String>, available_width: usize, viewport_height: Option<usize>) -> (r: Vec<String>)
        requires
            sizes_fit(self),
        ensures
            frame_ok(views(r@), self, views(raw@), available_width as int, viewport_height),
    {
        let ghost rv = views(raw@);
        let has_top = self.has_top_exec();
        let has_bot = self.has_bottom_exec();
        let has_border = has_top || has_bot;
        let col = match self.border_color {
            Some(c) => c,
            None => TermColor::DarkGrey,
        };
        let (tl, tr, bl, br, h, v) = self.border.as_chars();
        let shown = self.shown_exec(raw, viewport_height);
        let iw = self.inner_w_exec(&shown, raw, available_width, viewport_height);
        let top = if has_top {
            render_border_line(self.margin.left, &self.titles, (tl, tr), h, (Align::TopLeft, Align::TopCenter, Align::TopRight), iw, col, self.bg_color)
        } else {
            String::new()
        };
        let bottom = if has_bot {
            render_border_line(self.margin.left, &self.titles, (bl, br), h, (Align::BottomLeft, Align::BottomCenter, Align::BottomRight), iw, col, self.bg_color)
        } else {
            String::new()
        };
        let st = TextStyle { fg: Some(col), bg: None, bold: false, dim: false, italic: false, underlined: false };
        let vv = vec![v];
        assert(vv@ =~= seq![v]);
        let vbar = styled_chars(&vv, st);
        let pad_row = self.framed_row_exec(&reps_exec(' ', iw), &vbar, has_border);
        let ghost fr = frame_spec(self, rv, available_width as int, viewport_height, top@, bottom@, vbar@);
        let ghost content = shown_lines(self, rv, viewport_height);
        assert(cviews(shown@) == content);
        let ghost p1 = rows(self.margin.top as int, Seq::<char>::empty());
        let ghost p2 = if has_top_line(self) { seq![top@] } else { Seq::<Seq<char>>::empty() };
        let ghost p3 = rows(self.padding.top as int, pad_row@);
        let ghost p4 = Seq::new(content.len(), |k: int| content_row(self, content[k], iw as int, vbar@));
        let ghost p5 = rows(self.padding.bottom as int, pad_row@);
        let ghost p6 = if has_bottom_line(self) { seq![bottom@] } else { Seq::<Seq<char>>::empty() };
        let ghost p7 = rows(self.margin.bottom as int, Seq::<char>::empty());
        assert(fr == p1 + p2 + p3 + p4 + p5 + p6 + p7);
        let mut out: Vec<String> = Vec::new();
        let empty_line: Vec<char> = Vec::new();
        assert(views(out@) =~= Seq::<Seq<char>>::empty());
        push_rows(&mut out, self.margin.top, &empty_line);
        assert(views(out@) =~= p1);
        if has_top {
            let ghost b = out@;
            out.push(top.clone());
            assert(views(out@) =~= views(b).push(top@));
        }
        assert(views(out@) =~= p1 + p2);
        push_rows(&mut out, self.padding.top, &pad_row);
        assert(views(out@) =~= p1 + p2 + p3);
        let mut i: usize = 0;
        let ghost before = views(out@);
        while i < shown.len()
            invariant
                i <= shown@.len(),
                has_border == (has_top_line(self) || has_bottom_line(self)),
                sizes_fit(self),
                views(out@) == before + Seq::new(i as nat, |k: int| content_row(self, cviews(shown@)[k], iw as int, vbar@)),
            decreases shown.len() - i,
        {
            let row = self.content_row_exec(&shown[i], iw, &vbar, has_border);
            let ghost b = out@;
            out.push(string_of(row.as_slice()));
            assert(views(out@) =~= before + Seq::new((i + 1) as nat, |k: int| content_row(self, cviews(shown@)[k], iw as int, vbar@))) by {
                assert(views(out@) =~= views(b).push(row@));
            }
            i += 1;
        }
        assert(Seq::new(shown@.len() as nat, |k: int| content_row(self, cviews(shown@)[k], iw as int, vbar@)) =~= p4);
        assert(views(out@) =~= p1 + p2 + p3 + p4);
        push_rows(&mut out, self.padding.bottom, &pad_row);
        if has_bot {
            let ghost b = out@;
            out.push(bottom.clone());
            assert(views(out@) =~= views(b).push(bottom@));
        }
        assert(views(out@) =~= p1 + p2 + p3 + p4 + p5 + p6);
        push_rows(&mut out, self.margin.bottom, &empty_line);
        assert(empty_line@ =~= Seq::<char>::empty());
        assert(views(out@) =~= fr);
        out
    }
}

/// A copy of the titles: the same texts and alignments.
fn copy_titles(ts: &Vec<Title>) -> (r: Vec<Title>)
    ensures
        r@ == ts@,
{
    let mut r: Vec<Title> = Vec::new();
    let mut i: usize = 0;
    while i < ts.len()
        invariant
            i <= ts@.len(),
            r@ == ts@.take(i as int),
        decreases ts.len() - i,
    {
        let t = Title { text: ts[i].text.clone(), align: ts[i].align };
        assert(t == ts@[i as int]);
        r.push(t);
        assert(ts@.take(i + 1) =~= ts@.take(i as int).push(ts@[i as int]));
        i += 1;
    }
    assert(ts@.take(ts@.len() as int) =~= ts@);
    r
}

/// Two styles that differ only in holding equal titles in different vectors
/// frame the same lines.
proof fn lemma_frame_ok_same_titles(
    out: Seq<Seq<char>>,
    a: &BlockStyle,
    b: &BlockStyle,
    raw: Seq<Seq<char>>,
    avail: int,
    vp: Option<usize>,
)
    requires
        *a == (BlockStyle { titles: a.titles, ..*b }),
        a.titles@ == b.titles@,
    ensures
        frame_ok(out, a, raw, avail, vp) == frame_ok(out, b, raw, avail, vp),
{
    assert(title_views(a.titles@) == title_views(b.titles@));
    assert(has_top_line(a) == has_top_line(b));
    assert(has_bottom_line(a) == has_bottom_line(b));
    assert(vert_overhead(a) == vert_overhead(b));
    assert(shown_lines(a, raw, vp) == shown_lines(b, raw, vp));
    assert(inner_width(a, raw, avail, vp) == inner_width(b, raw, avail, vp));
    assert forall|top: Seq<char>, bottom: Seq<char>, vbar: Seq<char>|
        #[trigger] frame_spec(a, raw, avail, vp, top, bottom, vbar) == frame_spec(b, raw, avail, vp, top, bottom, vbar) by {
        let iw = inner_width(a, raw, avail, vp);
        let content = shown_lines(a, raw, vp);
        assert(framed_row(a, reps(' ', iw), vbar) == framed_row(b, reps(' ', iw), vbar));
        assert(Seq::new(content.len(), |i: int| content_row(a, content[i], iw, vbar)) =~= Seq::new(
            content.len(),
            |i: int| content_row(b, content[i], iw, vbar),
        ));
    }
    if frame_ok(out, a, raw, avail, vp) {
        let (top, bottom, vbar) = choose|top: Seq<char>, bottom: Seq<char>, vbar: Seq<char>|
            #![trigger frame_spec(a, raw, avail, vp, top, bottom, vbar)]
            {
                &&& has_top_line(a) ==> border_ok(top, a.margin.left as int, title_views(a.titles@), (border_chars(a.border).0, border_chars(a.border).1), border_chars(a.border).4, top_aligns(), inner_width(a, raw, avail, vp), border_col(a), a.bg_color)
                &&& has_bottom_line(a) ==> border_ok(bottom, a.margin.left as int, title_views(a.titles@), (border_chars(a.border).2, border_chars(a.border).3), border_chars(a.border).4, bottom_aligns(), inner_width(a, raw, avail, vp), border_col(a), a.bg_color)
                &&& (has_top_line(a) || has_bottom_line(a)) ==> is_styled(vbar, seq![border_chars(a.border).5], fg_spec(border_col(a)))
                &&& out == frame_spec(a, raw, avail, vp, top, bottom, vbar)
            };
        assert(frame_spec(a, raw, avail, vp, top, bottom, vbar) == frame_spec(b, raw, avail, vp, top, bottom, vbar));
    }
    if frame_ok(out, b, raw, avail, vp) {
        let (top, bottom, vbar) = choose|top: Seq<char>, bottom: Seq<char>, vbar: Seq<char>|
            #![trigger frame_spec(b, raw, avail, vp, top, bottom, vbar)]
            {
                &&& has_top_line(b) ==> border_ok(top, b.margin.left as int, title_views(b.titles@), (border_chars(b.border).0, border_chars(b.border).1), border_chars(b.border).4, top_aligns(), inner_width(b, raw, avail, vp), border_col(b), b.bg_color)
                &&& has_bottom_line(b) ==> border_ok(bottom, b.margin.left as int, title_views(b.titles@), (border_chars(b.border).2, border_chars(b.border).3), border_chars(b.border).4, bottom_aligns(), inner_width(b, raw, avail, vp), border_col(b), b.bg_color)
                &&& (has_top_line(b) || has_bottom_line(b)) ==> is_styled(vbar, seq![border_chars(b.border).5], fg_spec(border_col(b)))
                &&& out == frame_spec(b, raw, avail, vp, top, bottom, vbar)
            };
        assert(frame_spec(a, raw, avail, vp, top, bottom, vbar) == frame_spec(b, raw, avail, vp, top, bottom, vbar));
    }
}

impl BlockStyle {
    /// The frame left on screen when the block finishes: nothing when the
    /// block is removed on finish; otherwise the whole content, with no
    /// height limit and no viewport.
    pub fn final_frame(&self, raw: &Vec<String>, available_width: usize) -> (r: Vec<String>)
        requires
            sizes_fit(self),
        ensures
            self.remove_on_finish ==> r@.len() == 0,
            !self.remove_on_finish ==> frame_ok(
                views(r@),
                &BlockStyle { max_height: None, ..*self },
                views(raw@),
                available_width as int,
                None,
            ),
    {
        if self.remove_on_finish {
            return Vec::new();
        }
        let st = BlockStyle {
            titles: copy_titles(&self.titles),
            border: self.border,
            border_color: self.border_color,
            bg_color: self.bg_color,
            margin: self.margin,
            padding: self.padding,
            min_width: self.min_width,
            max_width: self.max_width,
            min_height: self.min_height,
            max_height: None,
            truncate_lines: self.truncate_lines,
            no_top_border: self.no_top_border,
            no_bottom_border: self.no_bottom_border,
            show_cursor: self.show_cursor,
            remove_on_finish: self.remove_on_finish,
            blink_color: self.blink_color,
            blink_ms: self.blink_ms,
        };
        let r = st.render_frame_with_viewport(raw, available_width, None);
        proof {
            let t = BlockStyle { max_height: None, ..*self };
            lemma_frame_ok_same_titles(views(r@), &st, &t, views(raw@), available_width as int, None);
        }
        r
    }
}

/// Appends `n` copies of `line`.
fn push_rows(out: &mut Vec<String>, n: usize, line: &Vec<char>)
    ensures
        views(final(out)@) == views(old(out)@) + rows(n as int, line@),
{
    let ghost before = views(out@);
    let mut i: usize = 0;
    while i < n
        invariant
            i <= n,
            views(out@) == before + rows(i as int, line@),
        decreases n - i,
    {
        let ghost b = out@;
        out.push(string_of(line.as_slice()));
        assert(views(out@) =~= before + rows(i + 1, line@)) by {
            assert(views(out@) =~= views(b).push(line@));
        }
        i += 1;
    }
}

} // verus!

verus! {

impl BlockStyle {
    /// Shows or hides the terminal cursor while the block runs.
    pub fn show_cursor(self, show: bool) -> (r: BlockStyle)
        ensures
            r == (BlockStyle { show_cursor: show, ..self }),
    {
        BlockStyle { show_cursor: show, ..self }
    }

    /// Fixes the width (both limits).
    pub fn width(self, width: usize) -> (r: BlockStyle)
        ensures
            r == (BlockStyle { min_width: Some(width), max_width: Some(width), ..self }),
    {
        BlockStyle { min_width: Some(width), max_width: Some(width), ..self }
    }

    /// Sets the smallest width.
    pub fn min_width(self, width: usize) -> (r: BlockStyle)
        ensures
            r == (BlockStyle { min_width: Some(width), ..self }),
    {
        BlockStyle { min_width: Some(width), ..self }
    }

    /// Sets the largest width.
    pub fn max_width(self, width: usize) -> (r: BlockStyle)
        ensures
            r == (BlockStyle { max_width: Some(width), ..self }),
    {
        BlockStyle { max_width: Some(width), ..self }
    }

    /// Fixes the height (both limits).
    pub fn height(self, height: usize) -> (r: BlockStyle)
        ensures
            r == (BlockStyle { min_height: Some(height), max_height: Some(height), ..self }),
    {
        BlockStyle { min_height: Some(height), max_height: Some(height), ..self }
    }

    /// Sets the smallest height.
    pub fn min_height(self, height: usize) -> (r: BlockStyle)
        ensures
            r == (BlockStyle { min_height: Some(height), ..self }),
    {
        BlockStyle { min_height: Some(height), ..self }
    }

    /// Sets the largest height.
    pub fn max_height(self, height: usize) -> (r: BlockStyle)
        ensures
            r == (BlockStyle { max_height: Some(height), ..self }),
    {
        BlockStyle { max_height: Some(height), ..self }
    }

    /// Cuts lines at the width instead of wrapping them.
    pub fn truncate_lines(self, enable: bool) -> (r: BlockStyle)
        ensures
            r == (BlockStyle { truncate_lines: enable, ..self }),
    {
        BlockStyle { truncate_lines: enable, ..self }
    }

    /// Erases the block when it finishes.
    pub fn clear_after(self, clear: bool) -> (r: BlockStyle)
        ensures
            r == (BlockStyle { remove_on_finish: clear, ..self }),
    {
        BlockStyle { remove_on_finish: clear, ..self }
    }

    /// Leaves out the top line.
    pub fn no_top_border(self, hide: bool) -> (r: BlockStyle)
        ensures
            r == (BlockStyle { no_top_border: hide, ..self }),
    {
        BlockStyle { no_top_border: hide, ..self }
    }

    /// Leaves out the bottom line.
    pub fn no_bottom_border(self, hide: bool) -> (r: BlockStyle)
        ensures
            r == (BlockStyle { no_bottom_border: hide, ..self }),
    {
        BlockStyle { no_bottom_border: hide, ..self }
    }

    /// Adds a title on the border, last.
    pub fn title(self, text: &str, align: Align) -> (r: BlockStyle)
        ensures
            title_views(r.titles@) == title_views(self.titles@).push((text@, align)),
            r == (BlockStyle { titles: r.titles, ..self }),
    {
        let mut b = self;
        let ghost before = title_views(b.titles@);
        let t = crate::text::string_of(crate::text::chars_of(text).as_slice());
        b.titles.push(Title { text: t, align });
        assert(title_views(b.titles@) =~= before.push((text@, align)));
        b
    }

    /// Sets the background color.
    pub fn background_color(self, color: TermColor) -> (r: BlockStyle)
        ensures
            r == (BlockStyle { bg_color: Some(color), ..self }),
    {
        BlockStyle { bg_color: Some(color), ..self }
    }

    /// Sets the color the background flashes in when the block finishes.
    pub fn blink_color(self, color: TermColor) -> (r: BlockStyle)
        ensures
            r == (BlockStyle { blink_color: Some(color), ..self }),
    {
        BlockStyle { blink_color: Some(color), ..self }
    }

    /// Sets how long the flash lasts, in milliseconds.
    pub fn blink_duration(self, ms: u64) -> (r: BlockStyle)
        ensures
            r == (BlockStyle { blink_ms: ms, ..self }),
    {
        BlockStyle { blink_ms: ms, ..self }
    }

    /// Sets the padding.
    pub fn padding(self, padding: Padding) -> (r: BlockStyle)
        ensures
            r == (BlockStyle { padding, ..self }),
    {
        BlockStyle { padding, ..self }
    }

    /// Sets the top and bottom padding.
    pub fn padding_ver(self, n: usize) -> (r: BlockStyle)
        ensures
            r == (BlockStyle { padding: Padding { top: n, bottom: n, ..self.padding }, ..self }),
    {
        let p = Padding { top: n, bottom: n, ..self.padding };
        BlockStyle { padding: p, ..self }
    }

    /// Sets the left and right padding.
    pub fn padding_hor(self, n: usize) -> (r: BlockStyle)
        ensures
            r == (BlockStyle { padding: Padding { left: n, right: n, ..self.padding }, ..self }),
    {
        let p = Padding { left: n, right: n, ..self.padding };
        BlockStyle { padding: p, ..self }
    }

    /// Sets the top padding.
    pub fn padding_top(self, n: usize) -> (r: BlockStyle)
        ensures
            r == (BlockStyle { padding: Padding { top: n, ..self.padding }, ..self }),
    {
        let p = Padding { top: n, ..self.padding };
        BlockStyle { padding: p, ..self }
    }

    /// Sets the right padding.
    pub fn padding_right(self, n: usize) -> (r: BlockStyle)
        ensures
            r == (BlockStyle { padding: Padding { right: n, ..self.padding }, ..self }),
    {
        let p = Padding { right: n, ..self.padding };
        BlockStyle { padding: p, ..self }
    }

    /// Sets the bottom padding.
    pub fn padding_bottom(self, n: usize) -> (r: BlockStyle)
        ensures
            r == (BlockStyle { padding: Padding { bottom: n, ..self.padding }, ..self }),
    {
        let p = Padding { bottom: n, ..self.padding };
        BlockStyle { padding: p, ..self }
    }

    /// Sets the left padding.
    pub fn padding_left(self, n: usize) -> (r: BlockStyle)
        ensures
            r == (BlockStyle { padding: Padding { left: n, ..self.padding }, ..self }),
    {
        let p = Padding { left: n, ..self.padding };
        BlockStyle { padding: p, ..self }
    }

    /// Sets the margin.
    pub fn margin(self, margin: Margin) -> (r: BlockStyle)
        ensures
            r == (BlockStyle { margin, ..self }),
    {
        BlockStyle { margin, ..self }
    }

    /// Sets the top and bottom margin.
    pub fn margin_ver(self, n: usize) -> (r: BlockStyle)
        ensures
            r == (BlockStyle { margin: Margin { top: n, bottom: n, ..self.margin }, ..self }),
    {
        let m = Margin { top: n, bottom: n, ..self.margin };
        BlockStyle { margin: m, ..self }
    }

    /// Sets the left and right margin.
    pub fn margin_hor(self, n: usize) -> (r: BlockStyle)
        ensures
            r == (BlockStyle { margin: Margin { left: n, right: n, ..self.margin }, ..self }),
    {
        let m = Margin { left: n, right: n, ..self.margin };
        BlockStyle { margin: m, ..self }
    }

    /// Sets the top margin.
    pub fn margin_top(self, n: usize) -> (r: BlockStyle)
        ensures
            r == (BlockStyle { margin: Margin { top: n, ..self.margin }, ..self }),
    {
        let m = Margin { top: n, ..self.margin };
        BlockStyle { margin: m, ..self }
    }

    /// Sets the right margin.
    pub fn margin_right(self, n: usize) -> (r: BlockStyle)
        ensures
            r == (BlockStyle { margin: Margin { right: n, ..self.margin }, ..self }),
    {
        let m = Margin { right: n, ..self.margin };
        BlockStyle { margin: m, ..self }
    }

    /// Sets the bottom margin.
    pub fn margin_bottom(self, n: usize) -> (r: BlockStyle)
        ensures
            r == (BlockStyle { margin: Margin { bottom: n, ..self.margin }, ..self }),
    {
        let m = Margin { bottom: n, ..self.margin };
        BlockStyle { margin: m, ..self }
    }

    /// Sets the left margin.
    pub fn margin_left(self, n: usize) -> (r: BlockStyle)
        ensures
            r == (BlockStyle { margin: Margin { left: n, ..self.margin }, ..self }),
    {
        let m = Margin { left: n, ..self.margin };
        BlockStyle { margin: m, ..self }
    }

    /// Sets the border style.
    pub fn border_style(self, border: BorderStyle) -> (r: BlockStyle)
        ensures
            r == (BlockStyle { border, ..self }),
    {
        BlockStyle { border, ..self }
    }

    /// Sets the border color.
    pub fn border_color(self, color: TermColor) -> (r: BlockStyle)
        ensures
            r == (BlockStyle { border_color: Some(color), ..self }),
    {
        BlockStyle { border_color: Some(color), ..self }
    }
}

} // verus!
