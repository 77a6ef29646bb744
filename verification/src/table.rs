//! Tables laid out in the terminal: column widths fitted to the available
//! width, cells wrapped at word boundaries and aligned, box-drawing borders.
use vstd::prelude::*;
use crate::ansi::{align_spec, visible_width_spec, CellAlign};
use crate::block::{reps, sub0};
use crate::paint::{bold_spec, styled_spec};
use crate::text::{join_by, words_of};

verus! {

/// Number of columns: the longest row.
pub open spec fn num_cols(rows: Seq<Seq<Seq<char>>>) -> int
    decreases rows.len(),
{
    if rows.len() == 0 {
        0
    } else {
        let m = num_cols(rows.drop_last());
        if rows.last().len() > m { rows.last().len() as int } else { m }
    }
}

/// The cell of row `r` in column `c`, empty past the end of the row.
pub open spec fn cell_at(rows: Seq<Seq<Seq<char>>>, r: int, c: int) -> Seq<char> {
    if c < rows[r].len() { rows[r][c] } else { Seq::empty() }
}

/// Widest word of a cell.
pub open spec fn widest_word(ws: Seq<Seq<char>>) -> int
    decreases ws.len(),
{
    if ws.len() == 0 {
        0
    } else {
        let m = widest_word(ws.drop_last());
        let x = visible_width_spec(ws.last()) as int;
        if x > m { x } else { m }
    }
}

/// Smallest width of column `c` over the first `n` rows: its widest word, at least 3.
pub open spec fn col_min(rows: Seq<Seq<Seq<char>>>, c: int, n: int) -> int
    decreases n,
{
    if n <= 0 {
        3
    } else {
        let m = col_min(rows, c, n - 1);
        let x = widest_word(words_of(cell_at(rows, n - 1, c)));
        if x > m { x } else { m }
    }
}

/// Natural width of column `c` over the first `n` rows: its widest cell.
pub open spec fn col_nat(rows: Seq<Seq<Seq<char>>>, c: int, n: int) -> int
    decreases n,
{
    if n <= 0 {
        0
    } else {
        let m = col_nat(rows, c, n - 1);
        let x = visible_width_spec(cell_at(rows, n - 1, c)) as int;
        if x > m { x } else { m }
    }
}

pub open spec fn sum(ws: Seq<int>) -> int
    decreases ws.len(),
{
    if ws.len() == 0 { 0 } else { sum(ws.drop_last()) + ws.last() }
}

/// One pass of handing out `rem` columns one by one, from column `i` on, to
/// the columns still narrower than their natural width.
pub open spec fn rr_pass(ws: Seq<int>, nats: Seq<int>, rem: int, i: int) -> (Seq<int>, int)
    decreases ws.len() - i,
{
    if i < 0 || i >= ws.len() || rem <= 0 {
        (ws, rem)
    } else if ws[i] < nats[i] {
        rr_pass(ws.update(i, ws[i] + 1), nats, rem - 1, i + 1)
    } else {
        rr_pass(ws, nats, rem, i + 1)
    }
}

/// Hands out the remaining columns round-robin until none is left.
pub open spec fn round_robin(ws: Seq<int>, nats: Seq<int>, rem: int) -> Seq<int>
    decreases rem,
{
    if rem <= 0 {
        ws
    } else {
        let (w2, r2) = rr_pass(ws, nats, rem, 0);
        if 0 <= r2 && r2 < rem { round_robin(w2, nats, r2) } else { w2 }
    }
}

/// Column widths for `avail` columns of text: the natural widths when they
/// fit, the smallest widths when not even those fit, otherwise the smallest
/// widths plus the room left shared in proportion to what each column lacks
/// of its natural width, the rounding remainder handed out round-robin.
pub open spec fn col_widths(mins: Seq<int>, nats: Seq<int>, avail: int) -> Seq<int> {
    if sum(nats) <= avail {
        nats
    } else if avail <= sum(mins) {
        mins
    } else {
        let extra = avail - sum(mins);
        let spans = Seq::new(nats.len(), |i: int| sub0(nats[i], mins[i]));
        let pool = sum(spans);
        let extras = Seq::new(nats.len(), |i: int| if pool > 0 { extra * spans[i] / pool } else { 0 });
        round_robin(Seq::new(nats.len(), |i: int| mins[i] + extras[i]), nats, sub0(extra, sum(extras)))
    }
}

/// A border line: `left`, the columns' runs of `─` joined by `mid`, `right`, a line break.
pub open spec fn border(ws: Seq<int>, left: char, mid: char, right: char) -> Seq<char> {
    seq![left] + join_by(Seq::new(ws.len(), |i: int| reps('\u{2500}', ws[i] + 2)), seq![mid]) + seq![right, '\n']
}

/// A cell's text aligned in `tw` columns, in bold for the header row.
pub open spec fn cell_line(text: Seq<char>, tw: int, align: CellAlign, header: bool) -> Seq<char> {
    let a = align_spec(text, tw as nat, align);
    if header { styled_spec(a, bold_spec(), true) } else { a }
}

/// Greedy word wrap state: the lines done, the current line and its width.
pub struct WrapState {
    pub done: Seq<Seq<char>>,
    pub cur: Seq<char>,
    pub cur_w: int,
}

/// Wraps the words `ws` from `i` on into lines of at most `tw` columns
/// (a word wider than that gets a line of its own).
pub open spec fn wrap_words(ws: Seq<Seq<char>>, i: int, tw: int, align: CellAlign, header: bool, st: WrapState) -> Seq<Seq<char>>
    decreases ws.len() - i,
{
    if i < 0 || i >= ws.len() {
        if st.cur.len() > 0 { st.done.push(cell_line(st.cur, tw, align, header)) } else { st.done }
    } else {
        let ww = visible_width_spec(ws[i]) as int;
        let overflow = st.cur_w + ww + (if st.cur_w > 0 { 1int } else { 0 }) > tw;
        let st1 = if overflow && st.cur.len() > 0 {
            WrapState { done: st.done.push(cell_line(st.cur, tw, align, header)), cur: Seq::empty(), cur_w: 0 }
        } else {
            st
        };
        let st2 = if st1.cur.len() > 0 {
            WrapState { cur: st1.cur.push(' '), cur_w: st1.cur_w + 1, ..st1 }
        } else {
            st1
        };
        wrap_words(ws, i + 1, tw, align, header, WrapState { cur: st2.cur + ws[i], cur_w: st2.cur_w + ww, ..st2 })
    }
}

/// The lines of a cell: one aligned line when it fits, otherwise its words wrapped.
pub open spec fn cell_lines(text: Seq<char>, tw: int, align: CellAlign, header: bool) -> Seq<Seq<char>> {
    if visible_width_spec(text) <= tw {
        seq![cell_line(text, tw, align, header)]
    } else {
        wrap_words(words_of(text), 0, tw, align, header, WrapState { done: Seq::empty(), cur: Seq::empty(), cur_w: 0 })
    }
}

/// The alignment of column `c`, none past the given ones.
pub open spec fn align_at(align: Seq<CellAlign>, c: int) -> CellAlign {
    if c < align.len() { align[c] } else { CellAlign::Unset }
}

/// The lines of each cell of row `r`, wrapped to the column widths `ws`.
pub open spec fn row_cell_lines(rows: Seq<Seq<Seq<char>>>, r: int, ws: Seq<int>, align: Seq<CellAlign>) -> Seq<Seq<Seq<char>>> {
    Seq::new(ws.len(), |c: int| cell_lines(cell_at(rows, r, c), ws[c], align_at(align, c), r == 0))
}

/// Line `l` of column `c` between its padding and the column's right bar;
/// a cell with fewer lines shows empty aligned text.
pub open spec fn line_piece(cls: Seq<Seq<Seq<char>>>, ws: Seq<int>, align: Seq<CellAlign>, header: bool, l: int, c: int) -> Seq<char> {
    seq![' '] + (if l < cls[c].len() { cls[c][l] } else { cell_line(Seq::empty(), ws[c], align_at(align, c), header) })
        + seq![' ', '\u{2502}']
}

/// Screen line `l` of a row: the left bar, each column's piece, a line break.
pub open spec fn row_line(cls: Seq<Seq<Seq<char>>>, ws: Seq<int>, align: Seq<CellAlign>, header: bool, l: int) -> Seq<char> {
    seq!['\u{2502}'] + crate::ansi::concat_all(Seq::new(ws.len(), |c: int| line_piece(cls, ws, align, header, l, c))) + seq!['\n']
}

/// The lines of row `r`: as many as its tallest cell.
pub open spec fn row_text(rows: Seq<Seq<Seq<char>>>, r: int, ws: Seq<int>, align: Seq<CellAlign>) -> Seq<char> {
    let cls = row_cell_lines(rows, r, ws, align);
    crate::ansi::concat_all(Seq::new(max_len(cls) as nat, |l: int| row_line(cls, ws, align, r == 0, l)))
}

/// The most lines of any cell, at least one.
pub open spec fn max_len(cls: Seq<Seq<Seq<char>>>) -> int
    decreases cls.len(),
{
    if cls.len() == 0 {
        1
    } else {
        let m = max_len(cls.drop_last());
        if cls.last().len() > m { cls.last().len() as int } else { m }
    }
}

/// A row of blank cells between two data rows.
pub open spec fn blank_row(ws: Seq<int>) -> Seq<char> {
    seq!['\u{2502}'] + crate::ansi::concat_all(Seq::new(ws.len(), |c: int| reps(' ', ws[c] + 2) + seq!['\u{2502}'])) + seq!['\n']
}

/// What follows row `r` of `nrows`: the header separator after the header,
/// a blank row between data rows.
pub open spec fn after_row(nrows: int, r: int, ws: Seq<int>) -> Seq<char> {
    if r == 0 && nrows > 1 {
        border(ws, '\u{251c}', '\u{253c}', '\u{2524}')
    } else if r > 0 && r + 1 < nrows {
        blank_row(ws)
    } else {
        Seq::empty()
    }
}

/// A table of cell texts in `w` columns: nothing without rows or columns;
/// otherwise top border, rows (the first one the header), bottom border.
pub open spec fn table_layout(rows: Seq<Seq<Seq<char>>>, align: Seq<CellAlign>, w: int) -> Seq<char> {
    let n = num_cols(rows);
    if rows.len() == 0 || n == 0 {
        Seq::empty()
    } else {
        let mins = Seq::new(n as nat, |c: int| col_min(rows, c, rows.len() as int));
        let nats = Seq::new(n as nat, |c: int| col_nat(rows, c, rows.len() as int));
        let ws = col_widths(mins, nats, sub0(w, n * 3 + 1));
        border(ws, '\u{250c}', '\u{252c}', '\u{2510}') + crate::ansi::concat_all(
            Seq::new(rows.len(), |r: int| row_text(rows, r, ws, align) + after_row(rows.len() as int, r, ws)),
        ) + border(ws, '\u{2514}', '\u{2534}', '\u{2518}')
    }
}

} // verus!

verus! {

/// Cell texts of rows of character vectors.
pub open spec fn rows_views(v: Seq<Vec<Vec<char>>>) -> Seq<Seq<Seq<char>>> {
    v.map_values(|r: Vec<Vec<char>>| crate::text::cviews(r@))
}

fn cell_line_exec(text: &Vec<char>, tw: usize, align: CellAlign, header: bool) -> (r: Vec<char>)
    ensures
        r@ == cell_line(text@, tw as int, align, header),
{
    let a = crate::ansi::align_chars(text, tw, align);
    if header {
        let st = crate::paint::TextStyle { fg: None, bg: None, bold: true, dim: false, italic: false, underlined: false };
        crate::paint::fixed_styled(&a, st)
    } else {
        a
    }
}

/// The lines of a cell (see `cell_lines`).
pub fn cell_lines_exec(text: &Vec<char>, tw: usize, align: CellAlign, header: bool) -> (r: Vec<Vec<char>>)
    ensures
        crate::text::cviews(r@) == cell_lines(text@, tw as int, align, header),
{
    let w = crate::ansi::visible_width_chars(text.as_slice());
    if w <= tw {
        let l = cell_line_exec(text, tw, align, header);
        let r = vec![l];
        assert(crate::text::cviews(r@) =~= seq![l@]);
        return r;
    }
    let words = crate::text::words_exec(text.as_slice());
    let ghost wv = words_of(text@);
    assert(crate::text::cviews(words@) =~= wv);
    let mut done: Vec<Vec<char>> = Vec::new();
    let mut cur: Vec<char> = Vec::new();
    let mut cur_w: u128 = 0;
    let mut i: usize = 0;
    assert(crate::text::cviews(done@) =~= Seq::<Seq<char>>::empty());
    assert(cur@ =~= Seq::<char>::empty());
    while i < words.len()
        invariant
            crate::text::cviews(words@) == wv,
            i <= words@.len(),
            cur_w <= i * 0x1_0000_0000_0000_0001,
            wrap_words(wv, 0, tw as int, align, header, WrapState { done: Seq::empty(), cur: Seq::empty(), cur_w: 0 })
                == wrap_words(wv, i as int, tw as int, align, header, WrapState { done: crate::text::cviews(done@), cur: cur@, cur_w: cur_w as int }),
        decreases words.len() - i,
    {
        assert(wv[i as int] == words@[i as int]@);
        let ww = crate::ansi::visible_width_chars(words[i].as_slice());
        let sep: u128 = if cur_w > 0 { 1 } else { 0 };
        let overflow = (ww as u128) + cur_w + sep > tw as u128;
        if overflow && cur.len() > 0 {
            let l = cell_line_exec(&cur, tw, align, header);
            let ghost b = done@;
            done.push(l);
            assert(crate::text::cviews(done@) =~= crate::text::cviews(b).push(l@));
            cur = Vec::new();
            cur_w = 0;
        }
        if cur.len() > 0 {
            cur.push(' ');
            cur_w = cur_w + 1;
        }
        crate::text::extend_chars(&mut cur, words[i].as_slice());
        cur_w = cur_w + ww as u128;
        i += 1;
    }
    if cur.len() > 0 {
        let l = cell_line_exec(&cur, tw, align, header);
        let ghost b = done@;
        done.push(l);
        assert(crate::text::cviews(done@) =~= crate::text::cviews(b).push(l@));
    }
    done
}

} // verus!

verus! {

fn num_cols_exec(rows: &Vec<Vec<Vec<char>>>) -> (r: usize)
    ensures
        r == num_cols(rows_views(rows@)),
{
    let ghost rv = rows_views(rows@);
    let mut m: usize = 0;
    let mut i: usize = 0;
    assert(rv.take(0) =~= Seq::<Seq<Seq<char>>>::empty());
    while i < rows.len()
        invariant
            rv == rows_views(rows@),
            i <= rows@.len(),
            m == num_cols(rv.take(i as int)),
        decreases rows.len() - i,
    {
        assert(rv.take(i + 1).drop_last() =~= rv.take(i as int));
        assert(rv[i as int].len() == rows@[i as int]@.len());
        if rows[i].len() > m {
            m = rows[i].len();
        }
        i += 1;
    }
    assert(rv.take(rows@.len() as int) =~= rv);
    m
}

fn cell_at_exec(rows: &Vec<Vec<Vec<char>>>, r: usize, c: usize) -> (x: Vec<char>)
    requires
        r < rows@.len(),
    ensures
        x@ == cell_at(rows_views(rows@), r as int, c as int),
{
    assert(rows_views(rows@)[r as int] == crate::text::cviews(rows@[r as int]@));
    if c < rows[r].len() {
        rows[r][c].clone()
    } else {
        Vec::new()
    }
}

fn widest_word_exec(cell: &Vec<char>) -> (r: usize)
    ensures
        r == widest_word(words_of(cell@)),
{
    let ws = crate::text::words_exec(cell.as_slice());
    let ghost wv = words_of(cell@);
    assert(crate::text::cviews(ws@) =~= wv);
    let mut m: usize = 0;
    let mut i: usize = 0;
    assert(wv.take(0) =~= Seq::<Seq<char>>::empty());
    while i < ws.len()
        invariant
            crate::text::cviews(ws@) == wv,
            i <= ws@.len(),
            m == widest_word(wv.take(i as int)),
        decreases ws.len() - i,
    {
        assert(wv.take(i + 1).drop_last() =~= wv.take(i as int));
        assert(wv[i as int] == ws@[i as int]@);
        let x = crate::ansi::visible_width_chars(ws[i].as_slice());
        if x > m {
            m = x;
        }
        i += 1;
    }
    assert(wv.take(ws@.len() as int) =~= wv);
    m
}

/// The smallest and natural width of column `c`.
fn col_sizes(rows: &Vec<Vec<Vec<char>>>, c: usize) -> (r: (usize, usize))
    ensures
        r.0 == col_min(rows_views(rows@), c as int, rows@.len() as int),
        r.1 == col_nat(rows_views(rows@), c as int, rows@.len() as int),
{
    let mut mn: usize = 3;
    let mut nt: usize = 0;
    let mut i: usize = 0;
    while i < rows.len()
        invariant
            i <= rows@.len(),
            mn == col_min(rows_views(rows@), c as int, i as int),
            nt == col_nat(rows_views(rows@), c as int, i as int),
        decreases rows.len() - i,
    {
        let cell = cell_at_exec(rows, i, c);
        let x = widest_word_exec(&cell);
        if x > mn {
            mn = x;
        }
        let y = crate::ansi::visible_width_chars(cell.as_slice());
        if y > nt {
            nt = y;
        }
        i += 1;
    }
    (mn, nt)
}

pub open spec fn usizes(v: Seq<usize>) -> Seq<int> {
    v.map_values(|x: usize| x as int)
}

fn sum_exec(v: &Vec<usize>) -> (r: u128)
    ensures
        r == sum(usizes(v@)),
{
    let mut s: u128 = 0;
    let mut i: usize = 0;
    assert(usizes(v@).take(0) =~= Seq::<int>::empty());
    while i < v.len()
        invariant
            i <= v@.len(),
            s == sum(usizes(v@).take(i as int)),
            s <= i * 0x1_0000_0000_0000_0000,
        decreases v.len() - i,
    {
        assert(usizes(v@).take(i + 1).drop_last() =~= usizes(v@).take(i as int));
        s = s + v[i] as u128;
        i += 1;
    }
    assert(usizes(v@).take(v@.len() as int) =~= usizes(v@));
    s
}

proof fn lemma_sum_sub0(a: Seq<int>, b: Seq<int>, d: Seq<int>)
    requires
        a.len() == b.len() == d.len(),
        forall|k: int| 0 <= k < d.len() ==> #[trigger] d[k] == sub0(a[k], b[k]),
    ensures
        sum(d) >= sum(a) - sum(b),
    decreases a.len(),
{
    if a.len() > 0 {
        lemma_sum_sub0(a.drop_last(), b.drop_last(), d.drop_last());
    }
}

proof fn lemma_sum_nonneg(ws: Seq<int>)
    requires
        forall|i: int| 0 <= i < ws.len() ==> ws[i] >= 0,
    ensures
        sum(ws) >= 0,
    decreases ws.len(),
{
    if ws.len() > 0 {
        lemma_sum_nonneg(ws.drop_last());
    }
}

/// One round-robin pass (see `rr_pass`).
fn rr_pass_exec(ws: &mut Vec<usize>, nats: &Vec<usize>, rem: usize) -> (r: usize)
    requires
        old(ws)@.len() == nats@.len(),
    ensures
        final(ws)@.len() == nats@.len(),
        (usizes(final(ws)@), r as int) == rr_pass(usizes(old(ws)@), usizes(nats@), rem as int, 0),
        r <= rem,
{
    let ghost w0 = usizes(ws@);
    let ghost rem0 = rem;
    let mut rem = rem;
    let mut i: usize = 0;
    while i < ws.len() && rem > 0
        invariant
            ws@.len() == nats@.len(),
            i <= ws@.len(),
            rr_pass(w0, usizes(nats@), rem0 as int, 0) == rr_pass(usizes(ws@), usizes(nats@), rem as int, i as int),
            rem <= rem0,
        decreases ws.len() - i,
    {
        if ws[i] < nats[i] {
            let ghost b = usizes(ws@);
            ws[i] = ws[i] + 1;
            assert(usizes(ws@) =~= b.update(i as int, b[i as int] + 1));
            rem = rem - 1;
        }
        i += 1;
    }
    rem
}

/// Column widths (see `col_widths`).
fn col_widths_exec(mins: &Vec<usize>, nats: &Vec<usize>, avail: usize) -> (r: Vec<usize>)
    requires
        mins@.len() == nats@.len(),
    ensures
        usizes(r@) == col_widths(usizes(mins@), usizes(nats@), avail as int),
        r@.len() == nats@.len(),
{
    let n = nats.len();
    let tn = sum_exec(nats);
    if tn <= avail as u128 {
        return nats.clone();
    }
    let tm = sum_exec(mins);
    if avail as u128 <= tm {
        return mins.clone();
    }
    let extra = avail - tm as usize;
    let mut spans: Vec<usize> = Vec::new();
    let mut i: usize = 0;
    while i < n
        invariant
            n == nats@.len() == mins@.len(),
            i <= n,
            spans@.len() == i,
            forall|k: int| 0 <= k < i ==> #[trigger] spans@[k] as int == sub0(nats@[k] as int, mins@[k] as int),
        decreases n - i,
    {
        spans.push(if nats[i] > mins[i] { nats[i] - mins[i] } else { 0 });
        i += 1;
    }
    let ghost sv = Seq::new(nats@.len(), |k: int| sub0(usizes(nats@)[k], usizes(mins@)[k]));
    assert(usizes(spans@) =~= sv);
    let pool = sum_exec(&spans);
    proof {
        lemma_sum_sub0(usizes(nats@), usizes(mins@), sv);
    }
    let mut ws: Vec<usize> = Vec::new();
    let mut used: u128 = 0;
    let ghost ev = Seq::new(nats@.len(), |k: int| if pool > 0 { extra * sv[k] / (pool as int) } else { 0 });
    let mut i: usize = 0;
    while i < n
        invariant
            n == nats@.len() == mins@.len() == spans@.len(),
            i <= n,
            ws@.len() == i,
            usizes(spans@) == sv,
            sv == Seq::new(nats@.len(), |k: int| sub0(usizes(nats@)[k], usizes(mins@)[k])),
            ev == Seq::new(nats@.len(), |k: int| if pool > 0 { extra * sv[k] / (pool as int) } else { 0 }),
            extra as int == avail - sum(usizes(mins@)),
            pool == sum(sv),
            extra < pool || pool == 0,
            forall|k: int| 0 <= k < i ==> #[trigger] ws@[k] as int == usizes(mins@)[k] + ev[k],
            used == sum(ev.take(i as int)),
            used <= i * 0x1_0000_0000_0000_0000,
        decreases n - i,
    {
        assert((extra as u128) * (spans@[i as int] as u128) <= u128::MAX) by (nonlinear_arith)
            requires
                extra <= usize::MAX,
                spans@[i as int] <= usize::MAX,
                usize::MAX < 0x1_0000_0000_0000_0000,
        {}
        let e: u128 = if pool > 0 { (extra as u128) * (spans[i] as u128) / pool } else { 0 };
        assert(e <= spans@[i as int]) by (nonlinear_arith)
            requires
                pool > 0 ==> e == (extra as int) * (spans@[i as int] as int) / (pool as int),
                pool == 0 ==> e == 0,
                extra < pool || pool == 0,
        {}
        assert(e == ev[i as int]);
        assert(spans@[i as int] == sv[i as int]);
        assert(mins[i as int] + e <= usize::MAX);
        assert(ev.take(i + 1).drop_last() =~= ev.take(i as int));
        ws.push((mins[i] as u128 + e) as usize);
        used = used + e;
        i += 1;
    }
    assert(ev.take(n as int) =~= ev);
    let rem: usize = if (extra as u128) > used { (extra as u128 - used) as usize } else { 0 };
    let ghost start = usizes(ws@);
    assert(start =~= Seq::new(nats@.len(), |k: int| usizes(mins@)[k] + ev[k]));
    let mut rem = rem;
    let mut progress = true;
    while rem > 0 && progress
        invariant
            ws@.len() == nats@.len(),
            progress ==> round_robin(start, usizes(nats@), sub0(extra as int, sum(ev))) == round_robin(usizes(ws@), usizes(nats@), rem as int),
            !progress ==> round_robin(start, usizes(nats@), sub0(extra as int, sum(ev))) == usizes(ws@),
        decreases rem + (if progress { 1int } else { 0 }),
    {
        let r2 = rr_pass_exec(&mut ws, nats, rem);
        if r2 == rem {
            progress = false;
        } else {
            rem = r2;
        }
    }
    ws
}

} // verus!

verus! {

/// Appends `n` copies of `c`.
fn push_reps(out: &mut Vec<char>, c: char, n: usize)
    ensures
        final(out)@ == old(out)@ + reps(c, n as int),
{
    let ghost start = out@;
    let mut i: usize = 0;
    while i < n
        invariant
            i <= n,
            out@ == start + reps(c, i as int),
        decreases n - i,
    {
        out.push(c);
        assert(reps(c, i + 1) =~= reps(c, i as int).push(c));
        i += 1;
    }
}

/// A border line (see `border`).
fn border_exec(ws: &Vec<usize>, left: char, mid: char, right: char) -> (r: Vec<char>)
    ensures
        r@ == border(usizes(ws@), left, mid, right),
{
    let mut runs: Vec<Vec<char>> = Vec::new();
    let mut i: usize = 0;
    while i < ws.len()
        invariant
            i <= ws@.len(),
            crate::text::cviews(runs@) == Seq::new(i as nat, |k: int| reps('\u{2500}', usizes(ws@)[k] + 2)),
        decreases ws.len() - i,
    {
        let mut run: Vec<char> = Vec::new();
        push_reps(&mut run, '\u{2500}', ws[i]);
        run.push('\u{2500}');
        run.push('\u{2500}');
        assert(run@ =~= reps('\u{2500}', usizes(ws@)[i as int] + 2));
        let ghost b = runs@;
        runs.push(run);
        assert(crate::text::cviews(runs@) =~= crate::text::cviews(b).push(run@));
        i += 1;
    }
    let sep: Vec<char> = vec![mid];
    assert(sep@ =~= seq![mid]);
    let joined = crate::text::join_by_exec(&runs, sep.as_slice());
    let mut r: Vec<char> = vec![left];
    crate::text::extend_chars(&mut r, joined.as_slice());
    r.push(right);
    r.push('\n');
    assert(crate::text::cviews(runs@) =~= Seq::new(usizes(ws@).len(), |k: int| reps('\u{2500}', usizes(ws@)[k] + 2)));
    assert(r@ =~= border(usizes(ws@), left, mid, right));
    r
}

fn align_at_exec(align: &Vec<CellAlign>, c: usize) -> (r: CellAlign)
    ensures
        r == align_at(align@, c as int),
{
    if c < align.len() {
        align[c]
    } else {
        CellAlign::Unset
    }
}

/// The most lines of any cell (see `max_len`).
fn max_len_exec(cls: &Vec<Vec<Vec<char>>>) -> (r: usize)
    ensures
        r == max_len(rows_views(cls@)),
{
    let ghost cv = rows_views(cls@);
    let mut m: usize = 1;
    let mut i: usize = 0;
    assert(cv.take(0) =~= Seq::<Seq<Seq<char>>>::empty());
    while i < cls.len()
        invariant
            cv == rows_views(cls@),
            i <= cls@.len(),
            m == max_len(cv.take(i as int)),
        decreases cls.len() - i,
    {
        assert(cv.take(i + 1).drop_last() =~= cv.take(i as int));
        assert(cv[i as int].len() == cls@[i as int]@.len());
        if cls[i].len() > m {
            m = cls[i].len();
        }
        i += 1;
    }
    assert(cv.take(cls@.len() as int) =~= cv);
    m
}

/// One screen line of a row (see `row_line`).
fn row_line_exec(cls: &Vec<Vec<Vec<char>>>, ws: &Vec<usize>, align: &Vec<CellAlign>, header: bool, l: usize) -> (r: Vec<char>)
    requires
        cls@.len() == ws@.len(),
    ensures
        r@ == row_line(rows_views(cls@), usizes(ws@), align@, header, l as int),
{
    let ghost cv = rows_views(cls@);
    let ghost wv = usizes(ws@);
    let ghost f = Seq::new(wv.len(), |c: int| line_piece(cv, wv, align@, header, l as int, c));
    let mut r: Vec<char> = vec!['\u{2502}'];
    let mut c: usize = 0;
    assert(f.take(0) =~= Seq::<Seq<char>>::empty());
    assert(r@ =~= seq!['\u{2502}'] + crate::ansi::concat_all(f.take(0)));
    while c < ws.len()
        invariant
            cls@.len() == ws@.len(),
            cv == rows_views(cls@),
            wv == usizes(ws@),
            f == Seq::new(wv.len(), |k: int| line_piece(cv, wv, align@, header, l as int, k)),
            c <= ws@.len(),
            r@ == seq!['\u{2502}'] + crate::ansi::concat_all(f.take(c as int)),
        decreases ws.len() - c,
    {
        let ghost before = r@;
        r.push(' ');
        let a = align_at_exec(align, c);
        assert(cv[c as int] == crate::text::cviews(cls@[c as int]@));
        if l < cls[c].len() {
            crate::text::extend_chars(&mut r, cls[c][l].as_slice());
        } else {
            let empty: Vec<char> = Vec::new();
            let e = cell_line_exec(&empty, ws[c], a, header);
            assert(empty@ =~= Seq::<char>::empty());
            crate::text::extend_chars(&mut r, e.as_slice());
        }
        r.push(' ');
        r.push('\u{2502}');
        assert(r@ =~= before + f[c as int]);
        assert(f.take(c + 1) =~= f.take(c as int).push(f[c as int]));
        proof {
            crate::ansi::lemma_concat_push(f.take(c as int), f[c as int]);
        }
        c += 1;
    }
    r.push('\n');
    assert(f.take(ws@.len() as int) =~= f);
    r
}

/// The lines of row `r` (see `row_text`).
fn row_text_exec(rows: &Vec<Vec<Vec<char>>>, r: usize, ws: &Vec<usize>, align: &Vec<CellAlign>) -> (x: Vec<char>)
    requires
        r < rows@.len(),
    ensures
        x@ == row_text(rows_views(rows@), r as int, usizes(ws@), align@),
{
    let ghost rv = rows_views(rows@);
    let ghost wv = usizes(ws@);
    let mut cls: Vec<Vec<Vec<char>>> = Vec::new();
    let mut c: usize = 0;
    while c < ws.len()
        invariant
            rv == rows_views(rows@),
            wv == usizes(ws@),
            r < rows@.len(),
            c <= ws@.len(),
            cls@.len() == c,
            forall|k: int| 0 <= k < c ==> #[trigger] rows_views(cls@)[k] == cell_lines(cell_at(rv, r as int, k), wv[k], align_at(align@, k), r == 0),
        decreases ws.len() - c,
    {
        let cell = cell_at_exec(rows, r, c);
        let a = align_at_exec(align, c);
        let lines = cell_lines_exec(&cell, ws[c], a, r == 0);
        let ghost b = cls@;
        cls.push(lines);
        assert forall|k: int| 0 <= k < c + 1 implies #[trigger] rows_views(cls@)[k] == cell_lines(cell_at(rv, r as int, k), wv[k], align_at(align@, k), r == 0) by {
            assert(rows_views(cls@)[k] == crate::text::cviews(cls@[k]@));
            if k < c {
                assert(cls@[k] == b[k]);
                assert(rows_views(b)[k] == crate::text::cviews(b[k]@));
            }
        }
        c += 1;
    }
    let ghost cv = rows_views(cls@);
    assert(cv =~= row_cell_lines(rv, r as int, wv, align@));
    let height = max_len_exec(&cls);
    let ghost f = Seq::new(height as nat, |l: int| row_line(cv, wv, align@, r == 0, l));
    let mut x: Vec<char> = Vec::new();
    let mut l: usize = 0;
    assert(f.take(0) =~= Seq::<Seq<char>>::empty());
    while l < height
        invariant
            cls@.len() == ws@.len(),
            cv == rows_views(cls@),
            wv == usizes(ws@),
            f == Seq::new(height as nat, |k: int| row_line(cv, wv, align@, r == 0, k)),
            l <= height,
            x@ == crate::ansi::concat_all(f.take(l as int)),
        decreases height - l,
    {
        let line = row_line_exec(&cls, ws, align, r == 0, l);
        let ghost before = x@;
        crate::text::extend_chars(&mut x, line.as_slice());
        assert(f.take(l + 1) =~= f.take(l as int).push(f[l as int]));
        proof {
            crate::ansi::lemma_concat_push(f.take(l as int), f[l as int]);
        }
        l += 1;
    }
    assert(f.take(height as int) =~= f);
    x
}

/// A row of blank cells (see `blank_row`).
fn blank_row_exec(ws: &Vec<usize>) -> (r: Vec<char>)
    ensures
        r@ == blank_row(usizes(ws@)),
{
    let ghost wv = usizes(ws@);
    let ghost f = Seq::new(wv.len(), |c: int| reps(' ', wv[c] + 2) + seq!['\u{2502}']);
    let mut r: Vec<char> = vec!['\u{2502}'];
    let mut c: usize = 0;
    assert(f.take(0) =~= Seq::<Seq<char>>::empty());
    assert(r@ =~= seq!['\u{2502}'] + crate::ansi::concat_all(f.take(0)));
    while c < ws.len()
        invariant
            wv == usizes(ws@),
            f == Seq::new(wv.len(), |k: int| reps(' ', wv[k] + 2) + seq!['\u{2502}']),
            c <= ws@.len(),
            r@ == seq!['\u{2502}'] + crate::ansi::concat_all(f.take(c as int)),
        decreases ws.len() - c,
    {
        let ghost before = r@;
        push_reps(&mut r, ' ', ws[c]);
        r.push(' ');
        r.push(' ');
        r.push('\u{2502}');
        assert(reps(' ', wv[c as int] + 2) =~= reps(' ', ws@[c as int] as int) + seq![' ', ' ']);
        assert(r@ =~= before + f[c as int]);
        assert(f.take(c + 1) =~= f.take(c as int).push(f[c as int]));
        proof {
            crate::ansi::lemma_concat_push(f.take(c as int), f[c as int]);
        }
        c += 1;
    }
    r.push('\n');
    assert(f.take(ws@.len() as int) =~= f);
    r
}

/// Lays out a table (see `table_layout`): the rows' cell texts, the columns'
/// alignments and the width to fit.
pub fn table_layout_exec(rows: &Vec<Vec<Vec<char>>>, align: &Vec<CellAlign>, w: usize) -> (r: Vec<char>)
    ensures
        r@ == table_layout(rows_views(rows@), align@, w as int),
{
    let ghost rv = rows_views(rows@);
    let n = num_cols_exec(rows);
    if rows.len() == 0 || n == 0 {
        return Vec::new();
    }
    let mut mins: Vec<usize> = Vec::new();
    let mut nats: Vec<usize> = Vec::new();
    let mut c: usize = 0;
    while c < n
        invariant
            rv == rows_views(rows@),
            c <= n,
            mins@.len() == c,
            nats@.len() == c,
            forall|k: int| 0 <= k < c ==> #[trigger] mins@[k] as int == col_min(rv, k, rows@.len() as int),
            forall|k: int| 0 <= k < c ==> #[trigger] nats@[k] as int == col_nat(rv, k, rows@.len() as int),
        decreases n - c,
    {
        let (mn, nt) = col_sizes(rows, c);
        mins.push(mn);
        nats.push(nt);
        c += 1;
    }
    assert(usizes(mins@) =~= Seq::new(n as nat, |k: int| col_min(rv, k, rv.len() as int)));
    assert(usizes(nats@) =~= Seq::new(n as nat, |k: int| col_nat(rv, k, rv.len() as int)));
    let overhead: u128 = (n as u128) * 3 + 1;
    let avail: usize = if (w as u128) > overhead { ((w as u128) - overhead) as usize } else { 0 };
    assert(avail as int == sub0(w as int, n * 3 + 1));
    let ws = col_widths_exec(&mins, &nats, avail);
    let ghost wv = usizes(ws@);
    let mut out = border_exec(&ws, '\u{250c}', '\u{252c}', '\u{2510}');
    let ghost top = out@;
    let ghost f = Seq::new(rv.len(), |q: int| row_text(rv, q, wv, align@) + after_row(rv.len() as int, q, wv));
    let mut r: usize = 0;
    assert(f.take(0) =~= Seq::<Seq<char>>::empty());
    while r < rows.len()
        invariant
            rv == rows_views(rows@),
            wv == usizes(ws@),
            rv.len() == rows@.len(),
            f == Seq::new(rv.len(), |q: int| row_text(rv, q, wv, align@) + after_row(rv.len() as int, q, wv)),
            r <= rows@.len(),
            out@ == top + crate::ansi::concat_all(f.take(r as int)),
        decreases rows.len() - r,
    {
        let ghost before = out@;
        let t = row_text_exec(rows, r, &ws, align);
        crate::text::extend_chars(&mut out, t.as_slice());
        if r == 0 && rows.len() > 1 {
            let b = border_exec(&ws, '\u{251c}', '\u{253c}', '\u{2524}');
            crate::text::extend_chars(&mut out, b.as_slice());
        } else if r > 0 && r + 1 < rows.len() {
            let b = blank_row_exec(&ws);
            crate::text::extend_chars(&mut out, b.as_slice());
        }
        assert(out@ =~= before + f[r as int]);
        assert(f.take(r + 1) =~= f.take(r as int).push(f[r as int]));
        proof {
            crate::ansi::lemma_concat_push(f.take(r as int), f[r as int]);
        }
        r += 1;
    }
    assert(f.take(rows@.len() as int) =~= f);
    let bottom = border_exec(&ws, '\u{2514}', '\u{2534}', '\u{2518}');
    crate::text::extend_chars(&mut out, bottom.as_slice());
    out
}

} // verus!
