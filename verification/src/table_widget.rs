//! The table widget: headers and rows of cells (each cell possibly several
//! lines), columns as wide as their widest line, box-drawing borders in a
//! color, every line cut at the terminal width.
use vstd::prelude::*;
use crate::ansi::{active_fg, visible_width_spec};
use crate::block::{reps, sub0};
use crate::paint::{plain_spec, styled_spec, TermColor, TextStyle};
use crate::text::{cviews, lines_of, views};

verus! {

/// A piece of a line: its text and the style it is printed in, if any.
pub struct Piece {
    pub text: Vec<char>,
    pub style: Option<TextStyle>,
}

impl View for Piece {
    type V = (Seq<char>, Option<TextStyle>);

    open spec fn view(&self) -> (Seq<char>, Option<TextStyle>) {
        (self.text@, self.style)
    }
}

/// Sequences run together.
pub open spec fn flat<A>(x: Seq<Seq<A>>) -> Seq<A>
    decreases x.len(),
{
    if x.len() == 0 {
        Seq::empty()
    } else {
        flat(x.drop_last()) + x.last()
    }
}

/// A line printed: each piece in its style, color output on for piece `k`
/// when `f[k]` is set.
pub open spec fn print_line(ps: Seq<(Seq<char>, Option<TextStyle>)>, f: Seq<bool>) -> Seq<char> {
    crate::ansi::concat_all(Seq::new(ps.len(), |k: int| match ps[k].1 {
        Some(st) => styled_spec(ps[k].0, st, f[k]),
        None => ps[k].0,
    }))
}

/// The table: headers, rows and colors.
pub struct Table {
    pub headers: Vec<String>,
    pub rows: Vec<Vec<String>>,
    pub border_color: Option<TermColor>,
    pub header_color: Option<TermColor>,
}

/// The rows as cell texts.
pub open spec fn rows_of(t: Table) -> Seq<Seq<Seq<char>>> {
    t.rows@.map_values(|r: Vec<String>| views(r@))
}

/// The style of the borders: the border color, dark grey without one.
pub open spec fn border_style_of(t: Table) -> TextStyle {
    TextStyle {
        fg: Some(match t.border_color {
            Some(c) => c,
            None => TermColor::DarkGrey,
        }),
        ..plain_spec()
    }
}

/// The style of the headers: bold, in the header color when there is one.
pub open spec fn header_style_of(t: Table) -> TextStyle {
    TextStyle { fg: t.header_color, bold: true, ..plain_spec() }
}

/// The widest line of a cell.
pub open spec fn widest_line(ls: Seq<Seq<char>>) -> int
    decreases ls.len(),
{
    if ls.len() == 0 {
        0
    } else {
        let m = widest_line(ls.drop_last());
        let x = visible_width_spec(ls.last()) as int;
        if x > m { x } else { m }
    }
}

/// The width of column `c` over the first `n` rows, from `start`.
pub open spec fn col_width_rows(rows: Seq<Seq<Seq<char>>>, c: int, n: int, start: int) -> int
    decreases n,
{
    if n <= 0 {
        start
    } else {
        let m = col_width_rows(rows, c, n - 1, start);
        let x = if c < rows[n - 1].len() { widest_line(lines_of(rows[n - 1][c])) } else { 0 };
        if x > m { x } else { m }
    }
}

/// The width of column `c`: its widest header or cell line.
pub open spec fn col_width(t: Table, c: int) -> int {
    let rows = rows_of(t);
    col_width_rows(rows, c, rows.len() as int, visible_width_spec(views(t.headers@)[c]) as int)
}

/// The widths of the columns.
pub open spec fn widths_of(t: Table) -> Seq<int> {
    Seq::new(t.headers@.len(), |c: int| col_width(t, c))
}

/// A border line: `left`, the column runs (two wider than the columns)
/// separated by `mid`, `right`, all in the border style.
pub open spec fn sep_pieces(ws: Seq<int>, left: char, mid: char, right: char, st: TextStyle) -> Seq<(Seq<char>, Option<TextStyle>)> {
    seq![(seq![left], Some(st))] + flat(Seq::new(ws.len(), |i: int|
        seq![(reps('\u{2500}', ws[i] + 2), Some(st))] + (if i < ws.len() - 1 { seq![(seq![mid], Some(st))] } else { Seq::empty() })))
        + seq![(seq![right], Some(st))]
}

/// The header line: each header in the header style, padded to its column.
pub open spec fn header_pieces(t: Table, ws: Seq<int>) -> Seq<(Seq<char>, Option<TextStyle>)> {
    let bar = (seq!['\u{2502}'], Some(border_style_of(t)));
    let hs = views(t.headers@);
    seq![bar] + flat(Seq::new(hs.len(), |i: int|
        seq![(seq![' '], None), (hs[i], Some(header_style_of(t))), (reps(' ', sub0(ws[i], visible_width_spec(hs[i]) as int)) + seq![' '], None), bar]))
}

/// The lines of the cell of column `c` in a row, none past the row's end.
pub open spec fn cell_lines_of(row: Seq<Seq<char>>, c: int) -> Seq<Seq<char>> {
    if c < row.len() { lines_of(row[c]) } else { Seq::empty() }
}

/// Line `k` of a cell, empty past its lines.
pub open spec fn line_at(cl: Seq<Seq<char>>, k: int) -> Seq<char> {
    if k < cl.len() { cl[k] } else { Seq::empty() }
}

/// The color escape carried into line `k` of a cell: the active color of
/// the line before (with its own carried escape), kept when it has none.
pub open spec fn carried(cl: Seq<Seq<char>>, k: int) -> Seq<char>
    decreases k,
{
    if k <= 0 {
        Seq::empty()
    } else {
        let p = carried(cl, k - 1);
        match active_fg(p + line_at(cl, k - 1)) {
            Some(c) => c,
            None => p,
        }
    }
}

/// The number of lines of a row: its tallest cell.
pub open spec fn row_height(row: Seq<Seq<char>>, n: int) -> int
    decreases n,
{
    if n <= 0 {
        0
    } else {
        let m = row_height(row, n - 1);
        let x = cell_lines_of(row, n - 1).len() as int;
        if x > m { x } else { m }
    }
}

/// Line `k` of a row: each cell's line `k` with the carried color, padded
/// to its column, between bars.
pub open spec fn row_line_pieces(t: Table, row: Seq<Seq<char>>, ws: Seq<int>, k: int) -> Seq<(Seq<char>, Option<TextStyle>)> {
    let bar = (seq!['\u{2502}'], Some(border_style_of(t)));
    seq![bar] + flat(Seq::new(ws.len(), |i: int| {
        let cl = cell_lines_of(row, i);
        let sv = carried(cl, k) + line_at(cl, k);
        seq![(seq![' '] + sv + reps(' ', sub0(ws[i], visible_width_spec(sv) as int)) + seq![' '], None), bar]
    }))
}

/// The lines of row `r`, then a separator unless it is the last row.
pub open spec fn row_block(t: Table, ws: Seq<int>, r: int) -> Seq<Seq<(Seq<char>, Option<TextStyle>)>> {
    let rows = rows_of(t);
    let row = rows[r];
    Seq::new(row_height(row, ws.len() as int) as nat, |k: int| row_line_pieces(t, row, ws, k))
        + (if r + 1 < rows.len() { seq![sep_pieces(ws, '\u{251c}', '\u{253c}', '\u{2524}', border_style_of(t))] } else { Seq::empty() })
}

/// All lines of the table as pieces: nothing without headers; otherwise the
/// top border, the headers, their separator, the rows, the bottom border.
pub open spec fn table_pieces(t: Table) -> Seq<Seq<(Seq<char>, Option<TextStyle>)>> {
    if t.headers@.len() == 0 {
        Seq::empty()
    } else {
        let ws = widths_of(t);
        let st = border_style_of(t);
        seq![sep_pieces(ws, '\u{250c}', '\u{252c}', '\u{2510}', st), header_pieces(t, ws), sep_pieces(ws, '\u{251c}', '\u{253c}', '\u{2524}', st)]
            + flat(Seq::new(rows_of(t).len(), |r: int| row_block(t, ws, r)))
            + seq![sep_pieces(ws, '\u{2514}', '\u{2534}', '\u{2518}', st)]
    }
}

/// A line wider than `max_width` columns cut to its first `max_width` characters.
pub open spec fn crop(l: Seq<char>, max_width: int) -> Seq<char> {
    if visible_width_spec(l) > max_width { l.take(crate::block::min_int(max_width, l.len() as int)) } else { l }
}

/// The table's lines, line `j` printed with color flags `fl[j]`.
pub open spec fn table_widget_lines(t: Table, max_width: int, fl: Seq<Seq<bool>>) -> Seq<Seq<char>> {
    let ps = table_pieces(t);
    Seq::new(ps.len(), |j: int| crop(print_line(ps[j], fl[j]), max_width))
}

} // verus!

verus! {

/// Pieces as text values.
pub open spec fn pieces_view(v: Seq<Piece>) -> Seq<(Seq<char>, Option<TextStyle>)> {
    v.map_values(|p: Piece| p@)
}

/// Lines of pieces as text values.
pub open spec fn lines_view(v: Seq<Vec<Piece>>) -> Seq<Seq<(Seq<char>, Option<TextStyle>)>> {
    v.map_values(|l: Vec<Piece>| pieces_view(l@))
}

fn push_piece(v: &mut Vec<Piece>, text: Vec<char>, style: Option<TextStyle>)
    ensures
        pieces_view(final(v)@) == pieces_view(old(v)@).push((text@, style)),
{
    let ghost b = pieces_view(v@);
    v.push(Piece { text, style });
    assert(pieces_view(v@) =~= b.push((text@, style)));
}

/// A border line (see `sep_pieces`).
fn sep_exec(ws: &Vec<usize>, left: char, mid: char, right: char, st: TextStyle) -> (r: Vec<Piece>)
    ensures
        pieces_view(r@) == sep_pieces(crate::table::usizes(ws@), left, mid, right, st),
{
    let ghost wv = crate::table::usizes(ws@);
    let ghost f = Seq::new(wv.len(), |i: int|
        seq![(reps('\u{2500}', wv[i] + 2), Some(st))] + (if i < wv.len() - 1 { seq![(seq![mid], Some(st))] } else { Seq::<(Seq<char>, Option<TextStyle>)>::empty() }));
    let mut r: Vec<Piece> = Vec::new();
    let lv: Vec<char> = vec![left];
    assert(lv@ =~= seq![left]);
    push_piece(&mut r, lv, Some(st));
    let ghost head = pieces_view(r@);
    let n = ws.len();
    let mut i: usize = 0;
    assert(f.take(0) =~= Seq::<Seq<(Seq<char>, Option<TextStyle>)>>::empty());
    while i < n
        invariant
            n == ws@.len(),
            wv == crate::table::usizes(ws@),
            f == Seq::new(wv.len(), |q: int|
                seq![(reps('\u{2500}', wv[q] + 2), Some(st))] + (if q < wv.len() - 1 { seq![(seq![mid], Some(st))] } else { Seq::<(Seq<char>, Option<TextStyle>)>::empty() })),
            i <= n,
            pieces_view(r@) == head + flat(f.take(i as int)),
        decreases n - i,
    {
        let ghost before = pieces_view(r@);
        let mut run = crate::text::repeat_char_exec('\u{2500}', ws[i]);
        run.push('\u{2500}');
        run.push('\u{2500}');
        assert(run@ =~= reps('\u{2500}', wv[i as int] + 2));
        push_piece(&mut r, run, Some(st));
        if i + 1 < n {
            let mv: Vec<char> = vec![mid];
            assert(mv@ =~= seq![mid]);
            push_piece(&mut r, mv, Some(st));
        }
        assert(pieces_view(r@) =~= before + f[i as int]);
        assert(f.take(i + 1).drop_last() =~= f.take(i as int));
        i += 1;
    }
    assert(f.take(n as int) =~= f);
    let rv: Vec<char> = vec![right];
    assert(rv@ =~= seq![right]);
    push_piece(&mut r, rv, Some(st));
    assert(pieces_view(r@) =~= sep_pieces(wv, left, mid, right, st));
    r
}

} // verus!

verus! {

fn widest_line_exec(ls: &Vec<Vec<char>>) -> (r: usize)
    ensures
        r == widest_line(cviews(ls@)),
{
    let ghost lv = cviews(ls@);
    let mut m: usize = 0;
    let mut i: usize = 0;
    assert(lv.take(0) =~= Seq::<Seq<char>>::empty());
    while i < ls.len()
        invariant
            lv == cviews(ls@),
            i <= ls@.len(),
            m == widest_line(lv.take(i as int)),
        decreases ls.len() - i,
    {
        assert(lv.take(i + 1).drop_last() =~= lv.take(i as int));
        assert(lv[i as int] == ls@[i as int]@);
        let x = crate::ansi::visible_width_chars(ls[i].as_slice());
        if x > m {
            m = x;
        }
        i += 1;
    }
    assert(lv.take(ls@.len() as int) =~= lv);
    m
}

/// The lines of the cell of column `c` in a row (see `cell_lines_of`).
fn cell_lines_exec(row: &Vec<String>, c: usize) -> (r: Vec<Vec<char>>)
    ensures
        cviews(r@) == cell_lines_of(views(row@), c as int),
{
    if c < row.len() {
        let v = crate::text::chars_of(row[c].as_str());
        let r = crate::text::lines_chars(v.as_slice());
        assert(cviews(r@) =~= r@.map_values(|x: Vec<char>| x@));
        r
    } else {
        let r: Vec<Vec<char>> = Vec::new();
        assert(cviews(r@) =~= Seq::<Seq<char>>::empty());
        r
    }
}

impl Table {
    /// The widths of the columns (see `widths_of`).
    fn widths_exec(&self) -> (r: Vec<usize>)
        ensures
            crate::table::usizes(r@) == widths_of(*self),
    {
        let ghost rows = rows_of(*self);
        let n = self.headers.len();
        let mut ws: Vec<usize> = Vec::new();
        let mut c: usize = 0;
        while c < n
            invariant
                rows == rows_of(*self),
                n == self.headers@.len(),
                c <= n,
                ws@.len() == c,
                forall|q: int| 0 <= q < c ==> #[trigger] ws@[q] as int == col_width(*self, q),
            decreases n - c,
        {
            let hw = crate::ansi::visible_width_chars(crate::text::chars_of(self.headers[c].as_str()).as_slice());
            assert(views(self.headers@)[c as int] == self.headers@[c as int]@);
            let mut w = hw;
            let mut r: usize = 0;
            while r < self.rows.len()
                invariant
                    rows == rows_of(*self),
                    c < n == self.headers@.len(),
                    r <= self.rows@.len(),
                    w == col_width_rows(rows, c as int, r as int, hw as int),
                decreases self.rows.len() - r,
            {
                assert(rows[r as int] == views(self.rows@[r as int]@));
                let x: usize = if c < self.rows[r].len() {
                    let ls = cell_lines_exec(&self.rows[r], c);
                    widest_line_exec(&ls)
                } else {
                    0
                };
                if x > w {
                    w = x;
                }
                r += 1;
            }
            ws.push(w);
            c += 1;
        }
        assert(crate::table::usizes(ws@) =~= widths_of(*self));
        ws
    }

    /// The header line (see `header_pieces`).
    fn header_exec(&self, ws: &Vec<usize>) -> (r: Vec<Piece>)
        requires
            ws@.len() == self.headers@.len(),
        ensures
            pieces_view(r@) == header_pieces(*self, crate::table::usizes(ws@)),
    {
        let ghost wv = crate::table::usizes(ws@);
        let ghost hs = views(self.headers@);
        let bst = TextStyle {
            fg: Some(match self.border_color {
                Some(c) => c,
                None => TermColor::DarkGrey,
            }),
            bg: None,
            bold: false,
            dim: false,
            italic: false,
            underlined: false,
        };
        let hst = TextStyle { fg: self.header_color, bg: None, bold: true, dim: false, italic: false, underlined: false };
        let ghost bar = (seq!['\u{2502}'], Some(border_style_of(*self)));
        let ghost f = Seq::new(hs.len(), |i: int|
            seq![(seq![' '], None), (hs[i], Some(header_style_of(*self))), (reps(' ', sub0(wv[i], visible_width_spec(hs[i]) as int)) + seq![' '], None), bar]);
        let mut r: Vec<Piece> = Vec::new();
        let b0: Vec<char> = vec!['\u{2502}'];
        assert(b0@ =~= seq!['\u{2502}']);
        push_piece(&mut r, b0, Some(bst));
        let ghost head = pieces_view(r@);
        let n = self.headers.len();
        let mut i: usize = 0;
        assert(f.take(0) =~= Seq::<Seq<(Seq<char>, Option<TextStyle>)>>::empty());
        while i < n
            invariant
                n == self.headers@.len() == ws@.len(),
                wv == crate::table::usizes(ws@),
                hs == views(self.headers@),
                bst == border_style_of(*self),
                hst == header_style_of(*self),
                bar == (seq!['\u{2502}'], Some(border_style_of(*self))),
                f == Seq::new(hs.len(), |q: int|
                    seq![(seq![' '], None), (hs[q], Some(header_style_of(*self))), (reps(' ', sub0(wv[q], visible_width_spec(hs[q]) as int)) + seq![' '], None), bar]),
                i <= n,
                pieces_view(r@) == head + flat(f.take(i as int)),
            decreases n - i,
        {
            let ghost before = pieces_view(r@);
            let h = crate::text::chars_of(self.headers[i].as_str());
            let hw = crate::ansi::visible_width_chars(h.as_slice());
            let sp: Vec<char> = vec![' '];
            assert(sp@ =~= seq![' ']);
            push_piece(&mut r, sp, None);
            push_piece(&mut r, h, Some(hst));
            let mut pad = crate::text::repeat_char_exec(' ', if ws[i] > hw { ws[i] - hw } else { 0 });
            pad.push(' ');
            assert(hs[i as int] == self.headers@[i as int]@);
            assert(hw == visible_width_spec(hs[i as int]));
            assert(pad@ =~= reps(' ', sub0(wv[i as int], visible_width_spec(hs[i as int]) as int)) + seq![' ']);
            push_piece(&mut r, pad, None);
            let bb: Vec<char> = vec!['\u{2502}'];
            assert(bb@ =~= seq!['\u{2502}']);
            push_piece(&mut r, bb, Some(bst));
            assert(hs[i as int] == self.headers@[i as int]@);
            assert(pieces_view(r@) =~= before + f[i as int]);
            assert(f.take(i + 1).drop_last() =~= f.take(i as int));
            i += 1;
        }
        assert(f.take(n as int) =~= f);
        r
    }
}

} // verus!

verus! {

impl Table {
    /// Line `k` of a row (see `row_line_pieces`), moving the carried colors on.
    fn row_line_exec(&self, rv: Ghost<Seq<Seq<char>>>, cls: &Vec<Vec<Vec<char>>>, carry: &mut Vec<Vec<char>>, ws: &Vec<usize>, k: usize) -> (r: Vec<Piece>)
        requires
            cls@.len() == ws@.len() == old(carry)@.len(),
            forall|q: int| 0 <= q < cls@.len() ==> #[trigger] crate::table::rows_views(cls@)[q] == cell_lines_of(rv@, q),
            forall|q: int| 0 <= q < cls@.len() ==> #[trigger] old(carry)@[q]@ == carried(cell_lines_of(rv@, q), k as int),
        ensures
            pieces_view(r@) == row_line_pieces(*self, rv@, crate::table::usizes(ws@), k as int),
            final(carry)@.len() == cls@.len(),
            forall|q: int| 0 <= q < cls@.len() ==> #[trigger] final(carry)@[q]@ == carried(cell_lines_of(rv@, q), k + 1),
    {
        let ghost wv = crate::table::usizes(ws@);
        let bst = TextStyle {
            fg: Some(match self.border_color {
                Some(c) => c,
                None => TermColor::DarkGrey,
            }),
            bg: None,
            bold: false,
            dim: false,
            italic: false,
            underlined: false,
        };
        let ghost bar = (seq!['\u{2502}'], Some(border_style_of(*self)));
        let ghost f = Seq::new(wv.len(), |i: int| {
            let cl = cell_lines_of(rv@, i);
            let sv = carried(cl, k as int) + line_at(cl, k as int);
            seq![(seq![' '] + sv + reps(' ', sub0(wv[i], visible_width_spec(sv) as int)) + seq![' '], None), bar]
        });
        let mut r: Vec<Piece> = Vec::new();
        let b0: Vec<char> = vec!['\u{2502}'];
        assert(b0@ =~= seq!['\u{2502}']);
        push_piece(&mut r, b0, Some(bst));
        let ghost head = pieces_view(r@);
        let n = ws.len();
        let mut i: usize = 0;
        assert(f.take(0) =~= Seq::<Seq<(Seq<char>, Option<TextStyle>)>>::empty());
        while i < n
            invariant
                n == ws@.len() == cls@.len() == carry@.len(),
                wv == crate::table::usizes(ws@),
                bst == border_style_of(*self),
                bar == (seq!['\u{2502}'], Some(border_style_of(*self))),
                forall|q: int| 0 <= q < cls@.len() ==> #[trigger] crate::table::rows_views(cls@)[q] == cell_lines_of(rv@, q),
                forall|q: int| i <= q < cls@.len() ==> #[trigger] carry@[q]@ == carried(cell_lines_of(rv@, q), k as int),
                forall|q: int| 0 <= q < i ==> #[trigger] carry@[q]@ == carried(cell_lines_of(rv@, q), k + 1),
                f == Seq::new(wv.len(), |q: int| {
                    let cl = cell_lines_of(rv@, q);
                    let sv = carried(cl, k as int) + line_at(cl, k as int);
                    seq![(seq![' '] + sv + reps(' ', sub0(wv[q], visible_width_spec(sv) as int)) + seq![' '], None), bar]
                }),
                i <= n,
                pieces_view(r@) == head + flat(f.take(i as int)),
            decreases n - i,
        {
            let ghost before = pieces_view(r@);
            let ghost cl = cell_lines_of(rv@, i as int);
            assert(crate::table::rows_views(cls@)[i as int] == crate::text::cviews(cls@[i as int]@));
            let mut sv = carry[i].clone();
            assert(sv@ == carried(cl, k as int));
            if k < cls[i].len() {
                crate::text::extend_chars(&mut sv, cls[i][k].as_slice());
            }
            assert(sv@ =~= carried(cl, k as int) + line_at(cl, k as int));
            let vw = crate::ansi::visible_width_chars(sv.as_slice());
            let mut text: Vec<char> = vec![' '];
            crate::text::extend_chars(&mut text, sv.as_slice());
            crate::text::extend_chars(&mut text, crate::text::repeat_char_exec(' ', if ws[i] > vw { ws[i] - vw } else { 0 }).as_slice());
            text.push(' ');
            assert(text@ =~= seq![' '] + sv@ + reps(' ', sub0(wv[i as int], visible_width_spec(sv@) as int)) + seq![' ']);
            push_piece(&mut r, text, None);
            let bb: Vec<char> = vec!['\u{2502}'];
            assert(bb@ =~= seq!['\u{2502}']);
            push_piece(&mut r, bb, Some(bst));
            assert(pieces_view(r@) =~= before + f[i as int]);
            assert(f.take(i + 1).drop_last() =~= f.take(i as int));
            match crate::ansi::active_color_chars(&sv) {
                Some(c) => {
                    carry.set(i, c);
                },
                None => {},
            }
            i += 1;
        }
        assert(f.take(n as int) =~= f);
        r
    }
}

} // verus!

verus! {

fn push_line(v: &mut Vec<Vec<Piece>>, l: Vec<Piece>)
    ensures
        lines_view(final(v)@) == lines_view(old(v)@).push(pieces_view(l@)),
{
    let ghost b = lines_view(v@);
    let ghost lv = pieces_view(l@);
    v.push(l);
    assert(lines_view(v@) =~= b.push(lv));
}

impl Table {
    /// The lines of row `r` and the separator after it (see `row_block`).
    fn row_block_exec(&self, r: usize, ws: &Vec<usize>, out: &mut Vec<Vec<Piece>>)
        requires
            r < self.rows@.len(),
            ws@.len() == self.headers@.len(),
        ensures
            lines_view(final(out)@) == lines_view(old(out)@) + row_block(*self, crate::table::usizes(ws@), r as int),
    {
        let ghost rv = rows_of(*self)[r as int];
        assert(rv == views(self.rows@[r as int]@));
        let ghost wv = crate::table::usizes(ws@);
        let n = ws.len();
        let mut cls: Vec<Vec<Vec<char>>> = Vec::new();
        let mut carry: Vec<Vec<char>> = Vec::new();
        let mut height: usize = 0;
        let mut i: usize = 0;
        while i < n
            invariant
                n == ws@.len(),
                rv == views(self.rows@[r as int]@),
                r < self.rows@.len(),
                i <= n,
                cls@.len() == i,
                carry@.len() == i,
                height == row_height(rv, i as int),
                forall|q: int| 0 <= q < i ==> #[trigger] crate::table::rows_views(cls@)[q] == cell_lines_of(rv, q),
                forall|q: int| 0 <= q < i ==> #[trigger] carry@[q]@ == carried(cell_lines_of(rv, q), 0),
            decreases n - i,
        {
            let cl = cell_lines_exec(&self.rows[r], i);
            if cl.len() > height {
                height = cl.len();
            }
            let ghost b = cls@;
            cls.push(cl);
            assert forall|q: int| 0 <= q < i + 1 implies #[trigger] crate::table::rows_views(cls@)[q] == cell_lines_of(rv, q) by {
                assert(crate::table::rows_views(cls@)[q] == cviews(cls@[q]@));
                if q < i {
                    assert(cls@[q] == b[q]);
                    assert(crate::table::rows_views(b)[q] == cviews(b[q]@));
                }
            }
            let e: Vec<char> = Vec::new();
            assert(e@ =~= Seq::<char>::empty());
            carry.push(e);
            i += 1;
        }
        let ghost start = lines_view(out@);
        let mut k: usize = 0;
        while k < height
            invariant
                n == ws@.len() == cls@.len() == carry@.len(),
                wv == crate::table::usizes(ws@),
                rv == views(self.rows@[r as int]@),
                k <= height,
                forall|q: int| 0 <= q < cls@.len() ==> #[trigger] crate::table::rows_views(cls@)[q] == cell_lines_of(rv, q),
                forall|q: int| 0 <= q < cls@.len() ==> #[trigger] carry@[q]@ == carried(cell_lines_of(rv, q), k as int),
                lines_view(out@) == start + Seq::new(k as nat, |x: int| row_line_pieces(*self, rv, wv, x)),
            decreases height - k,
        {
            let l = self.row_line_exec(Ghost(rv), &cls, &mut carry, ws, k);
            let ghost b = lines_view(out@);
            push_line(out, l);
            assert(lines_view(out@) =~= start + Seq::new((k + 1) as nat, |x: int| row_line_pieces(*self, rv, wv, x)));
            k += 1;
        }
        let ghost mid = lines_view(out@);
        if r < self.rows.len() - 1 {
            let st = TextStyle {
                fg: Some(match self.border_color {
                    Some(c) => c,
                    None => TermColor::DarkGrey,
                }),
                bg: None,
                bold: false,
                dim: false,
                italic: false,
                underlined: false,
            };
            let s = sep_exec(ws, '\u{251c}', '\u{253c}', '\u{2524}', st);
            push_line(out, s);
        }
        assert(lines_view(out@) =~= start + row_block(*self, wv, r as int));
    }
}

} // verus!

verus! {

/// A piece printed with color output `on`.
pub open spec fn print_piece(p: (Seq<char>, Option<TextStyle>), on: bool) -> Seq<char> {
    match p.1 {
        Some(st) => styled_spec(p.0, st, on),
        None => p.0,
    }
}

/// Prints a line of pieces (see `print_line`), giving the color setting met by each.
fn print_line_exec(ps: &Vec<Piece>) -> (r: (Vec<char>, Ghost<Seq<bool>>))
    ensures
        r.0@ == print_line(pieces_view(ps@), r.1@),
        r.1@.len() == ps@.len(),
{
    let ghost pv = pieces_view(ps@);
    let mut out: Vec<char> = Vec::new();
    let ghost mut fl: Seq<bool> = Seq::empty();
    let mut k: usize = 0;
    assert(Seq::new(0, |q: int| print_piece(pv[q], fl[q])) =~= Seq::<Seq<char>>::empty());
    while k < ps.len()
        invariant
            pv == pieces_view(ps@),
            k <= ps@.len(),
            fl.len() == k,
            out@ == crate::ansi::concat_all(Seq::new(k as nat, |q: int| print_piece(pv[q], fl[q]))),
        decreases ps.len() - k,
    {
        let ghost before = out@;
        let ghost g: bool;
        assert(pv[k as int] == ps@[k as int]@);
        match ps[k].style {
            Some(st) => {
                let (x, on) = crate::paint::paint_logged(&ps[k].text, st);
                proof {
                    g = on@;
                }
                crate::text::extend_chars(&mut out, x.as_slice());
            },
            None => {
                proof {
                    g = true;
                }
                crate::text::extend_chars(&mut out, ps[k].text.as_slice());
            },
        }
        let ghost old_fl = fl;
        proof {
            fl = fl.push(g);
            assert(Seq::new((k + 1) as nat, |q: int| print_piece(pv[q], fl[q])) =~= Seq::new(k as nat, |q: int| print_piece(pv[q], old_fl[q])).push(print_piece(pv[k as int], g)));
            crate::ansi::lemma_concat_push(Seq::new(k as nat, |q: int| print_piece(pv[q], old_fl[q])), print_piece(pv[k as int], g));
        }
        k += 1;
    }
    assert(Seq::new(ps@.len(), |q: int| print_piece(pv[q], fl[q])) =~= Seq::new(pv.len(), |q: int| match pv[q].1 {
        Some(st) => styled_spec(pv[q].0, st, fl[q]),
        None => pv[q].0,
    }));
    (out, Ghost(fl))
}

impl Table {
    /// All lines of the table as pieces (see `table_pieces`).
    fn pieces_exec(&self) -> (r: Vec<Vec<Piece>>)
        ensures
            lines_view(r@) == table_pieces(*self),
    {
        let mut out: Vec<Vec<Piece>> = Vec::new();
        if self.headers.len() == 0 {
            assert(lines_view(out@) =~= table_pieces(*self));
            return out;
        }
        let ws = self.widths_exec();
        let ghost wv = crate::table::usizes(ws@);
        let st = TextStyle {
            fg: Some(match self.border_color {
                Some(c) => c,
                None => TermColor::DarkGrey,
            }),
            bg: None,
            bold: false,
            dim: false,
            italic: false,
            underlined: false,
        };
        push_line(&mut out, sep_exec(&ws, '\u{250c}', '\u{252c}', '\u{2510}', st));
        push_line(&mut out, self.header_exec(&ws));
        push_line(&mut out, sep_exec(&ws, '\u{251c}', '\u{253c}', '\u{2524}', st));
        let ghost head = lines_view(out@);
        let ghost g = Seq::new(rows_of(*self).len(), |r: int| row_block(*self, wv, r));
        let mut r: usize = 0;
        assert(g.take(0) =~= Seq::<Seq<Seq<(Seq<char>, Option<TextStyle>)>>>::empty());
        while r < self.rows.len()
            invariant
                wv == crate::table::usizes(ws@),
                ws@.len() == self.headers@.len(),
                g == Seq::new(rows_of(*self).len(), |q: int| row_block(*self, wv, q)),
                rows_of(*self).len() == self.rows@.len(),
                r <= self.rows@.len(),
                lines_view(out@) == head + flat(g.take(r as int)),
            decreases self.rows.len() - r,
        {
            self.row_block_exec(r, &ws, &mut out);
            assert(g.take(r + 1).drop_last() =~= g.take(r as int));
            r += 1;
        }
        assert(g.take(self.rows@.len() as int) =~= g);
        push_line(&mut out, sep_exec(&ws, '\u{2514}', '\u{2534}', '\u{2518}', st));
        assert(wv =~= widths_of(*self));
        assert(lines_view(out@) =~= table_pieces(*self));
        out
    }

    /// The table's lines, each cut at `max_width` (see `table_widget_lines`).
    pub fn render_content(&self, max_width: usize) -> (r: Vec<String>)
        ensures
            exists|fl: Seq<Seq<bool>>| views(r@) == table_widget_lines(*self, max_width as int, fl),
    {
        let ps = self.pieces_exec();
        let ghost pv = lines_view(ps@);
        let mut out: Vec<String> = Vec::new();
        let ghost mut fl: Seq<Seq<bool>> = Seq::empty();
        let mut j: usize = 0;
        while j < ps.len()
            invariant
                pv == lines_view(ps@),
                pv == table_pieces(*self),
                j <= ps@.len(),
                fl.len() == j,
                views(out@) == Seq::new(j as nat, |q: int| crop(print_line(pv[q], fl[q]), max_width as int)),
            decreases ps.len() - j,
        {
            let (x, f) = print_line_exec(&ps[j]);
            assert(pv[j as int] == pieces_view(ps@[j as int]@));
            let vw = crate::ansi::visible_width_chars(x.as_slice());
            let y = if vw > max_width {
                let n = if max_width < x.len() { max_width } else { x.len() };
                let y = crate::ansi::slice_vec(&x, 0, n);
                assert(y@ =~= x@.take(crate::block::min_int(max_width as int, x@.len() as int)));
                y
            } else {
                x
            };
            let ghost b = out@;
            let ghost old_fl = fl;
            out.push(crate::text::string_of(y.as_slice()));
            proof {
                fl = fl.push(f@);
                assert(views(out@) =~= Seq::new((j + 1) as nat, |q: int| crop(print_line(pv[q], fl[q]), max_width as int))) by {
                    assert(views(out@) =~= views(b).push(y@));
                    assert(Seq::new(j as nat, |q: int| crop(print_line(pv[q], fl[q]), max_width as int)) =~= Seq::new(j as nat, |q: int| crop(print_line(pv[q], old_fl[q]), max_width as int)));
                }
            }
            j += 1;
        }
        assert(views(out@) =~= table_widget_lines(*self, max_width as int, fl));
        out
    }
}

} // verus!

verus! {

/// A change to the rows.
pub enum TableOp {
    /// Adds a row, last.
    AddRow(Vec<String>),
    /// Removes all rows.
    ClearRows,
    /// Replaces all rows.
    SetRows(Vec<Vec<String>>),
}

/// The rows after a change.
pub open spec fn apply_table_op(rows: Seq<Seq<Seq<char>>>, op: TableOp) -> Seq<Seq<Seq<char>>> {
    match op {
        TableOp::AddRow(r) => rows.push(views(r@)),
        TableOp::ClearRows => Seq::empty(),
        TableOp::SetRows(rs) => rs@.map_values(|r: Vec<String>| views(r@)),
    }
}

fn copy_strings(v: &Vec<String>) -> (r: Vec<String>)
    ensures
        views(r@) == views(v@),
{
    let mut r: Vec<String> = Vec::new();
    let mut i: usize = 0;
    while i < v.len()
        invariant
            i <= v@.len(),
            views(r@) == views(v@).take(i as int),
        decreases v.len() - i,
    {
        let ghost b = r@;
        r.push(crate::text::string_of(crate::text::chars_of(v[i].as_str()).as_slice()));
        assert(views(r@) =~= views(b).push(v@[i as int]@));
        assert(views(r@) =~= views(v@).take(i + 1));
        i += 1;
    }
    assert(views(v@).take(v@.len() as int) =~= views(v@));
    r
}

impl Table {
    /// A table with headers and no rows, dark grey borders.
    pub fn new(headers: &Vec<String>) -> (r: Table)
        ensures
            views(r.headers@) == views(headers@),
            r.rows@.len() == 0,
            r.border_color == Some(TermColor::DarkGrey),
            r.header_color is None,
    {
        Table { headers: copy_strings(headers), rows: Vec::new(), border_color: Some(TermColor::DarkGrey), header_color: None }
    }

    /// Adds a row, last.
    pub fn row(self, row: &Vec<String>) -> (r: Table)
        ensures
            rows_of(r) == rows_of(self).push(views(row@)),
            views(r.headers@) == views(self.headers@),
            r.border_color == self.border_color && r.header_color == self.header_color,
    {
        let mut t = self;
        let ghost b = rows_of(t);
        let c = copy_strings(row);
        t.rows.push(c);
        assert(rows_of(t) =~= b.push(views(row@)));
        t
    }

    /// Adds rows, in order.
    pub fn rows(self, rows: &Vec<Vec<String>>) -> (r: Table)
        ensures
            rows_of(r) == rows_of(self) + rows@.map_values(|x: Vec<String>| views(x@)),
            views(r.headers@) == views(self.headers@),
            r.border_color == self.border_color && r.header_color == self.header_color,
    {
        let mut t = self;
        let ghost b = rows_of(t);
        let ghost rv = rows@.map_values(|x: Vec<String>| views(x@));
        let mut i: usize = 0;
        while i < rows.len()
            invariant
                rv == rows@.map_values(|x: Vec<String>| views(x@)),
                i <= rows@.len(),
                rows_of(t) == b + rv.take(i as int),
                views(t.headers@) == views(self.headers@),
                t.border_color == self.border_color && t.header_color == self.header_color,
            decreases rows.len() - i,
        {
            let ghost before = rows_of(t);
            let c = copy_strings(&rows[i]);
            t.rows.push(c);
            assert(rows_of(t) =~= before.push(rv[i as int]));
            assert(rv.take(i + 1) =~= rv.take(i as int).push(rv[i as int]));
            i += 1;
        }
        assert(rv.take(rows@.len() as int) =~= rv);
        t
    }

    /// Sets the border color.
    pub fn table_border_color(self, color: TermColor) -> (r: Table)
        ensures
            r == (Table { border_color: Some(color), ..self }),
    {
        Table { border_color: Some(color), ..self }
    }

    /// Sets the header color.
    pub fn header_color(self, color: TermColor) -> (r: Table)
        ensures
            r == (Table { header_color: Some(color), ..self }),
    {
        Table { header_color: Some(color), ..self }
    }

    /// Applies a change to the rows (see `apply_table_op`).
    pub fn apply(&mut self, op: TableOp)
        ensures
            rows_of(*final(self)) == apply_table_op(rows_of(*old(self)), op),
            *final(self) == (Table { rows: final(self).rows, ..*old(self) }),
    {
        match op {
            TableOp::AddRow(r) => {
                let ghost b = rows_of(*self);
                self.rows.push(r);
                assert(rows_of(*self) =~= b.push(views(r@)));
            },
            TableOp::ClearRows => {
                self.rows = Vec::new();
                assert(rows_of(*self) =~= Seq::<Seq<Seq<char>>>::empty());
            },
            TableOp::SetRows(rs) => {
                self.rows = rs;
            },
        }
    }
}

} // verus!
