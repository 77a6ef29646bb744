//! A bulleted list with one highlighted item, moved with the arrow keys,
//! `j`/`k`, Tab, Home and End.
use vstd::prelude::*;
use crate::ansi::{reset_sequence, visible_width_spec, wrap_text_spec};
use crate::block::{reps, sub0};
use crate::input::{KeyCode, KeyPress};
use crate::md::colored;
use crate::paint::{bold_spec, styled_spec, TermColor};
use crate::style::{bullet_symbol, BulletStyle};
use crate::text::{cviews, views};

verus! {

/// The list's items, bullets and highlighted item.
pub struct List {
    pub items: Vec<String>,
    pub bullet: BulletStyle,
    pub bullet_color: Option<TermColor>,
    pub active_bullet: BulletStyle,
    pub active_color: Option<TermColor>,
    pub selected_index: Option<usize>,
}

/// A change to the items.
pub enum ListOp {
    Add(String),
    Clear,
    SetItems(Vec<String>),
}

/// The items after a change.
pub open spec fn apply_list_op(v: Seq<Seq<char>>, op: ListOp) -> Seq<Seq<char>> {
    match op {
        ListOp::Add(s) => v.push(s@),
        ListOp::Clear => Seq::empty(),
        ListOp::SetItems(items) => views(items@),
    }
}

/// The item before `current`, from the first to the last.
pub open spec fn prev_index(current: int, n: int) -> int {
    if current == 0 { n - 1 } else { current - 1 }
}

/// The result of a navigation key: the new highlighted item and whether the
/// key confirms the choice. Nothing happens without items; Enter and Ctrl+J
/// confirm; up, `k`, Shift+Tab and back-tab go to the previous item (from
/// the first to the last), down, `j` and Tab to the next (from the last to
/// the first); Home and End to the first and the last.
pub open spec fn navigate(sel: Option<usize>, n: int, k: KeyPress) -> (Option<usize>, bool) {
    let current: int = match sel {
        Some(s) => s as int,
        None => 0,
    };
    if n == 0 {
        (sel, false)
    } else {
        match k.code {
            KeyCode::Enter => (sel, true),
            KeyCode::Char(c) => if c == 'j' && k.ctrl {
                (sel, true)
            } else if c == 'k' {
                (Some(prev_index(current, n) as usize), false)
            } else if c == 'j' {
                (Some(((current + 1) % n) as usize), false)
            } else {
                (sel, false)
            },
            KeyCode::Up => (Some(prev_index(current, n) as usize), false),
            KeyCode::BackTab => (Some(prev_index(current, n) as usize), false),
            KeyCode::Down => (Some(((current + 1) % n) as usize), false),
            KeyCode::Tab => if k.shift {
                (Some(prev_index(current, n) as usize), false)
            } else {
                (Some(((current + 1) % n) as usize), false)
            },
            KeyCode::Home => (Some(0usize), false),
            KeyCode::End => (Some((n - 1) as usize), false),
            _ => (sel, false),
        }
    }
}

/// The lines of item `idx`: its bullet (the active one when highlighted, in
/// its color as printed with color output `on`), then its text wrapped to the
/// width after the bullet and a space, further lines indented as far, all in
/// bold when highlighted and closed by a reset; the bullet alone when no
/// column is left.
pub open spec fn item_lines(l: List, idx: int, item: Seq<char>, max_width: int, on: bool) -> Seq<Seq<char>> {
    let is_sel = l.selected_index == Some(idx as usize);
    let bullet = if is_sel { l.active_bullet } else { l.bullet };
    let color = if is_sel { l.active_color } else { l.bullet_color };
    let raw = bullet_symbol(bullet, idx as nat);
    let symbol = colored(raw, color, on);
    let indent_len = visible_width_spec(raw) + 1;
    let avail = sub0(max_width, indent_len);
    if avail == 0 {
        seq![if is_sel { styled_spec(symbol, bold_spec(), true) } else { symbol }]
    } else {
        let ws = wrap_text_spec(item, avail as nat, false);
        Seq::new(ws.len(), |i: int| {
            let t = if is_sel { styled_spec(ws[i], bold_spec(), true) } else { ws[i] };
            (if i == 0 { symbol + seq![' '] } else { reps(' ', indent_len) }) + t + reset_sequence()
        })
    }
}

/// The lines of items from `i` on, item `k` with color flag `on[k]`.
pub open spec fn items_lines(l: List, items: Seq<Seq<char>>, max_width: int, on: Seq<bool>, n: int) -> Seq<Seq<char>>
    decreases n,
{
    if n <= 0 {
        Seq::empty()
    } else {
        items_lines(l, items, max_width, on, n - 1) + item_lines(l, n - 1, items[n - 1], max_width, on[n - 1])
    }
}

/// The list's lines: none for no width, otherwise every item's lines.
pub open spec fn list_lines(l: List, max_width: int, on: Seq<bool>) -> Seq<Seq<char>> {
    if max_width == 0 {
        Seq::empty()
    } else {
        items_lines(l, views(l.items@), max_width, on, l.items@.len() as int)
    }
}

fn copy_string(s: &String) -> (r: String)
    ensures
        r@ == s@,
{
    crate::text::string_of(crate::text::chars_of(s.as_str()).as_slice())
}

impl List {
    /// An empty list with dots, a cyan triangle for the highlighted item, the
    /// first highlighted.
    pub fn new() -> (r: List)
        ensures
            r.items@.len() == 0,
            r.bullet == BulletStyle::Dot,
            r.bullet_color is None,
            r.active_bullet == BulletStyle::Triangle,
            r.active_color == Some(TermColor::Cyan),
            r.selected_index == Some(0usize),
    {
        List {
            items: Vec::new(),
            bullet: BulletStyle::Dot,
            bullet_color: None,
            active_bullet: BulletStyle::Triangle,
            active_color: Some(TermColor::Cyan),
            selected_index: Some(0),
        }
    }

    /// Sets the bullet of the other items and its color.
    pub fn bullet(self, bullet: BulletStyle, color: Option<TermColor>) -> (r: List)
        ensures
            r == (List { bullet, bullet_color: color, ..self }),
    {
        List { bullet, bullet_color: color, ..self }
    }

    /// Sets the bullet of the highlighted item and its color.
    pub fn active_bullet(self, bullet: BulletStyle, color: Option<TermColor>) -> (r: List)
        ensures
            r == (List { active_bullet: bullet, active_color: color, ..self }),
    {
        List { active_bullet: bullet, active_color: color, ..self }
    }

    /// Adds an item.
    pub fn item(self, item: &str) -> (r: List)
        ensures
            views(r.items@) == views(self.items@).push(item@),
            r == (List { items: r.items, ..self }),
    {
        let mut l = self;
        let ghost b = views(l.items@);
        l.items.push(crate::text::string_of(crate::text::chars_of(item).as_slice()));
        assert(views(l.items@) =~= b.push(item@));
        l
    }

    /// Adds items.
    pub fn items(self, items: Vec<String>) -> (r: List)
        ensures
            views(r.items@) == views(self.items@) + views(items@),
            r == (List { items: r.items, ..self }),
    {
        let mut l = self;
        let ghost b = views(l.items@);
        let mut i: usize = 0;
        while i < items.len()
            invariant
                i <= items@.len(),
                views(l.items@) == b + views(items@).take(i as int),
                l == (List { items: l.items, ..self }),
            decreases items.len() - i,
        {
            let ghost before = views(l.items@);
            l.items.push(copy_string(&items[i]));
            assert(views(l.items@) =~= before.push(items@[i as int]@));
            assert(views(items@).take(i + 1) =~= views(items@).take(i as int).push(items@[i as int]@));
            i += 1;
        }
        assert(views(items@).take(items@.len() as int) =~= views(items@));
        l
    }

    /// Applies a change to the items (see `apply_list_op`).
    pub fn apply(&mut self, op: ListOp)
        ensures
            views(final(self).items@) == apply_list_op(views(old(self).items@), op),
            *final(self) == (List { items: final(self).items, ..*old(self) }),
    {
        match op {
            ListOp::Add(s) => {
                let ghost b = views(self.items@);
                self.items.push(s);
                assert(views(self.items@) =~= b.push(s@));
            },
            ListOp::Clear => {
                self.items = Vec::new();
                assert(views(self.items@) =~= Seq::<Seq<char>>::empty());
            },
            ListOp::SetItems(items) => {
                self.items = items;
            },
        }
    }

    /// Handles a navigation key (see `navigate`); tells whether it confirms.
    pub fn handle_navigation(&mut self, key: KeyPress) -> (r: bool)
        ensures
            (final(self).selected_index, r) == navigate(old(self).selected_index, old(self).items@.len() as int, key),
            final(self).items == old(self).items,
            *final(self) == (List { selected_index: final(self).selected_index, ..*old(self) }),
    {
        let n = self.items.len();
        if n == 0 {
            return false;
        }
        let current = match self.selected_index {
            Some(s) => s,
            None => 0,
        };
        let prev = if current == 0 { n - 1 } else { current - 1 };
        let next = (current % n + 1) % n;
        assert(next == (current + 1) % (n as int)) by {
            vstd::arithmetic::div_mod::lemma_add_mod_noop(current as int, 1, n as int);
            if n > 1 {
                vstd::arithmetic::div_mod::lemma_small_mod(1, n as nat);
            }
        }
        match key.code {
            KeyCode::Enter => {
                return true;
            },
            KeyCode::Char(c) => {
                if c == 'j' && key.ctrl {
                    return true;
                } else if c == 'k' {
                    self.selected_index = Some(prev);
                } else if c == 'j' {
                    self.selected_index = Some(next);
                }
            },
            KeyCode::Up => {
                self.selected_index = Some(prev);
            },
            KeyCode::BackTab => {
                self.selected_index = Some(prev);
            },
            KeyCode::Down => {
                self.selected_index = Some(next);
            },
            KeyCode::Tab => {
                if key.shift {
                    self.selected_index = Some(prev);
                } else {
                    self.selected_index = Some(next);
                }
            },
            KeyCode::Home => {
                self.selected_index = Some(0);
            },
            KeyCode::End => {
                self.selected_index = Some(n - 1);
            },
            _ => {},
        }
        false
    }

    /// The highlighted item's index and text; `(0, "")` when it is past the items.
    pub fn extract_output(&self) -> (r: (usize, String))
        ensures
            ({
                let s = match self.selected_index {
                    Some(s) => s,
                    None => 0,
                };
                if s < self.items@.len() {
                    r.0 == s && r.1@ == self.items@[s as int]@
                } else {
                    r.0 == 0 && r.1@.len() == 0
                }
            }),
    {
        let s = match self.selected_index {
            Some(s) => s,
            None => 0,
        };
        if s < self.items.len() {
            (s, copy_string(&self.items[s]))
        } else {
            (0, String::new())
        }
    }
}

} // verus!

verus! {

impl List {
    /// The lines of item `idx` (see `item_lines`).
    fn item_exec(&self, idx: usize, max_width: usize) -> (r: (Vec<Vec<char>>, Ghost<bool>))
        requires
            idx < self.items@.len(),
        ensures
            cviews(r.0@) == item_lines(*self, idx as int, self.items@[idx as int]@, max_width as int, r.1@),
    {
        let n = self.items.len();
        assert(idx < n);
        let is_sel = match self.selected_index {
            Some(s) => s == idx,
            None => false,
        };
        let bullet = if is_sel { self.active_bullet } else { self.bullet };
        let color = if is_sel { self.active_color } else { self.bullet_color };
        let raw = crate::text::chars_of(bullet.render_symbol(idx).as_str());
        let (symbol, on) = crate::md::colored_exec(&raw, color);
        let sl = crate::ansi::visible_width_chars(raw.as_slice());
        let indent_len: u128 = sl as u128 + 1;
        let avail: usize = if (max_width as u128) > indent_len { ((max_width as u128) - indent_len) as usize } else { 0 };
        let mut out: Vec<Vec<char>> = Vec::new();
        if avail == 0 {
            let x = if is_sel { crate::paint::fixed_styled(&symbol, crate::paint::TextStyle { fg: None, bg: None, bold: true, dim: false, italic: false, underlined: false }) } else { symbol };
            out.push(x);
            assert(cviews(out@) =~= seq![x@]);
            return (out, on);
        }
        let item = crate::text::chars_of(self.items[idx].as_str());
        let ws = crate::ansi::wrap_text_gen(&item, avail, false);
        assert(cviews(ws@) =~= ws@.map_values(|c: Vec<char>| c@));
        let indent = crate::text::repeat_char_exec(' ', sl + 1);
        let reset: Vec<char> = vec!['\x1b', '[', '0', 'm'];
        assert(reset@ =~= reset_sequence());
        let mut i: usize = 0;
        let ghost wv = cviews(ws@);
        let ghost f = |k: int| {
            let t = if is_sel { styled_spec(wv[k], bold_spec(), true) } else { wv[k] };
            (if k == 0 { symbol@ + seq![' '] } else { reps(' ', sl + 1) }) + t + reset_sequence()
        };
        while i < ws.len()
            invariant
                wv == cviews(ws@),
                i <= ws@.len(),
                reset@ == reset_sequence(),
                indent@ == reps(' ', sl + 1),
                f == (|k: int| {
                    let t = if is_sel { styled_spec(wv[k], bold_spec(), true) } else { wv[k] };
                    (if k == 0 { symbol@ + seq![' '] } else { reps(' ', sl + 1) }) + t + reset_sequence()
                }),
                cviews(out@) == Seq::new(i as nat, f),
            decreases ws.len() - i,
        {
            let t = if is_sel {
                crate::paint::fixed_styled(&ws[i], crate::paint::TextStyle { fg: None, bg: None, bold: true, dim: false, italic: false, underlined: false })
            } else {
                crate::text::chars_of(crate::text::string_of(ws[i].as_slice()).as_str())
            };
            let mut line: Vec<char> = if i == 0 {
                let mut h = symbol.clone();
                h.push(' ');
                h
            } else {
                crate::text::chars_of(crate::text::string_of(indent.as_slice()).as_str())
            };
            crate::text::extend_chars(&mut line, t.as_slice());
            crate::text::extend_chars(&mut line, reset.as_slice());
            assert(line@ =~= f(i as int));
            let ghost b = out@;
            out.push(line);
            assert(cviews(out@) =~= Seq::new((i + 1) as nat, f)) by {
                assert(cviews(out@) =~= cviews(b).push(line@));
            }
            i += 1;
        }
        assert(cviews(out@) =~= item_lines(*self, idx as int, self.items@[idx as int]@, max_width as int, on@));
        (out, on)
    }

    /// The list's lines (see `list_lines`).
    pub fn render_content(&self, max_width: usize) -> (r: Vec<String>)
        ensures
            exists|on: Seq<bool>| views(r@) == list_lines(*self, max_width as int, on),
    {
        let ghost mut on: Seq<bool> = Seq::empty();
        let mut out: Vec<Vec<char>> = Vec::new();
        if max_width == 0 {
            let r = crate::text::strings_of(&out);
            assert(views(r@) =~= list_lines(*self, 0, on));
            return r;
        }
        let ghost iv = views(self.items@);
        let mut idx: usize = 0;
        while idx < self.items.len()
            invariant
                iv == views(self.items@),
                idx <= self.items@.len(),
                on.len() == idx,
                cviews(out@) == items_lines(*self, iv, max_width as int, on, idx as int),
            decreases self.items.len() - idx,
        {
            let (lines, g) = self.item_exec(idx, max_width);
            let ghost prev = on;
            proof {
                on = on.push(g@);
                assert(on.take(idx as int) =~= prev.take(idx as int));
                lemma_items_lines_frame(*self, iv, max_width as int, prev, on, idx as int);
            }
            let ghost b = cviews(out@);
            let mut k: usize = 0;
            while k < lines.len()
                invariant
                    k <= lines@.len(),
                    cviews(out@) == b + cviews(lines@).take(k as int),
                decreases lines.len() - k,
            {
                let ghost bb = out@;
                out.push(crate::text::chars_of(crate::text::string_of(lines[k].as_slice()).as_str()));
                assert(cviews(out@) =~= cviews(bb).push(lines@[k as int]@));
                assert(cviews(lines@).take(k + 1) =~= cviews(lines@).take(k as int).push(lines@[k as int]@));
                k += 1;
            }
            assert(cviews(lines@).take(lines@.len() as int) =~= cviews(lines@));
            assert(iv[idx as int] == self.items@[idx as int]@);
            idx += 1;
        }
        let r = crate::text::strings_of(&out);
        assert(views(r@) =~= cviews(out@));
        assert(views(r@) == list_lines(*self, max_width as int, on));
        r
    }
}

/// Item lines read with flags `a` and `b` agree where the flags agree.
proof fn lemma_items_lines_frame(l: List, items: Seq<Seq<char>>, max_width: int, a: Seq<bool>, b: Seq<bool>, n: int)
    requires
        0 <= n <= a.len(),
        n <= b.len(),
        a.take(n) == b.take(n),
    ensures
        items_lines(l, items, max_width, a, n) == items_lines(l, items, max_width, b, n),
    decreases n,
{
    if n > 0 {
        assert(a.take(n - 1) =~= a.take(n).take(n - 1));
        assert(b.take(n - 1) =~= b.take(n).take(n - 1));
        lemma_items_lines_frame(l, items, max_width, a, b, n - 1);
        assert(a[n - 1] == a.take(n)[n - 1]);
        assert(b[n - 1] == b.take(n)[n - 1]);
    }
}

} // verus!

verus! {

/// Moving down and then up highlights the same item again.
pub proof fn law_down_then_up(sel: usize, n: int)
    requires
        sel < n <= usize::MAX,
    ensures
        navigate(navigate(Some(sel), n, KeyPress { code: KeyCode::Down, ctrl: false, alt: false, shift: false }).0, n,
            KeyPress { code: KeyCode::Up, ctrl: false, alt: false, shift: false }).0 == Some(sel),
{
    if sel + 1 < n {
        assert((sel + 1) % n == sel + 1) by {
            vstd::arithmetic::div_mod::lemma_small_mod((sel + 1) as nat, n as nat);
        }
    } else {
        assert((sel + 1) % n == 0) by {
            vstd::arithmetic::div_mod::lemma_mod_self_0(n);
        }
    }
}

/// The highlighted item stays an item after any navigation key.
pub proof fn law_navigation_in_range(sel: usize, n: int, k: KeyPress)
    requires
        sel < n <= usize::MAX,
    ensures
        navigate(Some(sel), n, k).0 matches Some(s) && s < n,
{
    vstd::arithmetic::div_mod::lemma_mod_bound(sel + 1, n);
}

} // verus!
