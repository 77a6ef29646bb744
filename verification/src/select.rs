//! A menu to pick one item from a list with the arrow keys, `j`/`k`, or a
//! digit, confirmed with Enter.
use vstd::prelude::*;
use crate::input::{KeyCode, KeyPress};
use crate::paint::{plain_spec, styled_spec, TermColor, TextStyle};
use crate::text::{decimal, views};

verus! {

/// The menu's prompt, items and state.
pub struct SelectMenu {
    pub prompt: String,
    pub items: Vec<String>,
    /// The highlighted item.
    pub selected_idx: usize,
    /// The chosen item, once the menu is done (none when cancelled).
    pub output: Option<usize>,
    pub finished: bool,
    /// Whether the menu needs a redraw.
    pub dirty: bool,
}

/// The menu after a key: nothing changes once finished or without items;
/// Ctrl+J and Enter choose the highlighted item, Esc cancels; up and `k`
/// move up (from the top to the bottom), down and `j` move down (from the
/// bottom to the top); a digit 1 to 9 highlights that item when there is one.
pub open spec fn select_key(m: SelectMenu, k: KeyPress) -> SelectMenu {
    let n = m.items@.len();
    let sel = m.selected_idx;
    if m.finished || n == 0 {
        m
    } else if k.ctrl && k.code == KeyCode::Char('j') {
        SelectMenu { output: Some(sel), finished: true, dirty: true, ..m }
    } else {
        match k.code {
            KeyCode::Up => SelectMenu { selected_idx: (if sel > 0 { sel - 1 } else { n - 1 }) as usize, dirty: true, ..m },
            KeyCode::Down => SelectMenu { selected_idx: (if sel + 1 < n { sel + 1 } else { 0 }) as usize, dirty: true, ..m },
            KeyCode::Char(c) => if c == 'k' {
                SelectMenu { selected_idx: (if sel > 0 { sel - 1 } else { n - 1 }) as usize, dirty: true, ..m }
            } else if c == 'j' {
                SelectMenu { selected_idx: (if sel + 1 < n { sel + 1 } else { 0 }) as usize, dirty: true, ..m }
            } else if '1' <= c && c <= '9' {
                let d = (c as u32) - ('1' as u32);
                if d < n && sel != d { SelectMenu { selected_idx: d as usize, dirty: true, ..m } } else { m }
            } else {
                m
            },
            KeyCode::Enter => SelectMenu { output: Some(sel), finished: true, dirty: true, ..m },
            KeyCode::Esc => SelectMenu { output: None, finished: true, dirty: true, ..m },
            _ => m,
        }
    }
}

/// The number before an item: `1. ` to `9. `, blank after the ninth.
pub open spec fn item_number(idx: int) -> Seq<char> {
    if idx < 9 { decimal((idx + 1) as nat) + seq!['.', ' '] } else { seq![' ', ' ', ' '] }
}

/// The menu's lines: the prompt, then each item after its number; the
/// highlighted one after `>` in bold cyan (`on` tells whether color output
/// was on).
pub open spec fn select_lines(m: SelectMenu, on: bool) -> Seq<Seq<char>> {
    let items = views(m.items@);
    seq![m.prompt@] + Seq::new(items.len(), |i: int|
        if i == m.selected_idx {
            styled_spec(seq![' ', ' ', '>', ' '] + item_number(i) + items[i], TextStyle { fg: Some(TermColor::Cyan), bold: true, ..plain_spec() }, on)
        } else {
            seq![' ', ' ', ' ', ' '] + item_number(i) + items[i]
        })
}

fn copy_string(s: &String) -> (r: String)
    ensures
        r@ == s@,
{
    crate::text::string_of(crate::text::chars_of(s.as_str()).as_slice())
}

impl SelectMenu {
    /// A menu with a prompt and items, the first highlighted.
    pub fn new(prompt: &str, items: Vec<String>) -> (r: SelectMenu)
        ensures
            r.prompt@ == prompt@,
            views(r.items@) == views(items@),
            r.selected_idx == 0,
            r.output is None,
            !r.finished,
            r.dirty,
    {
        let p = crate::text::string_of(crate::text::chars_of(prompt).as_slice());
        SelectMenu { prompt: p, items, selected_idx: 0, output: None, finished: false, dirty: true }
    }

    /// Whether the menu needs a redraw.
    pub fn is_changed(&self) -> (r: bool)
        ensures
            r == self.dirty,
    {
        self.dirty
    }

    /// Whether the menu is done.
    pub fn is_finished(&self) -> (r: bool)
        ensures
            r == self.finished,
    {
        self.finished
    }

    /// Handles a key (see `select_key`).
    pub fn handle_key(&mut self, key: KeyPress)
        ensures
            *final(self) == select_key(*old(self), key),
    {
        let n = self.items.len();
        if self.finished || n == 0 {
            return;
        }
        if key.ctrl && crate::input::code_is_char(key.code, 'j') {
            self.output = Some(self.selected_idx);
            self.finished = true;
            self.dirty = true;
            return;
        }
        let sel = self.selected_idx;
        match key.code {
            KeyCode::Up => {
                self.selected_idx = if sel > 0 { sel - 1 } else { n - 1 };
                self.dirty = true;
            },
            KeyCode::Down => {
                self.selected_idx = if sel < n - 1 { sel + 1 } else { 0 };
                self.dirty = true;
            },
            KeyCode::Char(c) => {
                if c == 'k' {
                    self.selected_idx = if sel > 0 { sel - 1 } else { n - 1 };
                    self.dirty = true;
                } else if c == 'j' {
                    self.selected_idx = if sel < n - 1 { sel + 1 } else { 0 };
                    self.dirty = true;
                } else if '1' <= c && c <= '9' {
                    let d = (c as u32 - '1' as u32) as usize;
                    if d < n && sel != d {
                        self.selected_idx = d;
                        self.dirty = true;
                    }
                }
            },
            KeyCode::Enter => {
                self.output = Some(sel);
                self.finished = true;
                self.dirty = true;
            },
            KeyCode::Esc => {
                self.output = None;
                self.finished = true;
                self.dirty = true;
            },
            _ => {},
        }
    }

    /// Draws the menu (see `select_lines`) and clears the redraw mark.
    pub fn render_frame(&mut self) -> (r: Vec<String>)
        ensures
            exists|on: bool| views(r@) == select_lines(*old(self), on),
            *final(self) == (SelectMenu { dirty: false, ..*old(self) }),
    {
        let ghost m = *self;
        self.dirty = false;
        let mut lines: Vec<String> = Vec::new();
        lines.push(copy_string(&self.prompt));
        let ghost mut on: bool = true;
        let n = self.items.len();
        let mut i: usize = 0;
        let st = TextStyle { fg: Some(TermColor::Cyan), bg: None, bold: true, dim: false, italic: false, underlined: false };
        while i < n
            invariant
                n == self.items@.len(),
                self.items == m.items,
                self.selected_idx == m.selected_idx,
                self.prompt == m.prompt,
                st == (TextStyle { fg: Some(TermColor::Cyan), bold: true, ..plain_spec() }),
                i <= n,
                views(lines@) == select_lines(m, on).take(i + 1),
            decreases n - i,
        {
            let num: Vec<char> = if i < 9 {
                let mut d = crate::text::decimal_chars(i + 1);
                d.push('.');
                d.push(' ');
                d
            } else {
                vec![' ', ' ', ' ']
            };
            assert(num@ =~= item_number(i as int));
            let item = crate::text::chars_of(self.items[i].as_str());
            let ghost b = lines@;
            if i == self.selected_idx {
                let mut raw: Vec<char> = vec![' ', ' ', '>', ' '];
                crate::text::extend_chars(&mut raw, num.as_slice());
                crate::text::extend_chars(&mut raw, item.as_slice());
                let (x, g) = crate::paint::paint_logged(&raw, st);
                proof {
                    on = g@;
                }
                lines.push(crate::text::string_of(x.as_slice()));
            } else {
                let mut raw: Vec<char> = vec![' ', ' ', ' ', ' '];
                crate::text::extend_chars(&mut raw, num.as_slice());
                crate::text::extend_chars(&mut raw, item.as_slice());
                lines.push(crate::text::string_of(raw.as_slice()));
            }
            assert(views(lines@) =~= views(b).push(lines@[i + 1]@));
            assert(views(lines@) =~= select_lines(m, on).take(i + 2));
            i += 1;
        }
        assert(select_lines(m, on).len() == n + 1);
        assert(select_lines(m, on).take(n + 1) =~= select_lines(m, on));
        lines
    }

    /// The chosen item, taken out (none afterwards).
    pub fn extract_output(&mut self) -> (r: Option<usize>)
        ensures
            r == old(self).output,
            *final(self) == (SelectMenu { output: None, ..*old(self) }),
    {
        let r = self.output;
        self.output = None;
        r
    }
}

} // verus!

verus! {

/// The plain key press of a key code.
pub open spec fn plain_key(code: KeyCode) -> KeyPress {
    KeyPress { code, ctrl: false, alt: false, shift: false }
}

/// Moving down and then up highlights the same item again.
pub proof fn law_down_then_up(m: SelectMenu)
    requires
        !m.finished,
        m.selected_idx < m.items@.len() <= usize::MAX,
    ensures
        select_key(select_key(m, plain_key(KeyCode::Down)), plain_key(KeyCode::Up)).selected_idx == m.selected_idx,
{
}

/// Moving up and then down highlights the same item again.
pub proof fn law_up_then_down(m: SelectMenu)
    requires
        !m.finished,
        m.selected_idx < m.items@.len() <= usize::MAX,
    ensures
        select_key(select_key(m, plain_key(KeyCode::Up)), plain_key(KeyCode::Down)).selected_idx == m.selected_idx,
{
}

/// Once finished, the menu ignores every key.
pub proof fn law_finished_is_final(m: SelectMenu, k: KeyPress)
    requires
        m.finished,
    ensures
        select_key(m, k) == m,
{
}

/// The highlighted item stays an item whatever the key.
pub proof fn law_selection_in_range(m: SelectMenu, k: KeyPress)
    requires
        m.selected_idx < m.items@.len() <= usize::MAX,
    ensures
        select_key(m, k).selected_idx < m.items@.len(),
{
}


/// The vim keys are the arrows: `j` does what Down does and `k` what Up does
/// (without Ctrl, which makes Ctrl+J choose).  On an open menu with the
/// highlight on an item, Down moves it to the next item and Up to the
/// previous one, each wrapping around the ends.
pub proof fn law_select_vim_keys(m: SelectMenu, key: KeyPress)
    requires
        !key.ctrl,
    ensures
        select_key(m, KeyPress { code: KeyCode::Char('j'), ..key }) == select_key(m, KeyPress { code: KeyCode::Down, ..key }),
        select_key(m, KeyPress { code: KeyCode::Char('k'), ..key }) == select_key(m, KeyPress { code: KeyCode::Up, ..key }),
        !m.finished && m.selected_idx < m.items@.len() ==> {
            let n = m.items@.len() as int;
            &&& select_key(m, KeyPress { code: KeyCode::Down, ..key }).selected_idx == (m.selected_idx + 1) % n
            &&& select_key(m, KeyPress { code: KeyCode::Up, ..key }).selected_idx == (m.selected_idx + n - 1) % n
        },
{
    let n = m.items@.len() as int;
    if !m.finished && m.selected_idx < n {
        let s = m.selected_idx as int;
        assert(m.items.len() == n);
        let down = select_key(m, KeyPress { code: KeyCode::Down, ..key });
        let up = select_key(m, KeyPress { code: KeyCode::Up, ..key });
        assert(down.selected_idx == (if s + 1 < n { s + 1 } else { 0 }));
        assert(up.selected_idx == (if s > 0 { s - 1 } else { n - 1 }));
        if s + 1 < n {
            assert((s + 1) % n == s + 1) by (nonlinear_arith) requires 0 <= s + 1 < n;
        } else {
            assert((s + 1) % n == 0) by (nonlinear_arith) requires s + 1 == n, n > 0;
        }
        if s > 0 {
            assert((s + n - 1) % n == s - 1) by (nonlinear_arith) requires 0 < s < n;
        } else {
            assert((s + n - 1) % n == n - 1) by (nonlinear_arith) requires s == 0, n > 0;
        }
    }
}

} // verus!
