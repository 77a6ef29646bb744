//! Editing state of a text input field: lines of text, a cursor, scrolling
//! offsets and navigation through a history of submitted commands.
use vstd::prelude::*;
use crate::ansi::{char_columns, char_width, display_width, str_width};
use crate::text::{
    chars_of, cviews, is_whitespace, is_ws, join_with, join_with_exec, split_chars, split_on, string_of, trim_exec,
    trim_spec, views,
};

verus! {

/// A key, as the input field distinguishes keys.
#[derive(Clone, Copy, Debug, PartialEq, Eq, Structural)]
pub enum KeyCode {
    Char(char),
    Enter,
    Home,
    End,
    Left,
    Right,
    Up,
    Down,
    Backspace,
    Delete,
    PageUp,
    PageDown,
    Tab,
    BackTab,
    Esc,
    /// Any other key.
    Other,
}

/// A key press with its modifier keys.
#[derive(Clone, Copy, Debug, PartialEq, Eq, Structural)]
pub struct KeyPress {
    pub code: KeyCode,
    pub ctrl: bool,
    pub alt: bool,
    pub shift: bool,
}

/// What a key press does to the input field.
#[derive(Clone, Copy, Debug, PartialEq, Eq, Structural)]
pub enum EditAction {
    Submit,
    Top,
    Bottom,
    Home,
    End,
    Left,
    Right,
    Up,
    Down,
    Backspace,
    Delete,
    DeleteWord,
    Newline,
    Insert(char),
    Ignore,
}

/// `ctrl` held with the letter `c`.
pub open spec fn ctrl_char(k: KeyPress, c: char) -> bool {
    k.ctrl && k.code == KeyCode::Char(c)
}

/// `alt` held with the letter given in either case, with `shift` held exactly when `shifted`.
pub open spec fn alt_combo(k: KeyPress, lower: char, upper: char, shifted: bool) -> bool {
    k.alt && k.shift == shifted && (k.code == KeyCode::Char(lower) || k.code == KeyCode::Char(upper))
}

/// Whether a key submits the field: Enter (Alt+Enter in multi-line mode) or Ctrl+J.
pub open spec fn is_submit(k: KeyPress, multiline: bool) -> bool {
    if multiline {
        (k.alt && k.code == KeyCode::Enter) || ctrl_char(k, 'j')
    } else {
        k.code == KeyCode::Enter || ctrl_char(k, 'j')
    }
}

pub open spec fn is_up(k: KeyPress) -> bool {
    k.code == KeyCode::Up || ctrl_char(k, 'p') || alt_combo(k, 'k', 'K', false)
}

pub open spec fn is_down(k: KeyPress) -> bool {
    k.code == KeyCode::Down || ctrl_char(k, 'n') || alt_combo(k, 'j', 'J', false)
}

pub open spec fn is_backspace(k: KeyPress) -> bool {
    k.code == KeyCode::Backspace || ctrl_char(k, 'h')
}

pub open spec fn is_delete(k: KeyPress) -> bool {
    k.code == KeyCode::Delete || ctrl_char(k, 'd')
}

/// The action of a key, the first that applies in this order: submit, top
/// (Alt+Shift+K), bottom (Alt+Shift+J), home (Home, Ctrl+A, Alt+Shift+H), end
/// (End, Ctrl+E, Alt+Shift+L), left (Left, Ctrl+B, Alt+H), right (Right,
/// Ctrl+F, Alt+L), up (Up, Ctrl+P, Alt+K), down (Down, Ctrl+N, Alt+J),
/// backspace (Backspace, Ctrl+H), delete (Delete, Ctrl+D), delete word
/// (Ctrl+W), new line (Enter in multi-line mode), typing a character (without
/// Ctrl and Alt).
pub open spec fn action_of(k: KeyPress, multiline: bool) -> EditAction {
    if is_submit(k, multiline) {
        EditAction::Submit
    } else if alt_combo(k, 'k', 'K', true) {
        EditAction::Top
    } else if alt_combo(k, 'j', 'J', true) {
        EditAction::Bottom
    } else if k.code == KeyCode::Home || ctrl_char(k, 'a') || alt_combo(k, 'h', 'H', true) {
        EditAction::Home
    } else if k.code == KeyCode::End || ctrl_char(k, 'e') || alt_combo(k, 'l', 'L', true) {
        EditAction::End
    } else if k.code == KeyCode::Left || ctrl_char(k, 'b') || alt_combo(k, 'h', 'H', false) {
        EditAction::Left
    } else if k.code == KeyCode::Right || ctrl_char(k, 'f') || alt_combo(k, 'l', 'L', false) {
        EditAction::Right
    } else if is_up(k) {
        EditAction::Up
    } else if is_down(k) {
        EditAction::Down
    } else if is_backspace(k) {
        EditAction::Backspace
    } else if is_delete(k) {
        EditAction::Delete
    } else if ctrl_char(k, 'w') {
        EditAction::DeleteWord
    } else {
        match k.code {
            KeyCode::Enter => if multiline {
                EditAction::Newline
            } else {
                EditAction::Ignore
            },
            KeyCode::Char(c) => if !k.ctrl && !k.alt {
                EditAction::Insert(c)
            } else {
                EditAction::Ignore
            },
            _ => EditAction::Ignore,
        }
    }
}

pub fn code_is_char(code: KeyCode, c: char) -> (r: bool)
    ensures
        r == (code == KeyCode::Char(c)),
{
    match code {
        KeyCode::Char(x) => x == c,
        _ => false,
    }
}

fn ctrl_char_exec(k: &KeyPress, c: char) -> (r: bool)
    ensures
        r == ctrl_char(*k, c),
{
    k.ctrl && code_is_char(k.code, c)
}

fn alt_combo_exec(k: &KeyPress, lower: char, upper: char, shifted: bool) -> (r: bool)
    ensures
        r == alt_combo(*k, lower, upper, shifted),
{
    k.alt && k.shift == shifted && (code_is_char(k.code, lower) || code_is_char(k.code, upper))
}

pub fn code_is(code: KeyCode, other: KeyCode) -> (r: bool)
    requires
        !(other is Char),
    ensures
        r == (code == other),
{
    match (code, other) {
        (KeyCode::Enter, KeyCode::Enter) => true,
        (KeyCode::Home, KeyCode::Home) => true,
        (KeyCode::End, KeyCode::End) => true,
        (KeyCode::Left, KeyCode::Left) => true,
        (KeyCode::Right, KeyCode::Right) => true,
        (KeyCode::Up, KeyCode::Up) => true,
        (KeyCode::Down, KeyCode::Down) => true,
        (KeyCode::Backspace, KeyCode::Backspace) => true,
        (KeyCode::Delete, KeyCode::Delete) => true,
        (KeyCode::PageUp, KeyCode::PageUp) => true,
        (KeyCode::PageDown, KeyCode::PageDown) => true,
        (KeyCode::Tab, KeyCode::Tab) => true,
        (KeyCode::BackTab, KeyCode::BackTab) => true,
        (KeyCode::Esc, KeyCode::Esc) => true,
        (KeyCode::Other, KeyCode::Other) => true,
        _ => false,
    }
}

/// The action of a key press (see `action_of`).
pub fn classify_key(k: &KeyPress, multiline: bool) -> (a: EditAction)
    ensures
        a == action_of(*k, multiline),
{
    let enter = code_is(k.code, KeyCode::Enter);
    let submit = if multiline {
        (k.alt && enter) || ctrl_char_exec(k, 'j')
    } else {
        enter || ctrl_char_exec(k, 'j')
    };
    if submit {
        EditAction::Submit
    } else if alt_combo_exec(k, 'k', 'K', true) {
        EditAction::Top
    } else if alt_combo_exec(k, 'j', 'J', true) {
        EditAction::Bottom
    } else if code_is(k.code, KeyCode::Home) || ctrl_char_exec(k, 'a') || alt_combo_exec(k, 'h', 'H', true) {
        EditAction::Home
    } else if code_is(k.code, KeyCode::End) || ctrl_char_exec(k, 'e') || alt_combo_exec(k, 'l', 'L', true) {
        EditAction::End
    } else if code_is(k.code, KeyCode::Left) || ctrl_char_exec(k, 'b') || alt_combo_exec(k, 'h', 'H', false) {
        EditAction::Left
    } else if code_is(k.code, KeyCode::Right) || ctrl_char_exec(k, 'f') || alt_combo_exec(k, 'l', 'L', false) {
        EditAction::Right
    } else if code_is(k.code, KeyCode::Up) || ctrl_char_exec(k, 'p') || alt_combo_exec(k, 'k', 'K', false) {
        EditAction::Up
    } else if code_is(k.code, KeyCode::Down) || ctrl_char_exec(k, 'n') || alt_combo_exec(k, 'j', 'J', false) {
        EditAction::Down
    } else if code_is(k.code, KeyCode::Backspace) || ctrl_char_exec(k, 'h') {
        EditAction::Backspace
    } else if code_is(k.code, KeyCode::Delete) || ctrl_char_exec(k, 'd') {
        EditAction::Delete
    } else if ctrl_char_exec(k, 'w') {
        EditAction::DeleteWord
    } else {
        match k.code {
            KeyCode::Enter => if multiline {
                EditAction::Newline
            } else {
                EditAction::Ignore
            },
            KeyCode::Char(c) => if !k.ctrl && !k.alt {
                EditAction::Insert(c)
            } else {
                EditAction::Ignore
            },
            _ => EditAction::Ignore,
        }
    }
}

} // verus!

verus! {

/// A text input field: configuration, lines of text, cursor and scrolling
/// state, and the state of history navigation.
pub struct Input {
    /// Value returned on submit when the text is blank.
    pub default: Option<String>,
    /// Text shown while the field is empty.
    pub placeholder: Option<String>,
    /// Whether characters are shown as asterisks.
    pub secret: bool,
    /// Whether several lines can be edited.
    pub multiline: bool,
    /// Fewest rows shown in multi-line mode.
    pub min_height: usize,
    /// Most rows shown in multi-line mode.
    pub max_height: usize,
    /// The lines of text.
    pub lines: Vec<Vec<char>>,
    /// Line of the cursor.
    pub cursor_line: usize,
    /// Column of the cursor, in characters.
    pub cursor_col: usize,
    /// First visible column, in characters.
    pub h_scroll: usize,
    /// First visible line.
    pub v_scroll: usize,
    /// Whether the field was submitted.
    pub finished: bool,
    /// Whether the field must be drawn again.
    pub is_changed: bool,
    /// History buffer in use, if any.
    pub buffer_id: Option<u64>,
    /// Most entries kept in the history buffer.
    pub buffer_limit: Option<usize>,
    /// Position in the history while navigating it.
    pub history_idx: Option<usize>,
    /// Text being edited before history navigation started.
    pub saved_draft: Vec<char>,
}

/// The editing state of an input field.
pub struct EditState {
    pub lines: Seq<Seq<char>>,
    pub line: int,
    pub col: int,
}

/// Whether the cursor stands on a line and within it (or just after its end).
pub open spec fn state_wf(st: EditState) -> bool {
    &&& st.lines.len() > 0
    &&& 0 <= st.line < st.lines.len()
    &&& 0 <= st.col <= st.lines[st.line].len()
}

pub open spec fn min_int(a: int, b: int) -> int {
    if a <= b { a } else { b }
}

/// Moves back from `i` over characters whose whitespace-ness is `ws`.
pub open spec fn skip_back(s: Seq<char>, i: int, ws: bool) -> int
    decreases i,
{
    if i > 0 && i <= s.len() && is_ws(s[i - 1]) == ws {
        skip_back(s, i - 1, ws)
    } else {
        i
    }
}

/// Where deleting the word before column `col` starts: back over whitespace,
/// then back over the word.
pub open spec fn word_start(s: Seq<char>, col: int) -> int {
    skip_back(s, skip_back(s, col, true), false)
}

/// What an editing action does to the text and the cursor.
pub open spec fn edit(st: EditState, a: EditAction, multiline: bool) -> EditState {
    let lines = st.lines;
    let line = st.line;
    let col = st.col;
    let cur = lines[line];
    match a {
        EditAction::Top => if multiline {
            EditState { lines, line: 0, col: min_int(col, lines[0].len() as int) }
        } else {
            st
        },
        EditAction::Bottom => if multiline {
            EditState { lines, line: lines.len() - 1, col: min_int(col, lines.last().len() as int) }
        } else {
            st
        },
        EditAction::Home => EditState { col: 0, ..st },
        EditAction::End => EditState { col: cur.len() as int, ..st },
        EditAction::Left => if col > 0 {
            EditState { col: col - 1, ..st }
        } else if multiline && line > 0 {
            EditState { lines, line: line - 1, col: lines[line - 1].len() as int }
        } else {
            st
        },
        EditAction::Right => if col < cur.len() {
            EditState { col: col + 1, ..st }
        } else if multiline && line + 1 < lines.len() {
            EditState { lines, line: line + 1, col: 0 }
        } else {
            st
        },
        EditAction::Up => if multiline && line > 0 {
            EditState { lines, line: line - 1, col: min_int(col, lines[line - 1].len() as int) }
        } else {
            st
        },
        EditAction::Down => if multiline && line + 1 < lines.len() {
            EditState { lines, line: line + 1, col: min_int(col, lines[line + 1].len() as int) }
        } else {
            st
        },
        EditAction::Backspace => if col > 0 {
            EditState { lines: lines.update(line, cur.remove(col - 1)), line, col: col - 1 }
        } else if multiline && line > 0 {
            EditState {
                lines: lines.update(line - 1, lines[line - 1] + cur).remove(line),
                line: line - 1,
                col: lines[line - 1].len() as int,
            }
        } else {
            st
        },
        EditAction::Delete => if col < cur.len() {
            EditState { lines: lines.update(line, cur.remove(col)), ..st }
        } else if multiline && line + 1 < lines.len() {
            EditState { lines: lines.update(line, cur + lines[line + 1]).remove(line + 1), ..st }
        } else {
            st
        },
        EditAction::DeleteWord => if col > 0 {
            let w = word_start(cur, col);
            EditState { lines: lines.update(line, cur.take(w) + cur.skip(col)), line, col: w }
        } else {
            st
        },
        EditAction::Newline => if multiline {
            EditState {
                lines: lines.update(line, cur.take(col)).insert(line + 1, cur.skip(col)),
                line: line + 1,
                col: 0,
            }
        } else {
            st
        },
        EditAction::Insert(c) => EditState { lines: lines.update(line, cur.insert(col, c)), line, col: col + 1 },
        _ => st,
    }
}

/// Every editing action keeps the cursor on a line and within it.
pub proof fn lemma_edit_wf(st: EditState, a: EditAction, multiline: bool)
    requires
        state_wf(st),
    ensures
        state_wf(edit(st, a, multiline)),
{
    let r = edit(st, a, multiline);
    match a {
        EditAction::Backspace => {
            if st.col <= 0 && multiline && st.line > 0 {
                assert(r.lines[r.line] == st.lines[st.line - 1] + st.lines[st.line]);
            }
        },
        EditAction::Delete => {
            if st.col >= st.lines[st.line].len() && multiline && st.line + 1 < st.lines.len() {
                assert(r.lines[r.line] == st.lines[st.line] + st.lines[st.line + 1]);
            }
        },
        EditAction::DeleteWord => {
            if st.col > 0 {
                lemma_skip_back(st.lines[st.line], st.col, true);
                lemma_skip_back(st.lines[st.line], skip_back(st.lines[st.line], st.col, true), false);
            }
        },
        _ => {},
    }
}

proof fn lemma_skip_back(s: Seq<char>, i: int, ws: bool)
    requires
        0 <= i <= s.len(),
    ensures
        0 <= skip_back(s, i, ws) <= i,
    decreases i,
{
    if i > 0 && is_ws(s[i - 1]) == ws {
        lemma_skip_back(s, i - 1, ws);
    }
}

} // verus!

verus! {

impl Input {
    /// The text and cursor of the field.
    pub open spec fn edit_state(&self) -> EditState {
        EditState { lines: cviews(self.lines@), line: self.cursor_line as int, col: self.cursor_col as int }
    }

    /// Whether the cursor stands on a line and within it.
    pub open spec fn wf(&self) -> bool {
        state_wf(self.edit_state())
    }

    /// Whether `other` has the same settings and scrolling as `self`.
    pub open spec fn same_settings(&self, other: &Input) -> bool {
        &&& other.default == self.default
        &&& other.placeholder == self.placeholder
        &&& other.secret == self.secret
        &&& other.multiline == self.multiline
        &&& other.min_height == self.min_height
        &&& other.max_height == self.max_height
        &&& other.h_scroll == self.h_scroll
        &&& other.v_scroll == self.v_scroll
        &&& other.buffer_id == self.buffer_id
        &&& other.buffer_limit == self.buffer_limit
    }

    fn set_line(&mut self, i: usize, v: Vec<char>)
        requires
            i < old(self).lines@.len(),
        ensures
            cviews(final(self).lines@) == cviews(old(self).lines@).update(i as int, v@),
            final(self).cursor_line == old(self).cursor_line,
            final(self).cursor_col == old(self).cursor_col,
            old(self).same_settings(&*final(self)),
            final(self).finished == old(self).finished,
            final(self).is_changed == old(self).is_changed,
            final(self).history_idx == old(self).history_idx,
            final(self).saved_draft == old(self).saved_draft,
    {
        let ghost before = self.lines@;
        self.lines[i] = v;
        assert(cviews(self.lines@) =~= cviews(before).update(i as int, v@));
    }

    /// Whether `new` is `self` after the editing action `a`, nothing but the text and cursor changed.
    pub open spec fn edited_to(&self, new: &Input, a: EditAction) -> bool {
        &&& new.edit_state() == edit(self.edit_state(), a, self.multiline)
        &&& self.same_settings(new)
        &&& new.finished == self.finished
        &&& new.is_changed == self.is_changed
        &&& new.history_idx == self.history_idx
        &&& new.saved_draft == self.saved_draft
    }

    /// Applies a cursor movement.
    fn move_cursor(&mut self, a: EditAction)
        requires
            old(self).wf(),
            a is Top || a is Bottom || a is Home || a is End || a is Left || a is Right || a is Up || a is Down,
        ensures
            old(self).edited_to(&*final(self), a),
    {
        let ghost st = self.edit_state();
        let line = self.cursor_line;
        let col = self.cursor_col;
        let n = self.lines.len();
        assert(st.lines.len() == n);
        assert(st.lines[line as int] == self.lines@[line as int]@);
        match a {
            EditAction::Top => {
                if self.multiline {
                    self.cursor_line = 0;
                    assert(st.lines[0] == self.lines@[0]@);
                    let l0 = self.lines[0].len();
                    if l0 < col {
                        self.cursor_col = l0;
                    }
                }
            },
            EditAction::Bottom => {
                if self.multiline {
                    let last = n - 1;
                    self.cursor_line = last;
                    assert(st.lines.last() == self.lines@[last as int]@);
                    let ll = self.lines[last].len();
                    if ll < col {
                        self.cursor_col = ll;
                    }
                }
            },
            EditAction::Home => {
                self.cursor_col = 0;
            },
            EditAction::End => {
                self.cursor_col = self.lines[line].len();
            },
            EditAction::Left => {
                if col > 0 {
                    self.cursor_col = col - 1;
                } else if self.multiline && line > 0 {
                    self.cursor_line = line - 1;
                    assert(st.lines[line - 1] == self.lines@[line - 1]@);
                    self.cursor_col = self.lines[line - 1].len();
                }
            },
            EditAction::Right => {
                let len = self.lines[line].len();
                if col < len {
                    self.cursor_col = col + 1;
                } else if self.multiline && line < n - 1 {
                    self.cursor_line = line + 1;
                    self.cursor_col = 0;
                }
            },
            EditAction::Up => {
                if self.multiline && line > 0 {
                    self.cursor_line = line - 1;
                    assert(st.lines[line - 1] == self.lines@[line - 1]@);
                    let l = self.lines[line - 1].len();
                    if l < col {
                        self.cursor_col = l;
                    }
                }
            },
            _ => {
                if self.multiline && line < n - 1 {
                    self.cursor_line = line + 1;
                    assert(st.lines[line + 1] == self.lines@[line + 1]@);
                    let l = self.lines[line + 1].len();
                    if l < col {
                        self.cursor_col = l;
                    }
                }
            },
        }
    }

    /// Deletes before the cursor, joining with the previous line at the start of a line.
    fn backspace(&mut self)
        requires
            old(self).wf(),
        ensures
            old(self).edited_to(&*final(self), EditAction::Backspace),
    {
        let ghost st = self.edit_state();
        let line = self.cursor_line;
        let col = self.cursor_col;
        assert(st.lines[line as int] == self.lines@[line as int]@);
        if col > 0 {
            let mut cur = self.lines[line].clone();
            assert(cur@ == st.lines[line as int]);
            cur.remove(col - 1);
            self.set_line(line, cur);
            self.cursor_col = col - 1;
        } else if self.multiline && line > 0 {
            let ghost before = self.lines@;
            let current = self.lines.remove(line);
            assert(cviews(self.lines@) =~= cviews(before).remove(line as int));
            let mut prev = self.lines[line - 1].clone();
            let prev_len = prev.len();
            assert(prev@ == st.lines[line - 1]);
            crate::text::extend_chars(&mut prev, current.as_slice());
            self.set_line(line - 1, prev);
            assert(cviews(self.lines@) =~= st.lines.update(line - 1, st.lines[line - 1] + st.lines[line as int]).remove(
                line as int,
            ));
            self.cursor_line = line - 1;
            self.cursor_col = prev_len;
        }
    }

    /// Deletes at the cursor, joining with the next line at the end of a line.
    fn delete(&mut self)
        requires
            old(self).wf(),
        ensures
            old(self).edited_to(&*final(self), EditAction::Delete),
    {
        let ghost st = self.edit_state();
        let line = self.cursor_line;
        let col = self.cursor_col;
        let n = self.lines.len();
        assert(st.lines.len() == n);
        assert(st.lines[line as int] == self.lines@[line as int]@);
        let len = self.lines[line].len();
        if col < len {
            let mut cur = self.lines[line].clone();
            assert(cur@ == st.lines[line as int]);
            cur.remove(col);
            self.set_line(line, cur);
        } else if self.multiline && line < n - 1 {
            let ghost before = self.lines@;
            let next = self.lines.remove(line + 1);
            assert(cviews(self.lines@) =~= cviews(before).remove(line + 1));
            let mut cur = self.lines[line].clone();
            assert(cur@ == st.lines[line as int]);
            crate::text::extend_chars(&mut cur, next.as_slice());
            self.set_line(line, cur);
            assert(cviews(self.lines@) =~= st.lines.update(line as int, st.lines[line as int] + st.lines[line + 1]).remove(
                line + 1,
            ));
        }
    }

    /// Deletes the word before the cursor.
    fn delete_word(&mut self)
        requires
            old(self).wf(),
        ensures
            old(self).edited_to(&*final(self), EditAction::DeleteWord),
    {
        let ghost st = self.edit_state();
        let line = self.cursor_line;
        let col = self.cursor_col;
        assert(st.lines[line as int] == self.lines@[line as int]@);
        if col > 0 {
            let cur = self.lines[line].clone();
            assert(cur@ == st.lines[line as int]);
            let w = word_start_exec(&cur, col);
            let mut left = crate::ansi::slice_vec(&cur, 0, w);
            let right = crate::ansi::slice_vec(&cur, col, cur.len());
            crate::text::extend_chars(&mut left, right.as_slice());
            assert(left@ =~= cur@.take(w as int) + cur@.skip(col as int));
            self.set_line(line, left);
            self.cursor_col = w;
        }
    }

    /// Splits the line at the cursor (multi-line mode only).
    fn newline(&mut self)
        requires
            old(self).wf(),
        ensures
            old(self).edited_to(&*final(self), EditAction::Newline),
    {
        let ghost st = self.edit_state();
        let line = self.cursor_line;
        let col = self.cursor_col;
        let n = self.lines.len();
        assert(st.lines.len() == n);
        assert(st.lines[line as int] == self.lines@[line as int]@);
        if self.multiline {
            let cur = self.lines[line].clone();
            assert(cur@ == st.lines[line as int]);
            let left = crate::ansi::slice_vec(&cur, 0, col);
            let right = crate::ansi::slice_vec(&cur, col, cur.len());
            assert(left@ =~= cur@.take(col as int));
            assert(right@ =~= cur@.skip(col as int));
            self.set_line(line, left);
            let ghost before = self.lines@;
            self.lines.insert(line + 1, right);
            assert(cviews(self.lines@) =~= cviews(before).insert(line + 1, right@));
            self.cursor_line = line + 1;
            self.cursor_col = 0;
        }
    }

    /// Types `c` at the cursor.
    fn insert_char(&mut self, c: char)
        requires
            old(self).wf(),
        ensures
            old(self).edited_to(&*final(self), EditAction::Insert(c)),
    {
        let ghost st = self.edit_state();
        let line = self.cursor_line;
        let col = self.cursor_col;
        assert(st.lines[line as int] == self.lines@[line as int]@);
        let mut cur = self.lines[line].clone();
        assert(cur@ == st.lines[line as int]);
        cur.insert(col, c);
        let n = cur.len();
        self.set_line(line, cur);
        self.cursor_col = col + 1;
    }

    /// Applies an editing action to the text and the cursor.
    fn apply_edit(&mut self, a: EditAction)
        requires
            old(self).wf(),
        ensures
            old(self).edited_to(&*final(self), a),
    {
        match a {
            EditAction::Backspace => self.backspace(),
            EditAction::Delete => self.delete(),
            EditAction::DeleteWord => self.delete_word(),
            EditAction::Newline => self.newline(),
            EditAction::Insert(c) => self.insert_char(c),
            EditAction::Submit => {},
            EditAction::Ignore => {},
            _ => self.move_cursor(a),
        }
    }
}

/// Where deleting the word before column `col` of `s` starts.
fn word_start_exec(s: &Vec<char>, col: usize) -> (r: usize)
    requires
        col <= s@.len(),
    ensures
        r == word_start(s@, col as int),
        r <= col,
{
    let mut i = col;
    while i > 0 && is_whitespace(s[i - 1])
        invariant
            i <= col <= s@.len(),
            skip_back(s@, col as int, true) == skip_back(s@, i as int, true),
        decreases i,
    {
        i -= 1;
    }
    let mid = i;
    while i > 0 && !is_whitespace(s[i - 1])
        invariant
            i <= mid <= col <= s@.len(),
            mid == skip_back(s@, col as int, true),
            skip_back(s@, mid as int, false) == skip_back(s@, i as int, false),
        decreases i,
    {
        i -= 1;
    }
    i
}

} // verus!

verus! {

/// The history position cannot run past the end of the history.
pub open spec fn history_fits(idx: Option<usize>, len: nat) -> bool {
    idx matches Some(i) ==> i <= len
}

/// Whether a key moves through the history rather than the text: a history
/// buffer is in use and not empty, the key moves up or down, and in
/// multi-line mode the cursor is on the first line (up) or the last (down).
pub open spec fn navigates(inp: &Input, k: KeyPress, hist_len: nat) -> bool {
    &&& inp.buffer_id is Some
    &&& is_up(k) || is_down(k)
    &&& hist_len > 0
    &&& if inp.multiline {
        (is_up(k) && inp.cursor_line == 0) || (is_down(k) && inp.cursor_line == inp.lines@.len() - 1)
    } else {
        true
    }
}

/// History position, saved draft and lines after moving through the history.
pub struct NavResult {
    pub idx: Option<usize>,
    pub draft: Seq<char>,
    pub lines: Seq<Seq<char>>,
}

/// Moving up shows the previous entry (the newest one, keeping the text as a
/// draft, when navigation starts); moving down shows the next entry, or the
/// draft again after the newest one.
pub open spec fn nav_result(inp: &Input, up: bool, hist: Seq<Seq<char>>) -> NavResult {
    let lines = cviews(inp.lines@);
    let draft = inp.saved_draft@;
    if up {
        match inp.history_idx {
            None => NavResult {
                idx: Some((hist.len() - 1) as usize),
                draft: join_with(lines, '\n'),
                lines: seq![hist[hist.len() - 1]],
            },
            Some(i) => if i > 0 {
                NavResult { idx: Some((i - 1) as usize), draft, lines: seq![hist[i - 1]] }
            } else {
                NavResult { idx: inp.history_idx, draft, lines }
            },
        }
    } else {
        match inp.history_idx {
            Some(i) => if i + 1 < hist.len() {
                NavResult { idx: Some((i + 1) as usize), draft, lines: seq![hist[i + 1]] }
            } else {
                NavResult { idx: None, draft, lines: split_on(draft, '\n') }
            },
            None => NavResult { idx: None, draft, lines },
        }
    }
}

/// Whether a key counts as manual editing, which ends history navigation.
pub open spec fn resets_history(k: KeyPress) -> bool {
    is_backspace(k) || is_delete(k) || ctrl_char(k, 'w') || k.code is Char
}

/// The effect of a key press: submitting marks the field finished; a key
/// that navigates the history replaces the text and puts the cursor at its
/// end; any other key applies its editing action.  Every key marks the field
/// changed.
pub open spec fn after_key(old: &Input, new: &Input, k: KeyPress, hist: Seq<Seq<char>>) -> bool {
    let a = action_of(k, old.multiline);
    &&& old.same_settings(new)
    &&& new.is_changed
    &&& if a is Submit {
        &&& new.finished
        &&& new.edit_state() == old.edit_state()
        &&& new.history_idx == old.history_idx
        &&& new.saved_draft@ == old.saved_draft@
    } else if navigates(old, k, hist.len()) {
        let nr = nav_result(old, is_up(k), hist);
        &&& new.finished == old.finished
        &&& new.history_idx == nr.idx
        &&& new.saved_draft@ == nr.draft
        &&& new.edit_state() == (EditState {
            lines: nr.lines,
            line: nr.lines.len() - 1,
            col: nr.lines.last().len() as int,
        })
    } else {
        &&& new.finished == old.finished
        &&& new.edit_state() == edit(old.edit_state(), a, old.multiline)
        &&& new.history_idx == (if resets_history(k) { None } else { old.history_idx })
        &&& new.saved_draft@ == old.saved_draft@
    }
}

/// The history after submitting: when a buffer is in use and the trimmed
/// text starts with `/` and differs from the newest entry, it is appended and
/// the oldest entries beyond a positive limit are dropped.
pub open spec fn saved_history(inp: &Input, hist: Seq<Seq<char>>) -> Option<Seq<Seq<char>>> {
    let t = trim_spec(join_with(cviews(inp.lines@), '\n'));
    if inp.buffer_id is Some && t.len() > 0 && t[0] == '/' && (hist.len() == 0 || hist.last() != t) {
        let h = hist.push(t);
        match inp.buffer_limit {
            Some(l) => if l > 0 && h.len() > l {
                Some(h.skip(h.len() - l))
            } else {
                Some(h)
            },
            None => Some(h),
        }
    } else {
        None
    }
}

fn chars_eq_local(a: &Vec<char>, b: &Vec<char>) -> (r: bool)
    ensures
        r == (a@ == b@),
{
    if a.len() != b.len() {
        return false;
    }
    let mut i: usize = 0;
    while i < a.len()
        invariant
            i <= a@.len() == b@.len(),
            forall|t: int| 0 <= t < i ==> a@[t] == b@[t],
        decreases a.len() - i,
    {
        if a[i] != b[i] {
            return false;
        }
        i += 1;
    }
    assert(a@ =~= b@);
    true
}

/// Strings of the entries `from..` of `h`.
fn strings_from(h: &Vec<Vec<char>>, from: usize) -> (r: Vec<String>)
    requires
        from <= h@.len(),
    ensures
        views(r@) == cviews(h@).skip(from as int),
{
    let mut r: Vec<String> = Vec::new();
    let mut i = from;
    while i < h.len()
        invariant
            from <= i <= h@.len(),
            views(r@) == cviews(h@).subrange(from as int, i as int),
        decreases h.len() - i,
    {
        let ghost before = r@;
        let s = string_of(h[i].as_slice());
        assert(cviews(h@)[i as int] == s@);
        r.push(s);
        assert(views(r@).drop_last() =~= views(before));
        assert(cviews(h@).subrange(from as int, i + 1).drop_last() =~= cviews(h@).subrange(from as int, i as int));
        assert(views(r@) =~= cviews(h@).subrange(from as int, i + 1));
        i += 1;
    }
    r
}

impl Input {
    /// The history after submitting (see `saved_history`), or `None` when it stays as it is.
    pub fn saved_history_exec(&self, history: &[String]) -> (r: Option<Vec<String>>)
        ensures
            match r {
                Some(h) => saved_history(self, views(history@)) == Some(views(h@)),
                None => saved_history(self, views(history@)) is None,
            },
    {
        let ghost hv = views(history@);
        if self.buffer_id.is_none() {
            return None;
        }
        let full = join_with_exec(&self.lines, '\n');
        let t = trim_exec(full.as_slice());
        if t.len() == 0 || t[0] != '/' {
            return None;
        }
        let n = history.len();
        if n > 0 {
            let last = chars_of(history[n - 1].as_str());
            assert(hv.last() == last@);
            if chars_eq_local(&last, &t) {
                return None;
            }
        }
        let mut h: Vec<Vec<char>> = Vec::new();
        let mut i: usize = 0;
        while i < n
            invariant
                i <= n == history@.len(),
                hv == views(history@),
                cviews(h@) == hv.take(i as int),
            decreases n - i,
        {
            let ghost before = h@;
            let e = chars_of(history[i].as_str());
            assert(hv[i as int] == e@);
            h.push(e);
            assert(cviews(h@).drop_last() =~= cviews(before));
            assert(hv.take(i + 1).drop_last() =~= hv.take(i as int));
            assert(cviews(h@) =~= hv.take(i + 1));
            i += 1;
        }
        let ghost before = h@;
        h.push(t);
        assert(cviews(h@) =~= hv.push(t@)) by {
            assert(hv.take(n as int) =~= hv);
        }
        let len = h.len();
        let from = match self.buffer_limit {
            Some(l) => if l > 0 && len > l {
                len - l
            } else {
                0
            },
            None => 0,
        };
        assert(cviews(h@).skip(0) =~= cviews(h@));
        Some(strings_from(&h, from))
    }

    /// Handles a key press (see `after_key`).  `history` holds the entries of
    /// the history buffer in use, oldest first; the result is the history to
    /// store after a submit, or `None` when it stays as it is.
    pub fn handle_key(&mut self, key: &KeyPress, history: &[String]) -> (r: Option<Vec<String>>)
        requires
            old(self).wf(),
            history_fits(old(self).history_idx, history@.len()),
        ensures
            final(self).wf(),
            history_fits(final(self).history_idx, history@.len()),
            after_key(&*old(self), &*final(self), *key, views(history@)),
            match r {
                Some(h) => action_of(*key, old(self).multiline) is Submit && saved_history(&*old(self), views(history@))
                    == Some(views(h@)),
                None => !(action_of(*key, old(self).multiline) is Submit) || saved_history(&*old(self), views(history@)) is None,
            },
    {
        let ghost hv = views(history@);
        let ghost st = self.edit_state();
        let a = classify_key(key, self.multiline);
        if let EditAction::Submit = a {
            let r = self.saved_history_exec(history);
            self.finished = true;
            self.is_changed = true;
            return r;
        }
        self.is_changed = true;
        let up = code_is(key.code, KeyCode::Up) || ctrl_char_exec(key, 'p') || alt_combo_exec(key, 'k', 'K', false);
        let down = code_is(key.code, KeyCode::Down) || ctrl_char_exec(key, 'n') || alt_combo_exec(key, 'j', 'J', false);
        let n = self.lines.len();
        if self.buffer_id.is_some() && (up || down) && history.len() > 0 {
            let can = if self.multiline {
                (up && self.cursor_line == 0) || (down && self.cursor_line == n - 1)
            } else {
                true
            };
            if can {
                self.navigate(up, history);
                return None;
            }
        }
        let reset = code_is(key.code, KeyCode::Backspace) || ctrl_char_exec(key, 'h') || code_is(key.code, KeyCode::Delete)
            || ctrl_char_exec(key, 'd') || ctrl_char_exec(key, 'w') || match key.code {
            KeyCode::Char(_) => true,
            _ => false,
        };
        if reset {
            self.history_idx = None;
        }
        self.apply_edit(a);
        proof {
            lemma_edit_wf(st, a, self.multiline);
        }
        None
    }

    /// Moves through the history (see `nav_result`) and puts the cursor at the end of the text.
    fn navigate(&mut self, up: bool, history: &[String])
        requires
            old(self).wf(),
            history@.len() > 0,
            history_fits(old(self).history_idx, history@.len()),
        ensures
            final(self).wf(),
            history_fits(final(self).history_idx, history@.len()),
            old(self).same_settings(&*final(self)),
            final(self).finished == old(self).finished,
            final(self).is_changed == old(self).is_changed,
            ({
                let nr = nav_result(&*old(self), up, views(history@));
                &&& final(self).history_idx == nr.idx
                &&& final(self).saved_draft@ == nr.draft
                &&& final(self).edit_state() == (EditState {
                    lines: nr.lines,
                    line: nr.lines.len() - 1,
                    col: nr.lines.last().len() as int,
                })
            }),
    {
        let ghost hv = views(history@);
        let ghost nr = nav_result(&*self, up, hv);
        let n = history.len();
        if up {
            match self.history_idx {
                None => {
                    self.saved_draft = join_with_exec(&self.lines, '\n');
                    self.history_idx = Some(n - 1);
                    self.lines = vec![chars_of(history[n - 1].as_str())];
                },
                Some(i) => {
                    if i > 0 {
                        self.history_idx = Some(i - 1);
                        self.lines = vec![chars_of(history[i - 1].as_str())];
                    }
                },
            }
        } else {
            match self.history_idx {
                Some(i) => {
                    if i < n - 1 {
                        self.history_idx = Some(i + 1);
                        self.lines = vec![chars_of(history[i + 1].as_str())];
                    } else {
                        self.history_idx = None;
                        proof {
                            crate::text::lemma_split_on_nonempty(self.saved_draft@, '\n');
                        }
                        self.lines = split_chars(self.saved_draft.as_slice(), '\n');
                    }
                },
                None => {},
            }
        }
        assert(cviews(self.lines@) =~= nr.lines);
        let last = self.lines.len() - 1;
        self.cursor_line = last;
        assert(nr.lines.last() == self.lines@[last as int]@);
        self.cursor_col = self.lines[last].len();
    }
}

/// Inserting a character and deleting it again leaves the text and cursor as they were.
pub proof fn law_insert_then_backspace(st: EditState, c: char, multiline: bool)
    requires
        state_wf(st),
    ensures
        edit(edit(st, EditAction::Insert(c), multiline), EditAction::Backspace, multiline) == st,
{
    let mid = edit(st, EditAction::Insert(c), multiline);
    let cur = st.lines[st.line];
    assert(mid.lines[st.line] == cur.insert(st.col, c));
    assert(cur.insert(st.col, c).remove(st.col) =~= cur);
    assert(mid.lines.update(st.line, cur) =~= st.lines);
}

/// In multi-line mode, splitting a line and deleting backwards at the start
/// of the new line leaves the text and cursor as they were.
pub proof fn law_newline_then_backspace(st: EditState)
    requires
        state_wf(st),
    ensures
        edit(edit(st, EditAction::Newline, true), EditAction::Backspace, true) == st,
{
    let mid = edit(st, EditAction::Newline, true);
    let cur = st.lines[st.line];
    assert(mid.lines[st.line] == cur.take(st.col));
    assert(mid.lines[st.line + 1] == cur.skip(st.col));
    assert(cur.take(st.col) + cur.skip(st.col) =~= cur);
    assert(mid.lines.update(st.line, cur).remove(st.line + 1) =~= st.lines);
}

/// Alt with `h`, `j`, `k` or `l` (no other modifier).
pub open spec fn vim_key(c: char) -> KeyPress {
    KeyPress { code: KeyCode::Char(c), ctrl: false, alt: true, shift: false }
}

/// The arrow key that Alt with `h`, `j`, `k`, `l` stands for: left, down, up, right.
pub open spec fn vim_arrow(c: char) -> KeyPress {
    KeyPress {
        code: if c == 'h' { KeyCode::Left } else if c == 'j' { KeyCode::Down } else if c == 'k' { KeyCode::Up } else { KeyCode::Right },
        ctrl: false,
        alt: false,
        shift: false,
    }
}

/// Vim navigation: Alt+h, Alt+j, Alt+k and Alt+l leave the text, the cursor
/// and whether the field is finished exactly as Left, Down, Up and Right do
/// from the same field.
pub proof fn law_vim_navigation(old: &Input, a: &Input, b: &Input, c: char, hist: Seq<Seq<char>>)
    requires
        c == 'h' || c == 'j' || c == 'k' || c == 'l',
        after_key(old, a, vim_key(c), hist),
        after_key(old, b, vim_arrow(c), hist),
    ensures
        a.edit_state() == b.edit_state(),
        a.finished == b.finished,
{
}

/// Moving left from inside a line and then right returns to the same place.
pub proof fn law_left_then_right(st: EditState, multiline: bool)
    requires
        state_wf(st),
        st.col > 0,
    ensures
        edit(edit(st, EditAction::Left, multiline), EditAction::Right, multiline) == st,
{
}

/// A history saved on submit ends with the submitted text, its last two
/// entries differ, and with a positive limit it holds at most that many.
pub proof fn law_saved_history_bounded(inp: &Input, hist: Seq<Seq<char>>)
    ensures
        match saved_history(inp, hist) {
            Some(h) => {
                &&& h.len() >= 1
                &&& h.last() == trim_spec(join_with(cviews(inp.lines@), '\n'))
                &&& h.len() >= 2 ==> h[h.len() - 2] != h.last()
                &&& match inp.buffer_limit {
                    Some(l) => l > 0 ==> h.len() <= l,
                    None => true,
                }
            },
            None => true,
        },
{
    let t = trim_spec(join_with(cviews(inp.lines@), '\n'));
    if inp.buffer_id is Some && t.len() > 0 && t[0] == '/' && (hist.len() == 0 || hist.last() != t) {
        let h = hist.push(t);
        match inp.buffer_limit {
            Some(l) => if l > 0 && h.len() > l {
                let g = h.skip(h.len() - l);
                assert(g.last() == h.last());
                if g.len() >= 2 {
                    assert(g[g.len() - 2] == h[h.len() - 2]);
                }
            },
            None => {},
        }
    }
}

/// Home then End puts the cursor at the end of its line, the text unchanged.
pub proof fn law_home_end(st: EditState, multiline: bool)
    requires
        state_wf(st),
    ensures
        edit(edit(st, EditAction::Home, multiline), EditAction::End, multiline) == (EditState {
            col: st.lines[st.line].len() as int,
            ..st
        }),
{
}

} // verus!

verus! {

/// Columns a character takes when clipping: control characters take none.
pub open spec fn columns(c: char) -> int {
    match char_columns(c) {
        Some(w) => w as int,
        None => 0,
    }
}

/// Length of the longest prefix of `s` from `i` whose columns, added to `w`,
/// stay within `max` (stopping at the first character that does not fit).
pub open spec fn clip_len(s: Seq<char>, max: int, i: int, w: int) -> int
    decreases s.len() - i,
{
    if i < 0 || i >= s.len() || w + columns(s[i]) > max {
        i
    } else {
        clip_len(s, max, i + 1, w + columns(s[i]))
    }
}

/// `s` cut to fit within `max` columns.
pub open spec fn clip_spec(s: Seq<char>, max: int) -> Seq<char> {
    s.take(clip_len(s, max, 0, 0))
}

proof fn lemma_clip_len(s: Seq<char>, max: int, i: int, w: int)
    requires
        0 <= i <= s.len(),
    ensures
        i <= clip_len(s, max, i, w) <= s.len(),
    decreases s.len() - i,
{
    if i < s.len() && w + columns(s[i]) <= max {
        lemma_clip_len(s, max, i + 1, w + columns(s[i]));
    }
}

/// Cuts `s` to fit within `max_width` columns.
pub fn clip_to_width(s: &[char], max_width: usize) -> (r: Vec<char>)
    ensures
        r@ == clip_spec(s@, max_width as int),
{
    let mut w: usize = 0;
    let mut i: usize = 0;
    while i < s.len()
        invariant
            i <= s@.len(),
            w <= max_width,
            clip_len(s@, max_width as int, 0, 0) == clip_len(s@, max_width as int, i as int, w as int),
        ensures
            i <= s@.len(),
            clip_len(s@, max_width as int, 0, 0) == i,
        decreases s.len() - i,
    {
        let cw = match char_width(s[i]) {
            Some(x) => x,
            None => 0,
        };
        if cw > max_width - w {
            break;
        }
        w = w + cw;
        i += 1;
    }
    let mut r: Vec<char> = Vec::new();
    let mut j: usize = 0;
    while j < i
        invariant
            j <= i <= s@.len(),
            r@ == s@.take(j as int),
        decreases i - j,
    {
        r.push(s[j]);
        assert(r@ =~= s@.take(j + 1));
        j += 1;
    }
    r
}

/// First visible line and column after scrolling so that the cursor is in
/// view: vertically within `max_height` rows (none when everything fits),
/// horizontally within `width` columns and never past the end of the line.
pub open spec fn scroll_spec(inp: &Input, width: int) -> (int, int) {
    let line = inp.cursor_line as int;
    let col = inp.cursor_col as int;
    let maxh = inp.max_height as int;
    let total = inp.lines@.len() as int;
    let v0 = inp.v_scroll as int;
    let v1 = if line < v0 {
        line
    } else if line >= maxh {
        line - maxh + 1
    } else {
        v0
    };
    let v = if total <= maxh {
        0
    } else if v1 + maxh > total {
        total - maxh
    } else {
        v1
    };
    let len = inp.lines@[line]@.len() as int;
    let h0 = inp.h_scroll as int;
    let h = if width > 0 {
        let h1 = if col < h0 {
            col
        } else if col >= h0 + width {
            col - width + 1
        } else {
            h0
        };
        if len > width {
            if h1 > len - width { len - width } else { h1 }
        } else {
            0
        }
    } else {
        0
    };
    (v, h)
}

/// Rows shown: the line count kept between the minimum and maximum height in
/// multi-line mode, one row otherwise.
pub open spec fn visible_height(inp: &Input) -> int {
    if inp.multiline {
        let n = inp.lines@.len() as int;
        if n < inp.min_height { inp.min_height as int } else if n > inp.max_height { inp.max_height as int } else { n }
    } else {
        1
    }
}

/// The text shown for line `idx`: the placeholder when the whole field is
/// empty, asterisks in secret mode, the line otherwise; scrolled by `h`
/// characters and clipped to `width` columns.
pub open spec fn row_text(inp: &Input, idx: int, h: int, width: int) -> Seq<char> {
    let line = inp.lines@[idx]@;
    let empty = inp.lines@.len() == 1 && inp.lines@[0]@.len() == 0;
    let shown = if empty && idx == 0 {
        match inp.placeholder {
            Some(p) => p@,
            None => Seq::empty(),
        }
    } else if inp.secret {
        Seq::new(line.len(), |i: int| '*')
    } else {
        line
    };
    let start = if h < shown.len() { h } else { shown.len() as int };
    clip_spec(shown.skip(start), width)
}

impl Input {
    /// An empty single-line field: one empty line, the cursor at its start,
    /// one to five rows in multi-line mode, no history buffer.
    pub fn new() -> (r: Input)
        ensures
            r.wf(),
            r.edit_state() == (EditState { lines: seq![Seq::<char>::empty()], line: 0, col: 0 }),
            r.default is None,
            r.placeholder is None,
            !r.secret,
            !r.multiline,
            r.min_height == 1,
            r.max_height == 5,
            r.h_scroll == 0,
            r.v_scroll == 0,
            !r.finished,
            r.is_changed,
            r.buffer_id is None,
            r.buffer_limit is None,
            r.history_idx is None,
            r.saved_draft@.len() == 0,
    {
        let lines: Vec<Vec<char>> = vec![Vec::new()];
        assert(cviews(lines@) =~= seq![Seq::<char>::empty()]);
        Input {
            default: None,
            placeholder: None,
            secret: false,
            multiline: false,
            min_height: 1,
            max_height: 5,
            lines,
            cursor_line: 0,
            cursor_col: 0,
            h_scroll: 0,
            v_scroll: 0,
            finished: false,
            is_changed: true,
            buffer_id: None,
            buffer_limit: None,
            history_idx: None,
            saved_draft: Vec::new(),
        }
    }

    /// Sets the value returned when the field is submitted blank.
    pub fn default_val(self, val: &str) -> (r: Input)
        ensures
            r.default matches Some(d) && d@ == val@,
            r == (Input { default: r.default, ..self }),
    {
        let mut r = self;
        r.default = Some(string_of(chars_of(val).as_slice()));
        r
    }

    /// Sets the text shown while the field is empty.
    pub fn placeholder(self, text: &str) -> (r: Input)
        ensures
            r.placeholder matches Some(p) && p@ == text@,
            r == (Input { placeholder: r.placeholder, ..self }),
    {
        let mut r = self;
        r.placeholder = Some(string_of(chars_of(text).as_slice()));
        r
    }

    /// Turns secret mode (asterisks in place of characters) on or off.
    pub fn secret(self, enabled: bool) -> (r: Input)
        ensures
            r == (Input { secret: enabled, ..self }),
    {
        let mut r = self;
        r.secret = enabled;
        r
    }

    /// Turns multi-line mode on or off.
    pub fn multiline(self, enabled: bool) -> (r: Input)
        ensures
            r == (Input { multiline: enabled, ..self }),
    {
        let mut r = self;
        r.multiline = enabled;
        r
    }

    /// Uses the history buffer `id`, keeping at most `limit` entries when given.
    pub fn use_buffer(self, id: u64, limit: Option<usize>) -> (r: Input)
        ensures
            r == (Input { buffer_id: Some(id), buffer_limit: limit, ..self }),
    {
        let mut r = self;
        r.buffer_id = Some(id);
        r.buffer_limit = limit;
        r
    }

    /// The submitted value: the text with surrounding whitespace removed, or
    /// the default value (empty when there is none) when that is empty.
    pub fn extract_output(self) -> (r: String)
        ensures
            r@ == (if trim_spec(join_with(cviews(self.lines@), '\n')).len() == 0 {
                match self.default {
                    Some(d) => d@,
                    None => Seq::empty(),
                }
            } else {
                trim_spec(join_with(cviews(self.lines@), '\n'))
            }),
    {
        let full = join_with_exec(&self.lines, '\n');
        let t = trim_exec(full.as_slice());
        if t.len() == 0 {
            match self.default {
                Some(d) => d,
                None => String::new(),
            }
        } else {
            string_of(t.as_slice())
        }
    }

    /// Whether the field was submitted.
    pub fn is_finished(&self) -> (r: bool)
        ensures
            r == self.finished,
    {
        self.finished
    }

    /// Line of the cursor relative to the first visible line.
    pub fn cursor_rel_y(&self) -> (r: usize)
        ensures
            r == (if self.cursor_line >= self.v_scroll { self.cursor_line - self.v_scroll } else { 0 }),
    {
        if self.cursor_line >= self.v_scroll {
            self.cursor_line - self.v_scroll
        } else {
            0
        }
    }

    /// Column of the cursor relative to the first visible column, measured in
    /// display columns of the characters in between.
    pub fn cursor_rel_x(&self) -> (r: usize)
        requires
            self.wf(),
        ensures
            r == (if self.cursor_col <= self.h_scroll {
                0
            } else {
                display_width(self.lines@[self.cursor_line as int]@.subrange(self.h_scroll as int, self.cursor_col as int))
            }),
    {
        let h = self.h_scroll;
        let col = self.cursor_col;
        if col <= h {
            return 0;
        }
        let ghost st = self.edit_state();
        assert(st.lines[self.cursor_line as int] == self.lines@[self.cursor_line as int]@);
        let part = crate::ansi::slice_vec(&self.lines[self.cursor_line], h, col);
        let text = string_of(part.as_slice());
        str_width(text.as_str())
    }

    /// Scrolls so that the cursor is in view (see `scroll_spec`).
    pub fn adjust_scroll(&mut self, width: usize)
        requires
            old(self).wf(),
        ensures
            final(self).edit_state() == old(self).edit_state(),
            final(self).lines == old(self).lines,
            (final(self).v_scroll as int, final(self).h_scroll as int) == scroll_spec(&*old(self), width as int),
            final(self).v_scroll <= final(self).lines@.len(),
            final(self).max_height == old(self).max_height,
            final(self).min_height == old(self).min_height,
            final(self).multiline == old(self).multiline,
            final(self).secret == old(self).secret,
            final(self).placeholder == old(self).placeholder,
    {
        let ghost st = self.edit_state();
        let line = self.cursor_line;
        let col = self.cursor_col;
        let maxh = self.max_height;
        let total = self.lines.len();
        let mut v = self.v_scroll;
        if line < v {
            v = line;
        } else if line >= maxh {
            v = line - maxh + 1;
        }
        if total <= maxh {
            v = 0;
        } else if v > total - maxh {
            v = total - maxh;
        }
        self.v_scroll = v;
        assert(st.lines[line as int] == self.lines@[line as int]@);
        let len = self.lines[line].len();
        let mut h = self.h_scroll;
        if width > 0 {
            if col < h {
                h = col;
            } else if col - h >= width {
                h = col - width + 1;
            }
            if len > width {
                if h > len - width {
                    h = len - width;
                }
            } else {
                h = 0;
            }
        } else {
            h = 0;
        }
        self.h_scroll = h;
    }

    /// The rows shown for a width of `width` columns, after scrolling the
    /// cursor into view; marks the field as drawn.
    pub fn render_content(&mut self, width: usize) -> (r: Vec<String>)
        requires
            old(self).wf(),
            old(self).multiline ==> old(self).min_height <= old(self).max_height,
        ensures
            final(self).edit_state() == old(self).edit_state(),
            !final(self).is_changed,
            (final(self).v_scroll as int, final(self).h_scroll as int) == scroll_spec(&*old(self), width as int),
            views(r@) == Seq::new(
                (if visible_height(&*old(self)) <= old(self).lines@.len() - final(self).v_scroll {
                    visible_height(&*old(self))
                } else {
                    old(self).lines@.len() - final(self).v_scroll
                }) as nat,
                |row: int| row_text(&*old(self), final(self).v_scroll + row, final(self).h_scroll as int, width as int),
            ),
    {
        self.adjust_scroll(width);
        let n = self.lines.len();
        let height = if self.multiline {
            if n < self.min_height {
                self.min_height
            } else if n > self.max_height {
                self.max_height
            } else {
                n
            }
        } else {
            1
        };
        let v = self.v_scroll;
        let h = self.h_scroll;
        let count = if height <= n - v { height } else { n - v };
        let empty = n == 1 && self.lines[0].len() == 0;
        let ghost inp = *self;
        let mut r: Vec<String> = Vec::new();
        let mut row: usize = 0;
        while row < count
            invariant
                inp == *self,
                row <= count,
                v == self.v_scroll,
                h == self.h_scroll,
                n == self.lines@.len(),
                count <= n - v,
                empty == (n == 1 && self.lines@[0]@.len() == 0),
                views(r@) == Seq::new(row as nat, |k: int| row_text(&inp, v + k, h as int, width as int)),
            decreases count - row,
        {
            let idx = v + row;
            let text = self.row_chars(idx, empty, h, width);
            let ghost before = r@;
            let t = string_of(text.as_slice());
            assert(t@ == row_text(&inp, v + row, h as int, width as int));
            r.push(t);
            assert(views(r@).drop_last() =~= views(before));
            assert(views(r@)[row as int] == t@);
            assert forall|k: int| 0 <= k < row + 1 implies #[trigger] views(r@)[k] == row_text(&inp, v + k, h as int, width as int) by {
                if k < row {
                    assert(views(r@)[k] == views(before)[k]);
                }
            }
            assert(views(r@) =~= Seq::new((row + 1) as nat, |k: int| row_text(&inp, v + k, h as int, width as int)));
            row += 1;
        }
        self.is_changed = false;
        r
    }

    fn row_chars(&self, idx: usize, empty: bool, h: usize, width: usize) -> (r: Vec<char>)
        requires
            idx < self.lines@.len(),
            empty == (self.lines@.len() == 1 && self.lines@[0]@.len() == 0),
        ensures
            r@ == row_text(self, idx as int, h as int, width as int),
    {
        let line = &self.lines[idx];
        let shown: Vec<char> = if empty && idx == 0 {
            match &self.placeholder {
                Some(p) => chars_of(p.as_str()),
                None => Vec::new(),
            }
        } else if self.secret {
            let stars = crate::text::repeat_char_exec('*', line.len());
            assert(stars@ =~= Seq::new(line@.len(), |i: int| '*'));
            stars
        } else {
            line.clone()
        };
        let start = if h < shown.len() { h } else { shown.len() };
        let rest = crate::ansi::slice_vec(&shown, start, shown.len());
        assert(rest@ =~= shown@.skip(start as int));
        clip_to_width(rest.as_slice(), width)
    }
}


/// Moving up or down a line in a multi-line field keeps the column, clamped
/// to the length of the line reached; so from a column that both lines
/// have, going up and then down (or down and then up) returns to the start.
pub proof fn law_vertical_move_keeps_column(st: EditState)
    requires
        state_wf(st),
    ensures
        st.line > 0 ==> {
            let r = edit(st, EditAction::Up, true);
            let len = st.lines[st.line - 1].len() as int;
            &&& r.lines == st.lines
            &&& r.line == st.line - 1
            &&& 0 <= r.col <= len
            &&& st.col <= len ==> r.col == st.col
            &&& st.col > len ==> r.col == len
            &&& st.col <= len ==> edit(r, EditAction::Down, true) == st
        },
        st.line + 1 < st.lines.len() ==> {
            let r = edit(st, EditAction::Down, true);
            let len = st.lines[st.line + 1].len() as int;
            &&& r.lines == st.lines
            &&& r.line == st.line + 1
            &&& 0 <= r.col <= len
            &&& st.col <= len ==> r.col == st.col
            &&& st.col > len ==> r.col == len
            &&& st.col <= len ==> edit(r, EditAction::Up, true) == st
        },
{
}

} // verus!
