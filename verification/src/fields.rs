//! Label and value pairs laid out in aligned columns.
use vstd::prelude::*;
use crate::ansi::esc;
use crate::block::sub0;
use crate::md::colored;
use crate::paint::TermColor;
use crate::style::{separator_text, SeparatorStyle};
use crate::text::views;

verus! {

/// Characters outside escape sequences from `i` on; `in_seq` tells whether
/// `i` is inside one. A sequence runs from `ESC` to the next `m` or `K`.
pub open spec fn plain_len_from(s: Seq<char>, i: int, in_seq: bool) -> int
    decreases s.len() - i,
{
    if i < 0 || i >= s.len() {
        0
    } else if s[i] == esc() {
        plain_len_from(s, i + 1, true)
    } else if in_seq {
        plain_len_from(s, i + 1, !(s[i] == 'm' || s[i] == 'K'))
    } else {
        1 + plain_len_from(s, i + 1, false)
    }
}

/// The number of characters of `s` outside escape sequences.
pub open spec fn plain_len(s: Seq<char>) -> int {
    plain_len_from(s, 0, false)
}

proof fn lemma_plain_len_bound(s: Seq<char>, i: int, in_seq: bool)
    requires
        0 <= i <= s.len(),
    ensures
        0 <= plain_len_from(s, i, in_seq) <= s.len() - i,
    decreases s.len() - i,
{
    if i < s.len() {
        if s[i] == esc() {
            lemma_plain_len_bound(s, i + 1, true);
        } else if in_seq {
            lemma_plain_len_bound(s, i + 1, !(s[i] == 'm' || s[i] == 'K'));
        } else {
            lemma_plain_len_bound(s, i + 1, false);
        }
    }
}

/// Counts the characters of `input` outside escape sequences.
pub fn strip_ansi_len(input: &str) -> (r: usize)
    ensures
        r == plain_len(input@),
{
    let cs = crate::text::chars_of(input);
    let n = cs.len();
    let mut i: usize = n;
    let mut count: usize = 0;
    let mut state_after: bool = false;
    // Scan backwards: the count from `i` on is known for both entry states.
    let mut c_true: usize = 0;
    let mut c_false: usize = 0;
    while i > 0
        invariant
            i <= n == cs@.len(),
            cs@ == input@,
            c_true == plain_len_from(cs@, i as int, true),
            c_false == plain_len_from(cs@, i as int, false),
            c_false <= n - i,
            c_true <= n - i,
        decreases i,
    {
        let ch = cs[i - 1];
        proof {
            lemma_plain_len_bound(cs@, i as int, true);
            lemma_plain_len_bound(cs@, i as int, false);
        }
        if ch == '\x1b' {
            c_false = c_true;
        } else {
            let ends = ch == 'm' || ch == 'K';
            let nt = if ends { c_false } else { c_true };
            c_false = c_false + 1;
            c_true = nt;
        }
        i -= 1;
    }
    c_false
}

/// A label and its value.
pub struct FieldItem {
    pub label: String,
    pub value: String,
}

/// A change to the fields.
pub enum FieldsOp {
    /// Sets the value of the first field with the label, or adds the field.
    SetField(String, String),
    /// Removes every field with the label.
    RemoveField(String),
    /// Removes all fields.
    Clear,
    /// Replaces all fields.
    SetAll(Vec<(String, String)>),
}

/// The fields as label and value texts.
pub open spec fn items_view(v: Seq<FieldItem>) -> Seq<(Seq<char>, Seq<char>)> {
    v.map_values(|f: FieldItem| (f.label@, f.value@))
}

/// The index of the first field labelled `label` from `i` on, if any.
pub open spec fn find_label(v: Seq<(Seq<char>, Seq<char>)>, label: Seq<char>, i: int) -> Option<int>
    decreases v.len() - i,
{
    if i < 0 || i >= v.len() {
        None
    } else if v[i].0 == label {
        Some(i)
    } else {
        find_label(v, label, i + 1)
    }
}

/// The fields without those labelled `label`, in order.
pub open spec fn without_label(v: Seq<(Seq<char>, Seq<char>)>, label: Seq<char>) -> Seq<(Seq<char>, Seq<char>)>
    decreases v.len(),
{
    if v.len() == 0 {
        v
    } else {
        let rest = without_label(v.drop_last(), label);
        if v.last().0 == label { rest } else { rest.push(v.last()) }
    }
}

/// The fields after a change.
pub open spec fn apply_op(v: Seq<(Seq<char>, Seq<char>)>, op: FieldsOp) -> Seq<(Seq<char>, Seq<char>)> {
    match op {
        FieldsOp::SetField(l, x) => match find_label(v, l@, 0) {
            Some(k) => v.update(k, (v[k].0, x@)),
            None => v.push((l@, x@)),
        },
        FieldsOp::RemoveField(l) => without_label(v, l@),
        FieldsOp::Clear => Seq::empty(),
        FieldsOp::SetAll(ps) => ps@.map_values(|p: (String, String)| (p.0@, p.1@)),
    }
}

fn copy_string(s: &String) -> (r: String)
    ensures
        r@ == s@,
{
    let v = crate::text::chars_of(s.as_str());
    crate::text::string_of(v.as_slice())
}

/// Applies a change to the fields (see `apply_op`).
pub fn apply_fields_op(items: &mut Vec<FieldItem>, op: FieldsOp)
    ensures
        items_view(final(items)@) == apply_op(items_view(old(items)@), op),
{
    let ghost v0 = items_view(items@);
    let ghost op0 = op;
    match op {
        FieldsOp::SetField(label, value) => {
            let mut i: usize = 0;
            while i < items.len()
                invariant
                    v0 == items_view(items@),
                    op0 == FieldsOp::SetField(label, value),
                    op0 == op,
                    v0 == items_view(old(items)@),
                    i <= items@.len(),
                    find_label(v0, label@, 0) == find_label(v0, label@, i as int),
                decreases items.len() - i,
            {
                if crate::parser::context::string_eq(&items[i].label, label.as_str()) {
                    let l = copy_string(&items[i].label);
                    assert(v0[i as int].0 == label@);
                    assert(find_label(v0, label@, i as int) == Some(i as int));
                    let ghost b = items@;
                    items.set(i, FieldItem { label: l, value: copy_string(&value) });
                    assert(items_view(items@) =~= v0.update(i as int, (v0[i as int].0, value@)));
                    assert(find_label(v0, label@, 0) == Some(i as int));
                    assert(items_view(items@) == apply_op(v0, op0));
                    return;
                }
                i += 1;
            }
            let ghost b = items@;
            items.push(FieldItem { label, value });
            assert(items_view(items@) =~= v0.push((label@, value@)));
        },
        FieldsOp::RemoveField(label) => {
            let mut kept: Vec<FieldItem> = Vec::new();
            let mut i: usize = 0;
            let ghost mut prefix: Seq<FieldItem> = Seq::empty();
            assert(v0.take(0) =~= Seq::<(Seq<char>, Seq<char>)>::empty());
            while i < items.len()
                invariant
                    v0 == items_view(items@),
                    i <= items@.len(),
                    items_view(kept@) == without_label(v0.take(i as int), label@),
                decreases items.len() - i,
            {
                assert(v0.take(i + 1).drop_last() =~= v0.take(i as int));
                assert(v0.take(i + 1).last() == v0[i as int]);
                if !crate::parser::context::string_eq(&items[i].label, label.as_str()) {
                    let f = FieldItem { label: copy_string(&items[i].label), value: copy_string(&items[i].value) };
                    let ghost b = kept@;
                    kept.push(f);
                    assert(items_view(kept@) =~= items_view(b).push(v0[i as int]));
                }
                i += 1;
            }
            assert(v0.take(items@.len() as int) =~= v0);
            *items = kept;
        },
        FieldsOp::Clear => {
            *items = Vec::new();
            assert(items_view(items@) =~= Seq::<(Seq<char>, Seq<char>)>::empty());
        },
        FieldsOp::SetAll(pairs) => {
            let mut fresh: Vec<FieldItem> = Vec::new();
            let ghost pv = pairs@.map_values(|p: (String, String)| (p.0@, p.1@));
            let mut i: usize = 0;
            while i < pairs.len()
                invariant
                    pv == pairs@.map_values(|p: (String, String)| (p.0@, p.1@)),
                    i <= pairs@.len(),
                    items_view(fresh@) == pv.take(i as int),
                decreases pairs.len() - i,
            {
                let f = FieldItem { label: copy_string(&pairs[i].0), value: copy_string(&pairs[i].1) };
                let ghost b = fresh@;
                fresh.push(f);
                assert(items_view(fresh@) =~= items_view(b).push(pv[i as int]));
                assert(pv.take(i + 1) =~= pv.take(i as int).push(pv[i as int]));
                i += 1;
            }
            assert(pv.take(pairs@.len() as int) =~= pv);
            *items = fresh;
        },
    }
}

} // verus!

verus! {

/// The number of bytes UTF-8 takes for `c`.
pub open spec fn utf8_len(c: char) -> int {
    if (c as u32) < 0x80 {
        1
    } else if (c as u32) < 0x800 {
        2
    } else if (c as u32) < 0x10000 {
        3
    } else {
        4
    }
}

/// The number of characters from `i` on that take exactly `n` bytes; none
/// when `n` bytes end inside a character or past the end.
pub open spec fn byte_prefix_from(s: Seq<char>, i: int, n: int) -> Option<int>
    decreases s.len() - i,
{
    if n == 0 {
        Some(i)
    } else if n < 0 || i < 0 || i >= s.len() {
        None
    } else {
        byte_prefix_from(s, i + 1, n - utf8_len(s[i]))
    }
}

proof fn lemma_byte_prefix_range(s: Seq<char>, i: int, n: int)
    requires
        0 <= i <= s.len(),
    ensures
        byte_prefix_from(s, i, n) matches Some(k) ==> i <= k <= s.len(),
    decreases s.len() - i,
{
    if n != 0 && n >= 0 && i < s.len() {
        lemma_byte_prefix_range(s, i + 1, n - utf8_len(s[i]));
    }
}

/// The widest label, counting characters outside escape sequences.
pub open spec fn widest_label(v: Seq<(Seq<char>, Seq<char>)>) -> int
    decreases v.len(),
{
    if v.len() == 0 {
        0
    } else {
        let m = widest_label(v.drop_last());
        let x = plain_len(v.last().0);
        if x > m { x } else { m }
    }
}

/// Room for a value after the widest label, a space, the separator and a space.
pub open spec fn value_room(v: Seq<(Seq<char>, Seq<char>)>, sep: Seq<char>, width: int) -> int {
    sub0(width, widest_label(v) + 1 + sep.len() + 1)
}

/// Whether a value is shortened: it is longer than the room, and the room
/// is more than 3.
pub open spec fn is_cut(value: Seq<char>, room: int) -> bool {
    plain_len(value) > room && room > 3
}

/// A field line: the label padded to the widest label, a space, the
/// separator, a space and the value; a value longer than the room keeps its
/// first `room - 3` bytes and gets `...`.
pub open spec fn field_line(label: Seq<char>, value: Seq<char>, widest: int, room: int, sep_str: Seq<char>) -> Seq<char> {
    let val = if is_cut(value, room) {
        value.take(byte_prefix_from(value, 0, room - 3)->0) + seq!['.', '.', '.']
    } else {
        value
    };
    line_start(label, widest, sep_str) + val
}

/// A field line up to its value.
pub open spec fn line_start(label: Seq<char>, widest: int, sep_str: Seq<char>) -> Seq<char> {
    label + crate::block::reps(' ', sub0(widest, plain_len(label))) + seq![' '] + sep_str + seq![' ']
}

/// The fields widget: label and value pairs with a separator.
pub struct Fields {
    pub items: Vec<FieldItem>,
    pub separator: SeparatorStyle,
    pub separator_color: Option<TermColor>,
}

/// The lines of the fields in `width` columns; `on` tells whether color
/// output was on for the separator.
pub open spec fn fields_lines(f: Fields, width: int, on: bool) -> Seq<Seq<char>> {
    let v = items_view(f.items@);
    let sep = separator_text(f.separator);
    let room = value_room(v, sep, width);
    Seq::new(v.len(), |i: int| field_line(v[i].0, v[i].1, widest_label(v), room, colored(sep, f.separator_color, on)))
}

/// Whether every shortened value is cut at a character boundary.
pub open spec fn cuts_fit(f: Fields, width: int) -> bool {
    let v = items_view(f.items@);
    let room = value_room(v, separator_text(f.separator), width);
    forall|i: int| 0 <= i < v.len() && #[trigger] is_cut(v[i].1, room) ==> byte_prefix_from(v[i].1, 0, room - 3) is Some
}

/// The number of bytes UTF-8 takes for `c`.
fn utf8_len_exec(c: char) -> (r: usize)
    ensures
        r == utf8_len(c),
{
    let x = c as u32;
    if x < 0x80 {
        1
    } else if x < 0x800 {
        2
    } else if x < 0x10000 {
        3
    } else {
        4
    }
}

/// The characters of `s` in its first `n` bytes, when `n` is a boundary.
pub(crate) fn byte_prefix_exec(s: &Vec<char>, n: usize) -> (r: Option<usize>)
    ensures
        r is Some <==> byte_prefix_from(s@, 0, n as int) is Some,
        r matches Some(k) ==> k <= s@.len() && byte_prefix_from(s@, 0, n as int) == Some(k as int),
{
    proof {
        lemma_byte_prefix_range(s@, 0, n as int);
    }
    let mut i: usize = 0;
    let mut left: usize = n;
    while left > 0 && i < s.len()
        invariant
            i <= s@.len(),
            byte_prefix_from(s@, 0, n as int) == byte_prefix_from(s@, i as int, left as int),
        decreases s.len() - i,
    {
        let b = utf8_len_exec(s[i]);
        if b > left {
            assert(byte_prefix_from(s@, i + 1, left - b) is None);
            return None;
        }
        left = left - b;
        i += 1;
    }
    if left == 0 {
        Some(i)
    } else {
        None
    }
}

impl Fields {
    /// An empty fields widget with a colon separator.
    pub fn new() -> (r: Fields)
        ensures
            r.items@.len() == 0,
            r.separator == SeparatorStyle::Colon,
            r.separator_color is None,
    {
        Fields { items: Vec::new(), separator: SeparatorStyle::Colon, separator_color: None }
    }

    /// Sets the separator and its color.
    pub fn separator(self, sep: SeparatorStyle, color: Option<TermColor>) -> (r: Fields)
        ensures
            items_view(r.items@) == items_view(self.items@),
            r.separator == sep,
            r.separator_color == color,
    {
        Fields { separator: sep, separator_color: color, ..self }
    }

    /// Adds a field.
    pub fn field(self, label: &str, value: &str) -> (r: Fields)
        ensures
            items_view(r.items@) == items_view(self.items@).push((label@, value@)),
            r.separator == self.separator,
            r.separator_color == self.separator_color,
    {
        let mut f = self;
        let ghost b = items_view(f.items@);
        let l = crate::text::string_of(crate::text::chars_of(label).as_slice());
        let v = crate::text::string_of(crate::text::chars_of(value).as_slice());
        f.items.push(FieldItem { label: l, value: v });
        assert(items_view(f.items@) =~= b.push((label@, value@)));
        f
    }

    /// Adds fields from label and value pairs.
    pub fn fields(self, pairs: Vec<(String, String)>) -> (r: Fields)
        ensures
            items_view(r.items@) == items_view(self.items@) + pairs@.map_values(|p: (String, String)| (p.0@, p.1@)),
            r.separator == self.separator,
            r.separator_color == self.separator_color,
    {
        let mut f = self;
        let ghost b = items_view(f.items@);
        let ghost pv = pairs@.map_values(|p: (String, String)| (p.0@, p.1@));
        let mut i: usize = 0;
        while i < pairs.len()
            invariant
                pv == pairs@.map_values(|p: (String, String)| (p.0@, p.1@)),
                i <= pairs@.len(),
                items_view(f.items@) == b + pv.take(i as int),
                f.separator == self.separator,
                f.separator_color == self.separator_color,
            decreases pairs.len() - i,
        {
            let ghost before = items_view(f.items@);
            f.items.push(FieldItem { label: copy_string(&pairs[i].0), value: copy_string(&pairs[i].1) });
            assert(items_view(f.items@) =~= before.push(pv[i as int]));
            assert(pv.take(i + 1) =~= pv.take(i as int).push(pv[i as int]));
            i += 1;
        }
        assert(pv.take(pairs@.len() as int) =~= pv);
        f
    }

    /// The room for values in `width` columns (see `value_room`).
    fn room_exec(&self, width: usize) -> (r: usize)
        ensures
            r as int == value_room(items_view(self.items@), separator_text(self.separator), width as int),
    {
        let ghost v = items_view(self.items@);
        let n = self.items.len();
        let mut widest: usize = 0;
        let mut i: usize = 0;
        assert(v.take(0) =~= Seq::<(Seq<char>, Seq<char>)>::empty());
        while i < n
            invariant
                v == items_view(self.items@),
                n == self.items@.len(),
                i <= n,
                widest == widest_label(v.take(i as int)),
            decreases n - i,
        {
            assert(v.take(i + 1).drop_last() =~= v.take(i as int));
            let x = strip_ansi_len(self.items[i].label.as_str());
            if x > widest {
                widest = x;
            }
            i += 1;
        }
        assert(v.take(n as int) =~= v);
        let sep_chars = crate::text::chars_of(self.separator.as_str());
        let need: u128 = widest as u128 + 1 + sep_chars.len() as u128 + 1;
        if (width as u128) > need { ((width as u128) - need) as usize } else { 0 }
    }

    /// Whether every value that is shortened in `width` columns is cut at a
    /// character boundary (see `cuts_fit`), which `render_content` needs.
    pub fn cuts_fit_exec(&self, width: usize) -> (r: bool)
        ensures
            r == cuts_fit(*self, width as int),
    {
        let ghost v = items_view(self.items@);
        let room = self.room_exec(width);
        let n = self.items.len();
        let mut i: usize = 0;
        while i < n
            invariant
                v == items_view(self.items@),
                n == self.items@.len(),
                room as int == value_room(v, separator_text(self.separator), width as int),
                i <= n,
                forall|k: int| 0 <= k < i && #[trigger] is_cut(v[k].1, room as int) ==> byte_prefix_from(v[k].1, 0, room - 3) is Some,
            decreases n - i,
        {
            assert(v[i as int] == (self.items@[i as int].label@, self.items@[i as int].value@));
            let vw = strip_ansi_len(self.items[i].value.as_str());
            if vw > room && room > 3 {
                let value = crate::text::chars_of(self.items[i].value.as_str());
                if byte_prefix_exec(&value, room - 3).is_none() {
                    assert(is_cut(v[i as int].1, room as int));
                    return false;
                }
            }
            i += 1;
        }
        true
    }

    /// The lines of the fields in `width` columns (see `fields_lines`).
    pub fn render_content(&self, width: usize) -> (r: Vec<String>)
        requires
            cuts_fit(*self, width as int),
        ensures
            exists|on: bool| views(r@) == fields_lines(*self, width as int, on),
    {
        let ghost v = items_view(self.items@);
        let n = self.items.len();
        let mut widest: usize = 0;
        let mut i: usize = 0;
        assert(v.take(0) =~= Seq::<(Seq<char>, Seq<char>)>::empty());
        while i < n
            invariant
                v == items_view(self.items@),
                n == self.items@.len(),
                i <= n,
                widest == widest_label(v.take(i as int)),
            decreases n - i,
        {
            assert(v.take(i + 1).drop_last() =~= v.take(i as int));
            let x = strip_ansi_len(self.items[i].label.as_str());
            if x > widest {
                widest = x;
            }
            i += 1;
        }
        assert(v.take(n as int) =~= v);
        let sep_raw = self.separator.as_str();
        let sep_chars = crate::text::chars_of(sep_raw);
        let (sep_str, on) = crate::md::colored_exec(&sep_chars, self.separator_color);
        let need: u128 = widest as u128 + 1 + sep_chars.len() as u128 + 1;
        let room: usize = if (width as u128) > need { ((width as u128) - need) as usize } else { 0 };
        assert(room as int == value_room(v, separator_text(self.separator), width as int));
        let mut out: Vec<String> = Vec::new();
        let mut i: usize = 0;
        while i < n
            invariant
                v == items_view(self.items@),
                n == self.items@.len(),
                cuts_fit(*self, width as int),
                room as int == value_room(v, separator_text(self.separator), width as int),
                widest == widest_label(v),
                sep_str@ == colored(separator_text(self.separator), self.separator_color, on@),
                i <= n,
                views(out@) == Seq::new(i as nat, |k: int| field_line(v[k].0, v[k].1, widest as int, room as int, sep_str@)),
            decreases n - i,
        {
            let label = crate::text::chars_of(self.items[i].label.as_str());
            let value = crate::text::chars_of(self.items[i].value.as_str());
            assert(v[i as int] == (self.items@[i as int].label@, self.items@[i as int].value@));
            let ghost val_s = if is_cut(v[i as int].1, room as int) {
                v[i as int].1.take(byte_prefix_from(v[i as int].1, 0, room - 3)->0) + seq!['.', '.', '.']
            } else {
                v[i as int].1
            };
            let ghost start = line_start(v[i as int].0, widest as int, sep_str@);
            let lw = strip_ansi_len(self.items[i].label.as_str());
            let mut line = label.clone();
            let pad = crate::text::repeat_char_exec(' ', if widest > lw { widest - lw } else { 0 });
            crate::text::extend_chars(&mut line, pad.as_slice());
            line.push(' ');
            crate::text::extend_chars(&mut line, sep_str.as_slice());
            line.push(' ');
            assert(line@ =~= start);
            let ghost mid = line@;
            let vw = strip_ansi_len(self.items[i].value.as_str());
            if vw > room && room > 3 {
                assert(is_cut(v[i as int].1, room as int));
                match byte_prefix_exec(&value, room - 3) {
                    Some(k) => {
                        let head = crate::ansi::slice_vec(&value, 0, k);
                        crate::text::extend_chars(&mut line, head.as_slice());
                        line.push('.');
                        line.push('.');
                        line.push('.');
                        assert(head@ =~= value@.take(k as int));
                        assert(value@ == v[i as int].1);
                        assert(byte_prefix_from(value@, 0, (room - 3) as int) == Some(k as int));
                        assert(byte_prefix_from(v[i as int].1, 0, room - 3) == Some(k as int));
                        assert(val_s == value@.take(k as int) + seq!['.', '.', '.']);
                        assert(line@ =~= mid + val_s);
                    },
                    None => {
                        assert(false);
                    },
                }
            } else {
                crate::text::extend_chars(&mut line, value.as_slice());
                assert(line@ =~= mid + val_s);
            }
            let ghost b = out@;
            out.push(crate::text::string_of(line.as_slice()));
            assert(line@ =~= field_line(v[i as int].0, v[i as int].1, widest as int, room as int, sep_str@));
            assert(views(out@) =~= Seq::new((i + 1) as nat, |k: int| field_line(v[k].0, v[k].1, widest as int, room as int, sep_str@))) by {
                assert(views(out@) =~= views(b).push(line@));
            }
            i += 1;
        }
        assert(views(out@) =~= fields_lines(*self, width as int, on@));
        out
    }
}

} // verus!
