//! ANSI-aware measuring, wrapping and truncation of terminal text.
use vstd::prelude::*;
use crate::styled::{
    invisible_styled, lemma_empty_styled, lemma_plain_len, lemma_plain_printable, lemma_printable_styled,
    lemma_sgr_invisible, lemma_sgr_len_bound, lemma_split_styled, lemma_styled_char, lemma_styled_concat,
    lemma_styled_no_tab, lemma_styled_sgr_head, lemma_styled_text_lines, lemma_text_sgr_head, text_char,
    lemma_replace_concat, params_len, plain_char, plain_text, sgr_len,
    styled_ascii, styled_text,
};
use crate::text::{
    chars_of, decimal, decimal_chars, extend_chars, is_digit, lines_chars, lines_of, parse_u8,
    parse_u8_spec, repeat_char, replace_char, replace_char_exec, replace_crlf, replace_crlf_exec,
    split_chars, split_on, string_of, strings_of, views,
};

verus! {

/// The escape character that starts every ANSI control sequence.
pub open spec fn esc() -> char {
    '\x1b'
}

/// Characters allowed between `ESC [` and `m` in a select-graphic-rendition sequence.
pub open spec fn is_sgr_param_char(c: char) -> bool {
    is_digit(c) || c == ';' || c == ':'
}

pub open spec fn all_sgr_params(s: Seq<char>) -> bool {
    forall|i: int| 0 <= i < s.len() ==> #[trigger] is_sgr_param_char(s[i])
}

/// `ESC [ <code> m`: the sequence selecting a basic foreground color.
pub open spec fn fg_sequence(code: u8) -> Seq<char> {
    seq![esc(), '['] + decimal(code as nat) + seq!['m']
}

/// A basic (30..=37) or bright (90..=97) foreground color code.
pub open spec fn is_basic_fg_code(code: u8) -> bool {
    (30 <= code <= 37) || (90 <= code <= 97)
}

/// How many parameters a background-color code `48` at `idx` takes up with
/// its arguments: `48;5;N` three, `48;2;R;G;B` five, a lone `48` one.
pub open spec fn bg_skip(parts: Seq<Seq<char>>, idx: int) -> int {
    if idx + 1 < parts.len() && parts[idx + 1] == seq!['5'] {
        3
    } else if idx + 1 < parts.len() && parts[idx + 1] == seq!['2'] {
        5
    } else {
        1
    }
}

/// The parameter after a background-color code `48` at `idx` and its arguments.
pub open spec fn bg_next(parts: Seq<Seq<char>>, idx: int) -> int {
    if idx + bg_skip(parts, idx) <= parts.len() {
        idx + bg_skip(parts, idx)
    } else {
        parts.len() as int
    }
}

/// Folds the `;`-separated parameters of one SGR group left to right and yields
/// the foreground color the group leaves active, if any: `38` (extended color)
/// keeps the whole group and stops, `0` and `39` clear the color, a basic code
/// selects its own short sequence, a background `48` is passed over together
/// with its palette index or color channels, anything else leaves the color
/// unchanged.
pub open spec fn group_fg(parts: Seq<Seq<char>>, full: Seq<char>, idx: int, acc: Option<Seq<char>>) -> Option<Seq<char>>
    decreases parts.len() - idx,
{
    if idx >= parts.len() || idx < 0 {
        acc
    } else {
        let p = parts[idx];
        if p == seq!['3', '8'] {
            Some(full)
        } else if p == seq!['4', '8'] {
            group_fg(parts, full, bg_next(parts, idx), acc)
        } else if p == seq!['0'] || p == seq!['3', '9'] {
            group_fg(parts, full, idx + 1, None)
        } else {
            match parse_u8_spec(p) {
                Some(code) => if is_basic_fg_code(code) {
                    group_fg(parts, full, idx + 1, Some(fg_sequence(code)))
                } else {
                    group_fg(parts, full, idx + 1, acc)
                },
                None => group_fg(parts, full, idx + 1, acc),
            }
        }
    }
}

/// Whether the parameters from `idx` on hold a reset (`0`) or a default-color
/// (`39`) code, the arguments of a background `48` not counted.
pub open spec fn group_resets_from(parts: Seq<Seq<char>>, idx: int) -> bool
    decreases parts.len() - idx,
{
    if idx >= parts.len() || idx < 0 {
        false
    } else if parts[idx] == seq!['4', '8'] {
        group_resets_from(parts, bg_next(parts, idx))
    } else if parts[idx] == seq!['0'] || parts[idx] == seq!['3', '9'] {
        true
    } else {
        group_resets_from(parts, idx + 1)
    }
}

/// Whether a group of SGR parameters holds a reset (`0`) or a default-color
/// (`39`) code (see `group_resets_from`).
pub open spec fn group_resets(parts: Seq<Seq<char>>) -> bool {
    group_resets_from(parts, 0)
}

/// The start `j < k` of the nearest `ESC [` that begins before position `k`.
pub open spec fn find_csi_before(s: Seq<char>, k: int) -> Option<int>
    decreases k,
{
    if k <= 0 || k > s.len() {
        None
    } else if s[k - 1] == esc() && k < s.len() && s[k] == '[' {
        Some(k - 1)
    } else {
        find_csi_before(s, k - 1)
    }
}

/// Scans `s` backwards from position `i` (exclusive) for the foreground color
/// that is active at that point.  Each `m` that closes a well-formed SGR group
/// is examined: a group that selects a color answers, a group that resets
/// answers "none", and a group holding only other styles is skipped.
pub open spec fn scan_active_fg(s: Seq<char>, i: int) -> Option<Seq<char>>
    decreases i,
{
    if i <= 0 || i > s.len() {
        None
    } else {
        let k = i - 1;
        if s[k] != 'm' {
            scan_active_fg(s, k)
        } else {
            match find_csi_before(s, k) {
                None => scan_active_fg(s, k),
                Some(j) => {
                    if j < 0 || j + 2 > k {
                        scan_active_fg(s, k)
                    } else {
                        let params = s.subrange(j + 2, k);
                        if !all_sgr_params(params) {
                            scan_active_fg(s, k)
                        } else {
                            let parts = split_on(params, ';');
                            let full = s.subrange(j, k + 1);
                            match group_fg(parts, full, 0, None) {
                                Some(c) => Some(c),
                                None => if group_resets(parts) {
                                    None
                                } else {
                                    scan_active_fg(s, j)
                                },
                            }
                        }
                    }
                }
            }
        }
    }
}

/// The foreground color sequence active at the end of `s`.
pub open spec fn active_fg(s: Seq<char>) -> Option<Seq<char>> {
    scan_active_fg(s, s.len() as int)
}

pub proof fn lemma_find_csi_before(s: Seq<char>, k: int)
    ensures
        find_csi_before(s, k) matches Some(j) ==> 0 <= j && j + 1 <= k && j + 1 < s.len()
            && s[j] == esc() && s[j + 1] == '[',
    decreases k,
{
    if k > 0 && k <= s.len() {
        lemma_find_csi_before(s, k - 1);
    }
}

fn find_csi(s: &Vec<char>, k: usize) -> (r: Option<usize>)
    requires
        k < s@.len(),
        s@[k as int] == 'm',
    ensures
        r matches Some(j) ==> find_csi_before(s@, k as int) == Some(j as int),
        r is None ==> find_csi_before(s@, k as int) is None,
{
    let mut j = k;
    while j > 0
        invariant
            j <= k,
            k < s@.len(),
            s@[k as int] == 'm',
            find_csi_before(s@, k as int) == find_csi_before(s@, j as int),
        decreases j,
    {
        if s[j - 1] == '\x1b' && s[j] == '[' {
            return Some(j - 1);
        }
        j -= 1;
    }
    None
}

fn all_sgr_params_exec(s: &Vec<char>, from: usize, to: usize) -> (r: bool)
    requires
        from <= to <= s@.len(),
    ensures
        r == all_sgr_params(s@.subrange(from as int, to as int)),
{
    let mut i = from;
    while i < to
        invariant
            from <= i <= to <= s@.len(),
            forall|t: int| from <= t < i ==> #[trigger] is_sgr_param_char(s@[t]),
        decreases to - i,
    {
        let c = s[i];
        if !((c >= '0' && c <= '9') || c == ';' || c == ':') {
            assert(s@.subrange(from as int, to as int)[i - from] == c);
            assert(!is_sgr_param_char(s@.subrange(from as int, to as int)[i - from]));
            return false;
        }
        i += 1;
    }
    assert forall|t: int| 0 <= t < to - from implies #[trigger] is_sgr_param_char(s@.subrange(from as int, to as int)[t]) by {
        assert(s@.subrange(from as int, to as int)[t] == s@[from + t]);
    }
    true
}

fn is_lit(p: &Vec<char>, lit: &[char]) -> (r: bool)
    ensures
        r == (p@ == lit@),
{
    if p.len() != lit.len() {
        return false;
    }
    let mut i: usize = 0;
    while i < p.len()
        invariant
            i <= p.len() == lit@.len(),
            forall|t: int| 0 <= t < i ==> p@[t] == lit@[t],
        decreases p.len() - i,
    {
        if p[i] != lit[i] {
            return false;
        }
        i += 1;
    }
    assert(p@ =~= lit@);
    true
}

fn fg_sequence_exec(code: u8) -> (r: Vec<char>)
    ensures
        r@ == fg_sequence(code),
{
    let mut r = Vec::new();
    r.push('\x1b');
    r.push('[');
    let mut d = decimal_chars(code as usize);
    r.append(&mut d);
    r.push('m');
    assert(r@ =~= fg_sequence(code));
    r
}

/// Evaluates one SGR group `s[j..=k]`: its color, and when it has none,
/// whether it resets.
fn sgr_group(s: &Vec<char>, j: usize, k: usize) -> (r: (Option<Vec<char>>, bool))
    requires
        j + 2 <= k < s@.len(),
    ensures
        ({
            let parts = split_on(s@.subrange(j + 2, k as int), ';');
            &&& (match r.0 {
                Some(c) => group_fg(parts, s@.subrange(j as int, k + 1), 0, None) == Some(c@),
                None => group_fg(parts, s@.subrange(j as int, k + 1), 0, None) is None && r.1 == group_resets(parts),
            })
        }),
{
    let params = slice_vec(s, j + 2, k);
    let parts = split_chars(params.as_slice(), ';');
    let ghost sparts = split_on(s@.subrange(j + 2, k as int), ';');
    let ghost full = s@.subrange(j as int, k + 1);
    let mut acc: Option<Vec<char>> = None;
    let mut resets = false;
    let mut idx: usize = 0;
    let lit38 = ['3', '8'];
    let lit48 = ['4', '8'];
    let lit0 = ['0'];
    let lit39 = ['3', '9'];
    let lit5 = ['5'];
    let lit2 = ['2'];
    assert(lit38@ == seq!['3', '8']);
    assert(lit48@ == seq!['4', '8']);
    assert(lit0@ == seq!['0']);
    assert(lit39@ == seq!['3', '9']);
    assert(lit5@ == seq!['5']);
    assert(lit2@ == seq!['2']);
    while idx < parts.len()
        invariant
            parts@.len() == sparts.len(),
            forall|t: int| 0 <= t < parts@.len() ==> #[trigger] parts@[t]@ == sparts[t],
            idx <= parts.len(),
            lit38@ == seq!['3', '8'],
            lit48@ == seq!['4', '8'],
            lit0@ == seq!['0'],
            lit39@ == seq!['3', '9'],
            lit5@ == seq!['5'],
            lit2@ == seq!['2'],
            full == s@.subrange(j as int, k + 1),
            sparts == split_on(s@.subrange(j + 2, k as int), ';'),
            j + 2 <= k < s@.len(),
            k < s.len(),
            group_fg(sparts, full, 0, None) == group_fg(sparts, full, idx as int, match acc { Some(a) => Some(a@), None => None }),
            group_resets_from(sparts, 0) == (resets || group_resets_from(sparts, idx as int)),
        decreases parts.len() - idx,
    {
        let p = &parts[idx];
        assert(p@ == sparts[idx as int]);
        if is_lit(p, &lit38) {
            let full_v = slice_vec(s, j, k + 1);
            return (Some(full_v), resets);
        } else if is_lit(p, &lit48) {
            let step: usize = if idx + 1 < parts.len() && is_lit(&parts[idx + 1], &lit5) {
                3
            } else if idx + 1 < parts.len() && is_lit(&parts[idx + 1], &lit2) {
                5
            } else {
                1
            };
            assert(step == bg_skip(sparts, idx as int));
            let ghost a = match &acc { Some(x) => Some(x@), None => None::<Seq<char>> };
            assert(sparts[idx as int] == seq!['4', '8']);
            assert(group_fg(sparts, full, idx as int, a) == group_fg(sparts, full, bg_next(sparts, idx as int), a));
            assert(group_resets_from(sparts, idx as int) == group_resets_from(sparts, bg_next(sparts, idx as int)));
            if step > parts.len() - idx {
                idx = parts.len();
            } else {
                idx = idx + step;
            }
        } else if is_lit(p, &lit0) || is_lit(p, &lit39) {
            resets = true;
            acc = None;
            idx += 1;
        } else {
            match parse_u8(p.as_slice()) {
                Some(code) => {
                    if (30 <= code && code <= 37) || (90 <= code && code <= 97) {
                        acc = Some(fg_sequence_exec(code));
                    }
                },
                None => {},
            }
            idx += 1;
        }
    }
    (acc, resets)
}

/// Copies `s[from..to]`.
pub fn slice_vec(s: &Vec<char>, from: usize, to: usize) -> (r: Vec<char>)
    requires
        from <= to <= s@.len(),
    ensures
        r@ == s@.subrange(from as int, to as int),
{
    let mut r = Vec::new();
    let mut i = from;
    while i < to
        invariant
            from <= i <= to <= s@.len(),
            r@ == s@.subrange(from as int, i as int),
        decreases to - i,
    {
        r.push(s[i]);
        assert(s@.subrange(from as int, i + 1) =~= s@.subrange(from as int, i as int).push(s@[i as int]));
        i += 1;
    }
    r
}

/// Parses the active ANSI foreground color sequence by scanning backwards from
/// the end of `text_slice`.  Gives the raw sequence that restores the last
/// foreground color, or `None` when there is none or when a reset (`0`) or
/// default-color (`39`) code was met last.
pub fn get_active_text_color(text_slice: &str) -> (r: Option<String>)
    ensures
        match r {
            Some(c) => active_fg(text_slice@) == Some(c@),
            None => active_fg(text_slice@) is None,
        },
{
    let s = chars_of(text_slice);
    match active_color_chars(&s) {
        Some(c) => Some(string_of(c.as_slice())),
        None => None,
    }
}

/// [`get_active_text_color`] on a character vector.
pub fn active_color_chars(s: &Vec<char>) -> (r: Option<Vec<char>>)
    ensures
        match r {
            Some(c) => active_fg(s@) == Some(c@),
            None => active_fg(s@) is None,
        },
{
    let mut i = s.len();
    while i > 0
        invariant
            i <= s@.len(),
            scan_active_fg(s@, s@.len() as int) == scan_active_fg(s@, i as int),
        decreases i,
    {
        i -= 1;
        if s[i] == 'm' {
            proof {
                lemma_find_csi_before(s@, i as int);
            }
            match find_csi(&s, i) {
                None => {},
                Some(j) => {
                    if all_sgr_params_exec(&s, j + 2, i) {
                        let (color, resets) = sgr_group(&s, j, i);
                        match color {
                            Some(c) => {
                                return Some(c);
                            },
                            None => {
                                if resets {
                                    return None;
                                }
                                i = j;
                            },
                        }
                    }
                },
            }
        }
    }
    None
}

} // verus!

verus! {

/// What `strip_ansi_escapes::strip_str` leaves of a string.
pub uninterp spec fn ansi_stripped(s: Seq<char>) -> Seq<char>;

/// The display width, in terminal columns, that `UnicodeWidthStr::width` gives a string.
pub uninterp spec fn display_width(s: Seq<char>) -> usize;

/// Whether every character is printable ASCII (space to `~`).
pub open spec fn printable_ascii(s: Seq<char>) -> bool {
    forall|i: int| 0 <= i < s.len() ==> ' ' <= #[trigger] s[i] && s[i] <= '~'
}

/// Removes ANSI escape sequences through `strip_ansi_escapes::strip_str`; the
/// result is named by `ansi_stripped` and depends on the argument alone.  The
/// crate's parser (`vte`) prints every printable ASCII character in its ground
/// state, so such text comes back unchanged; and a complete color sequence
/// `ESC [ params m` (parameters of digits, `;` and `:`) goes through its
/// escape, CSI-entry and CSI-param states to a CSI dispatch, which prints
/// nothing and returns to the ground state, so of styled text only the plain
/// characters come back.  What it leaves of other escape sequences or control
/// characters is left unsaid.
#[verifier::external_body]
fn strip_ansi(s: &str) -> (r: String)
    ensures
        r@ == ansi_stripped(s@),
        printable_ascii(s@) ==> r@ == s@,
        styled_ascii(s@) ==> r@ == plain_text(s@),
{
    strip_ansi_escapes::strip_str(s)
}

/// The width, in terminal columns, that `UnicodeWidthChar::width` gives a
/// character; `None` for a control character.
pub uninterp spec fn char_columns(c: char) -> Option<usize>;

/// Measures a character through `UnicodeWidthChar::width` of `unicode-width`.
/// The result is named by `char_columns`; as the crate's lookup shows, it is
/// `None` for the control characters below U+0020 and from U+007F to U+009F,
/// 1 for the other ASCII characters, and at most 255 (a byte) otherwise.
#[verifier::external_body]
pub(crate) fn char_width(c: char) -> (r: Option<usize>)
    ensures
        r == char_columns(c),
        (c < ' ' || ('\u{7f}' <= c && c < '\u{a0}')) ==> r is None,
        (' ' <= c && c < '\u{7f}') ==> r == Some(1usize),
        r matches Some(w) ==> w <= 255,
{
    unicode_width::UnicodeWidthChar::width(c)
}

/// Measures a string through `UnicodeWidthStr::width` of `unicode-width`; the
/// result is named by `display_width` and depends on the argument alone.  As
/// the crate's lookup counts each character up to U+00A0 as one column (but
/// for `\r` before `\n`), printable ASCII text is as wide as it is long.
#[verifier::external_body]
pub(crate) fn str_width(s: &str) -> (r: usize)
    ensures
        r == display_width(s@),
        printable_ascii(s@) ==> r == s@.len(),
{
    unicode_width::UnicodeWidthStr::width(s)
}

/// `text` with every tab replaced by `tab_width` spaces.
pub open spec fn expand_tabs_spec(text: Seq<char>, tab_width: nat) -> Seq<char> {
    replace_char(text, '\t', repeat_char(' ', tab_width))
}

/// Visible width of a string: tabs count as four spaces, escape sequences
/// count as nothing.  Once tabs are expanded, styled text (printable ASCII and
/// complete color sequences) is as wide as its plain text is long; other text
/// is as wide as the display width of what stripping its escapes leaves.
pub open spec fn visible_width_spec(text: Seq<char>) -> usize {
    let x = expand_tabs_spec(text, 4);
    if styled_ascii(x) {
        plain_text(x).len() as usize
    } else {
        display_width(ansi_stripped(x))
    }
}

/// Replaces tab characters in `text` with `tab_width` spaces each.
pub fn expand_tabs(text: &str, tab_width: usize) -> (r: String)
    ensures
        r@ == expand_tabs_spec(text@, tab_width as nat),
{
    let v = chars_of(text);
    let sp = repeat_char_exec_local(tab_width);
    let e = replace_char_exec(v.as_slice(), '\t', sp.as_slice());
    string_of(e.as_slice())
}

fn repeat_char_exec_local(n: usize) -> (r: Vec<char>)
    ensures
        r@ == repeat_char(' ', n as nat),
{
    crate::text::repeat_char_exec(' ', n)
}

/// Calculates the visible display width of a string in terminal columns,
/// ignoring ANSI escape sequences and counting a tab as four spaces.
pub fn visible_width(text: &str) -> (r: usize)
    ensures
        r == visible_width_spec(text@),
        printable_ascii(text@) ==> r == text@.len(),
{
    let expanded = expand_tabs(text, 4);
    proof {
        lemma_replace_absent(text@, '\t', repeat_char(' ', 4));
        if printable_ascii(text@) {
            lemma_printable_styled(text@);
        }
    }
    let clean = strip_ansi(expanded.as_str());
    proof {
        if styled_ascii(expanded@) {
            lemma_plain_printable(expanded@);
        }
    }
    str_width(clean.as_str())
}

/// Replacing a character that does not occur changes nothing.
pub proof fn lemma_replace_absent(s: Seq<char>, from: char, to: Seq<char>)
    ensures
        (forall|i: int| 0 <= i < s.len() ==> #[trigger] s[i] != from) ==> replace_char(s, from, to) == s,
    decreases s.len(),
{
    if s.len() > 0 {
        lemma_replace_absent(s.drop_last(), from, to);
        if forall|i: int| 0 <= i < s.len() ==> #[trigger] s[i] != from {
            assert forall|i: int| 0 <= i < s.drop_last().len() implies #[trigger] s.drop_last()[i] != from by {
                assert(s.drop_last()[i] == s[i]);
            }
            assert(s.last() != from);
            assert(s.drop_last() + seq![s.last()] =~= s);
        }
    }
}

/// [`visible_width`] of a character slice.
pub fn visible_width_chars(text: &[char]) -> (r: usize)
    ensures
        r == visible_width_spec(text@),
        printable_ascii(text@) ==> r == text@.len(),
{
    let s = string_of(text);
    visible_width(s.as_str())
}

/// Visible width of a single character.
pub open spec fn char_vw(c: char) -> usize {
    visible_width_spec(seq![c])
}

fn char_visible_width(c: char) -> (r: usize)
    ensures
        r == char_vw(c),
        ' ' <= c && c <= '~' ==> r == 1,
{
    let v = vec![c];
    assert(v@ =~= seq![c]);
    visible_width_chars(v.as_slice())
}

pub open spec fn is_ascii_alpha(c: char) -> bool {
    ('a' <= c && c <= 'z') || ('A' <= c && c <= 'Z')
}

/// Index just past the first ASCII letter at or after `p` (or the end of `s`).
pub open spec fn letter_end(s: Seq<char>, p: int) -> int
    decreases s.len() - p,
{
    if p >= s.len() {
        s.len() as int
    } else if p < 0 {
        letter_end(s, 0)
    } else if is_ascii_alpha(s[p]) {
        p + 1
    } else {
        letter_end(s, p + 1)
    }
}

/// Index just past the escape sequence starting at `i` (where `s[i]` is ESC):
/// a lone ESC is one character; `ESC [` runs up to and including the first letter.
pub open spec fn escape_end(s: Seq<char>, i: int) -> int {
    if i + 1 < s.len() && s[i + 1] == '[' {
        letter_end(s, i + 2)
    } else {
        i + 1
    }
}

pub proof fn lemma_letter_end(s: Seq<char>, p: int)
    requires
        0 <= p <= s.len(),
    ensures
        p <= letter_end(s, p) <= s.len(),
        letter_end(s, p) > p ==> forall|t: int| p <= t < letter_end(s, p) - 1 ==> !is_ascii_alpha(#[trigger] s[t]),
        letter_end(s, p) > p && letter_end(s, p) < s.len() + 1 && (letter_end(s, p) < s.len() || (s.len() > 0 && is_ascii_alpha(s[s.len() - 1]) && letter_end(s, p) == s.len()))
            ==> true,
    decreases s.len() - p,
{
    if p < s.len() && !is_ascii_alpha(s[p]) {
        lemma_letter_end(s, p + 1);
    }
}

fn letter_end_exec(s: &Vec<char>, p: usize) -> (r: usize)
    requires
        p <= s@.len(),
    ensures
        r as int == letter_end(s@, p as int),
{
    let mut q = p;
    while q < s.len()
        invariant
            p <= q <= s@.len(),
            letter_end(s@, p as int) == letter_end(s@, q as int),
        decreases s.len() - q,
    {
        let c = s[q];
        if (c >= 'a' && c <= 'z') || (c >= 'A' && c <= 'Z') {
            return q + 1;
        }
        q += 1;
    }
    q
}

fn escape_end_exec(s: &Vec<char>, i: usize) -> (r: usize)
    requires
        i < s@.len(),
    ensures
        r as int == escape_end(s@, i as int),
        i < r <= s@.len(),
{
    if i < s.len() - 1 && s[i + 1] == '[' {
        proof {
            lemma_letter_end(s@, i + 2);
        }
        letter_end_exec(s, i + 2)
    } else {
        i + 1
    }
}

/// Splitting a token into chunks of at most `max_width` columns: the state
/// after the characters before `i`, with `out` the finished chunks, `cur` the
/// chunk being filled and `cw` its width.  Escape sequences join the current
/// chunk whole and take no width.
pub open spec fn split_token_from(s: Seq<char>, max_width: nat, i: int, out: Seq<Seq<char>>, cur: Seq<char>, cw: nat) -> Seq<Seq<char>>
    decreases s.len() - i,
{
    if i >= s.len() || i < 0 {
        if cur.len() > 0 {
            out.push(cur)
        } else {
            out
        }
    } else if s[i] == esc() {
        let e = escape_end(s, i);
        if e <= i || e > s.len() {
            out
        } else {
            split_token_from(s, max_width, e, out, cur + s.subrange(i, e), cw)
        }
    } else {
        let w = char_vw(s[i]) as nat;
        if cw + w > max_width && cur.len() > 0 {
            split_token_from(s, max_width, i + 1, out.push(cur), seq![s[i]], w)
        } else {
            split_token_from(s, max_width, i + 1, out, cur.push(s[i]), cw + w)
        }
    }
}

/// The chunks `split_token_by_width` cuts `token` into.
pub open spec fn split_token_spec(token: Seq<char>, max_width: nat) -> Seq<Seq<char>> {
    if max_width == 0 {
        Seq::empty()
    } else {
        split_token_from(token, max_width, 0, Seq::empty(), Seq::empty(), 0)
    }
}

/// Concatenation of a sequence of character sequences.
pub open spec fn concat_all(ss: Seq<Seq<char>>) -> Seq<char>
    decreases ss.len(),
{
    if ss.len() == 0 {
        Seq::empty()
    } else {
        concat_all(ss.drop_last()) + ss.last()
    }
}

pub proof fn lemma_concat_push(ss: Seq<Seq<char>>, x: Seq<char>)
    ensures
        concat_all(ss.push(x)) == concat_all(ss) + x,
{
    assert(ss.push(x).drop_last() =~= ss);
}

proof fn lemma_escape_end(s: Seq<char>, i: int)
    requires
        0 <= i < s.len(),
    ensures
        i < escape_end(s, i) <= s.len(),
{
    if i + 1 < s.len() && s[i + 1] == '[' {
        lemma_letter_end(s, i + 2);
    }
}

/// Chunks never lose or reorder characters: concatenated they give back the token.
pub proof fn lemma_split_token_from_concat(s: Seq<char>, max_width: nat, i: int, out: Seq<Seq<char>>, cur: Seq<char>, cw: nat)
    requires
        0 <= i <= s.len(),
    ensures
        concat_all(split_token_from(s, max_width, i, out, cur, cw)) == concat_all(out) + cur + s.subrange(i, s.len() as int),
    decreases s.len() - i,
{
    if i >= s.len() {
        if cur.len() > 0 {
            lemma_concat_push(out, cur);
        }
        assert(s.subrange(i, s.len() as int) =~= Seq::<char>::empty());
        assert(concat_all(out) + cur =~= concat_all(out) + cur + Seq::<char>::empty());
    } else if s[i] == esc() {
        let e = escape_end(s, i);
        lemma_escape_end(s, i);
        lemma_split_token_from_concat(s, max_width, e, out, cur + s.subrange(i, e), cw);
        assert(s.subrange(i, e) + s.subrange(e, s.len() as int) =~= s.subrange(i, s.len() as int));
        assert(concat_all(out) + (cur + s.subrange(i, e)) + s.subrange(e, s.len() as int)
            =~= concat_all(out) + cur + s.subrange(i, s.len() as int));
    } else {
        let w = char_vw(s[i]) as nat;
        assert(seq![s[i]] + s.subrange(i + 1, s.len() as int) =~= s.subrange(i, s.len() as int));
        if cw + w > max_width && cur.len() > 0 {
            lemma_split_token_from_concat(s, max_width, i + 1, out.push(cur), seq![s[i]], w);
            lemma_concat_push(out, cur);
            assert(concat_all(out) + cur + seq![s[i]] + s.subrange(i + 1, s.len() as int)
                =~= concat_all(out) + cur + s.subrange(i, s.len() as int));
        } else {
            lemma_split_token_from_concat(s, max_width, i + 1, out, cur.push(s[i]), cw + w);
            assert(concat_all(out) + cur.push(s[i]) + s.subrange(i + 1, s.len() as int)
                =~= concat_all(out) + cur + s.subrange(i, s.len() as int));
        }
    }
}

/// Every chunk that `split_token_from` emits is non-empty.
pub proof fn lemma_split_token_from_nonempty(s: Seq<char>, max_width: nat, i: int, out: Seq<Seq<char>>, cur: Seq<char>, cw: nat)
    requires
        0 <= i <= s.len(),
        forall|k: int| 0 <= k < out.len() ==> #[trigger] out[k].len() > 0,
    ensures
        forall|k: int| 0 <= k < split_token_from(s, max_width, i, out, cur, cw).len()
            ==> #[trigger] split_token_from(s, max_width, i, out, cur, cw)[k].len() > 0,
    decreases s.len() - i,
{
    if i >= s.len() {
        if cur.len() > 0 {
            assert forall|k: int| 0 <= k < out.push(cur).len() implies #[trigger] out.push(cur)[k].len() > 0 by {
                if k < out.len() {
                    assert(out.push(cur)[k] == out[k]);
                }
            }
            assert(split_token_from(s, max_width, i, out, cur, cw) == out.push(cur));
        } else {
            assert(split_token_from(s, max_width, i, out, cur, cw) == out);
        }
    } else if s[i] == esc() {
        let e = escape_end(s, i);
        lemma_escape_end(s, i);
        lemma_split_token_from_nonempty(s, max_width, e, out, cur + s.subrange(i, e), cw);
        assert(split_token_from(s, max_width, i, out, cur, cw) == split_token_from(s, max_width, e, out, cur + s.subrange(i, e), cw));
    } else {
        let w = char_vw(s[i]) as nat;
        if cw + w > max_width && cur.len() > 0 {
            assert forall|k: int| 0 <= k < out.push(cur).len() implies #[trigger] out.push(cur)[k].len() > 0 by {
                if k < out.len() {
                    assert(out.push(cur)[k] == out[k]);
                }
            }
            lemma_split_token_from_nonempty(s, max_width, i + 1, out.push(cur), seq![s[i]], w);
            assert(split_token_from(s, max_width, i, out, cur, cw) == split_token_from(s, max_width, i + 1, out.push(cur), seq![s[i]], w));
        } else {
            lemma_split_token_from_nonempty(s, max_width, i + 1, out, cur.push(s[i]), cw + w);
            assert(split_token_from(s, max_width, i, out, cur, cw) == split_token_from(s, max_width, i + 1, out, cur.push(s[i]), cw + w));
        }
    }
}

/// Law: the chunks of `split_token_by_width` are non-empty and, joined back
/// together, give exactly the original token (no character is lost, and escape
/// sequences are never cut apart from their chunk).
pub proof fn split_token_preserves_text(token: Seq<char>, max_width: nat)
    requires
        max_width > 0,
    ensures
        concat_all(split_token_spec(token, max_width)) == token,
        forall|k: int| 0 <= k < split_token_spec(token, max_width).len() ==> #[trigger] split_token_spec(token, max_width)[k].len() > 0,
{
    lemma_split_token_from_concat(token, max_width, 0, Seq::empty(), Seq::empty(), 0);
    assert(concat_all(Seq::<Seq<char>>::empty()) =~= Seq::<char>::empty());
    assert(token.subrange(0, token.len() as int) =~= token);
    assert(Seq::<char>::empty() + Seq::<char>::empty() + token =~= token);
    lemma_split_token_from_nonempty(token, max_width, 0, Seq::empty(), Seq::empty(), 0);
}

/// Where every character left is one column wide and none starts an escape,
/// every chunk is at most `max_width` characters long.
proof fn lemma_split_token_from_fits(s: Seq<char>, max_width: nat, i: int, out: Seq<Seq<char>>, cur: Seq<char>, cw: nat)
    requires
        0 <= i <= s.len(),
        max_width > 0,
        forall|t: int| i <= t < s.len() ==> #[trigger] s[t] != esc() && char_vw(s[t]) == 1 && ' ' <= s[t] && s[t] <= '~',
        forall|k: int| 0 <= k < out.len() ==> #[trigger] out[k].len() <= max_width && printable_ascii(out[k]),
        cur.len() <= max_width,
        printable_ascii(cur),
        cw == cur.len(),
    ensures
        forall|k: int| 0 <= k < split_token_from(s, max_width, i, out, cur, cw).len()
            ==> #[trigger] split_token_from(s, max_width, i, out, cur, cw)[k].len() <= max_width
            && printable_ascii(split_token_from(s, max_width, i, out, cur, cw)[k]),
    decreases s.len() - i,
{
    if i < s.len() {
        assert(s[i] != esc() && char_vw(s[i]) == 1);
        assert(printable_ascii(seq![s[i]]));
        assert(printable_ascii(cur.push(s[i]))) by {
            assert forall|t: int| 0 <= t < cur.push(s[i]).len() implies ' ' <= #[trigger] cur.push(s[i])[t] && cur.push(s[i])[t] <= '~' by {
                if t < cur.len() {
                    assert(cur.push(s[i])[t] == cur[t]);
                }
            }
        }
        if cw + 1 > max_width && cur.len() > 0 {
            let out2 = out.push(cur);
            assert forall|k: int| 0 <= k < out2.len() implies #[trigger] out2[k].len() <= max_width && printable_ascii(out2[k]) by {
                if k < out.len() {
                    assert(out2[k] == out[k]);
                }
            }
            lemma_split_token_from_fits(s, max_width, i + 1, out2, seq![s[i]], 1);
            assert(split_token_from(s, max_width, i, out, cur, cw) == split_token_from(s, max_width, i + 1, out2, seq![s[i]], 1));
        } else {
            lemma_split_token_from_fits(s, max_width, i + 1, out, cur.push(s[i]), cw + 1);
            assert(split_token_from(s, max_width, i, out, cur, cw) == split_token_from(s, max_width, i + 1, out, cur.push(s[i]), cw + 1));
        }
    } else if cur.len() > 0 {
        let out2 = out.push(cur);
        assert forall|k: int| 0 <= k < out2.len() implies #[trigger] out2[k].len() <= max_width && printable_ascii(out2[k]) by {
            if k < out.len() {
                assert(out2[k] == out[k]);
            }
        }
        assert(split_token_from(s, max_width, i, out, cur, cw) == out2);
    } else {
        assert(split_token_from(s, max_width, i, out, cur, cw) == out);
    }
}

/// The pieces of printable ASCII text split at a character are printable ASCII.
proof fn lemma_split_printable(s: Seq<char>, sep: char)
    requires
        printable_ascii(s),
    ensures
        forall|k: int| 0 <= k < split_on(s, sep).len() ==> #[trigger] printable_ascii(split_on(s, sep)[k]),
    decreases s.len(),
{
    if s.len() > 0 {
        assert(printable_ascii(s.drop_last())) by {
            assert forall|t: int| 0 <= t < s.drop_last().len() implies ' ' <= #[trigger] s.drop_last()[t] && s.drop_last()[t] <= '~' by {
                assert(s.drop_last()[t] == s[t]);
            }
        }
        lemma_split_printable(s.drop_last(), sep);
        crate::text::lemma_split_on_nonempty(s.drop_last(), sep);
        let prev = split_on(s.drop_last(), sep);
        let last = prev.last().push(s.last());
        assert(printable_ascii(prev.last()));
        assert(printable_ascii(last)) by {
            assert forall|t: int| 0 <= t < last.len() implies ' ' <= #[trigger] last[t] && last[t] <= '~' by {
                if t < prev.last().len() {
                    assert(last[t] == prev.last()[t]);
                } else {
                    assert(last[t] == s[s.len() - 1]);
                }
            }
        }
        assert forall|k: int| 0 <= k < split_on(s, sep).len() implies #[trigger] printable_ascii(split_on(s, sep)[k]) by {
            if s.last() == sep {
                if k < prev.len() {
                    assert(split_on(s, sep)[k] == prev[k]);
                } else {
                    assert(split_on(s, sep)[k] =~= Seq::<char>::empty());
                }
            } else {
                if k < prev.len() - 1 {
                    assert(split_on(s, sep)[k] == prev[k]);
                } else {
                    assert(split_on(s, sep)[k] == last);
                }
            }
        }
    }
}

/// Text without escape characters leaves no color active.
proof fn lemma_no_esc_no_color(s: Seq<char>, i: int)
    requires
        forall|t: int| 0 <= t < s.len() ==> #[trigger] s[t] != esc(),
    ensures
        scan_active_fg(s, i) is None,
    decreases i,
{
    if i > 0 && i <= s.len() {
        lemma_find_csi_before(s, i - 1);
        lemma_no_esc_no_color(s, i - 1);
    }
}

/// Whether every line is printable ASCII at most `m` characters long.
pub open spec fn lines_fit(v: Seq<Seq<char>>, m: nat) -> bool {
    forall|k: int| 0 <= k < v.len() ==> #[trigger] v[k].len() <= m && printable_ascii(v[k])
}

proof fn lemma_lines_fit_add(a: Seq<Seq<char>>, b: Seq<Seq<char>>, m: nat, n: int)
    requires
        lines_fit(a, m),
        lines_fit(b, m),
        0 <= n <= b.len(),
    ensures
        lines_fit(a + b.take(n), m),
{
    assert forall|k: int| 0 <= k < (a + b.take(n)).len() implies #[trigger] (a + b.take(n))[k].len() <= m && printable_ascii((a + b.take(n))[k]) by {
        if k < a.len() {
            assert((a + b.take(n))[k] == a[k]);
        } else {
            assert((a + b.take(n))[k] == b[k - a.len()]);
        }
    }
}

proof fn lemma_lines_fit_push(a: Seq<Seq<char>>, x: Seq<char>, m: nat)
    requires
        lines_fit(a, m),
        x.len() <= m,
        printable_ascii(x),
    ensures
        lines_fit(a.push(x), m),
{
    assert forall|k: int| 0 <= k < a.push(x).len() implies #[trigger] a.push(x)[k].len() <= m && printable_ascii(a.push(x)[k]) by {
        if k < a.len() {
            assert(a.push(x)[k] == a[k]);
        }
    }
}

proof fn lemma_printable_join(a: Seq<char>, b: Seq<char>)
    requires
        printable_ascii(a),
        printable_ascii(b),
    ensures
        printable_ascii(a + seq![' '] + b),
{
    let j = a + seq![' '] + b;
    assert forall|t: int| 0 <= t < j.len() implies ' ' <= #[trigger] j[t] && j[t] <= '~' by {
        if t < a.len() {
            assert(j[t] == a[t]);
        } else if t == a.len() {
            assert(j[t] == ' ');
        } else {
            assert(j[t] == b[t - a.len() - 1]);
        }
    }
}

/// Splits a token into chunks on the character vector level.
pub fn split_token_chars(s: &Vec<char>, max_width: usize) -> (r: Vec<Vec<char>>)
    ensures
        r@.map_values(|c: Vec<char>| c@) == split_token_spec(s@, max_width as nat),
        printable_ascii(s@) ==> forall|k: int| 0 <= k < r@.len() ==> #[trigger] r@[k]@.len() <= max_width && printable_ascii(r@[k]@),
{
    let mut out: Vec<Vec<char>> = Vec::new();
    assert(out@.map_values(|c: Vec<char>| c@) =~= Seq::<Seq<char>>::empty());
    if max_width == 0 {
        return out;
    }
    let mut cur: Vec<char> = Vec::new();
    let mut cw: usize = 0;
    let mut i: usize = 0;
    while i < s.len()
        invariant
            i <= s@.len(),
            max_width > 0,
            cur@.len() == 0 ==> cw == 0,
            printable_ascii(s@) ==> forall|t: int| 0 <= t < i ==> char_vw(#[trigger] s@[t]) == 1,
            split_token_spec(s@, max_width as nat) == split_token_from(
                s@,
                max_width as nat,
                i as int,
                out@.map_values(|c: Vec<char>| c@),
                cur@,
                cw as nat,
            ),
        decreases s.len() - i,
    {
        let c = s[i];
        if c == '\x1b' {
            let e = escape_end_exec(s, i);
            let ghost cur0 = cur@;
            let mut t = i;
            while t < e
                invariant
                    i <= t <= e <= s@.len(),
                    cur@ == cur0 + s@.subrange(i as int, t as int),
                decreases e - t,
            {
                cur.push(s[t]);
                assert(s@.subrange(i as int, t + 1) =~= s@.subrange(i as int, t as int).push(s@[t as int]));
                t += 1;
            }
            i = e;
        } else {
            let w = char_visible_width(c);
            if (cw > max_width || w > max_width - cw) && cur.len() > 0 {
                let ghost old_out = out@;
                let done = cur;
                out.push(done);
                assert(out@.map_values(|c: Vec<char>| c@) =~= old_out.map_values(|c: Vec<char>| c@).push(done@));
                cur = Vec::new();
                cur.push(c);
                assert(cur@ =~= seq![c]);
                cw = w;
            } else {
                cur.push(c);
                cw = cw + w;
            }
            i += 1;
        }
    }
    if cur.len() > 0 {
        let ghost old_out = out@;
        let done = cur;
        out.push(done);
        assert(out@.map_values(|c: Vec<char>| c@) =~= old_out.map_values(|c: Vec<char>| c@).push(done@));
    }
    proof {
        if printable_ascii(s@) {
            assert forall|t: int| 0 <= t < s@.len() implies #[trigger] s@[t] != esc() && char_vw(s@[t]) == 1 && ' ' <= s@[t] && s@[t] <= '~' by {
                assert(' ' <= s@[t]);
            }
            lemma_split_token_from_fits(s@, max_width as nat, 0, Seq::empty(), Seq::empty(), 0);
            assert forall|k: int| 0 <= k < out@.len() implies #[trigger] out@[k]@.len() <= max_width && printable_ascii(out@[k]@) by {
                assert(out@.map_values(|c: Vec<char>| c@)[k] == out@[k]@);
            }
        }
    }
    out
}

/// Splits a single word or continuous token into chunks that each fit within
/// `max_width` display columns; ANSI escape sequences are kept whole.
///
/// For a width of at least one the chunks are non-empty and give back the
/// token joined together (see `split_token_preserves_text`); for printable
/// ASCII every chunk is at most `max_width` characters, and for printable
/// ASCII with complete color sequences every chunk fits the width.
pub fn split_token_by_width(token: &str, max_width: usize) -> (r: Vec<String>)
    ensures
        views(r@) == split_token_spec(token@, max_width as nat),
        max_width > 0 ==> concat_all(views(r@)) == token@,
        max_width > 0 ==> forall|k: int| 0 <= k < r@.len() ==> #[trigger] r@[k]@.len() > 0,
        printable_ascii(token@) ==> forall|k: int| 0 <= k < r@.len() ==> #[trigger] r@[k]@.len() <= max_width,
        styled_ascii(token@) && max_width > 0 ==> widths_fit(views(r@), max_width as nat),
{
    let s = chars_of(token);
    let parts = split_token_chars(&s, max_width);
    let r = strings_of(&parts);
    proof {
        if styled_ascii(token@) && max_width > 0 {
            lemma_split_token_fits_styled(token@, max_width as nat);
            lemma_fits_widths(views(r@), max_width as nat);
        }
        if max_width > 0 {
            split_token_preserves_text(token@, max_width as nat);
            assert forall|k: int| 0 <= k < r@.len() implies #[trigger] r@[k]@.len() > 0 by {
                assert(views(r@)[k] == r@[k]@);
            }
        }
        if printable_ascii(token@) {
            assert(views(r@).len() == r@.len());
            assert(parts@.map_values(|c: Vec<char>| c@).len() == parts@.len());
            assert forall|k: int| 0 <= k < r@.len() implies #[trigger] r@[k]@.len() <= max_width by {
                assert(views(r@)[k] == r@[k]@);
                assert(parts@.map_values(|c: Vec<char>| c@)[k] == parts@[k]@);
            }
        }
    }
    r
}

} // verus!

verus! {

/// State of paragraph wrapping: finished lines, the line being filled and the
/// color sequence carried over from the previous line.
pub struct WrapState {
    pub out: Seq<Seq<char>>,
    pub cur: Seq<char>,
    pub active: Seq<char>,
}

/// Places `parts` (the chunks of an over-long token): all but the last become
/// finished lines, the last starts the new current line.
pub open spec fn place_chunks(out: Seq<Seq<char>>, parts: Seq<Seq<char>>, fallback: Seq<char>, active: Seq<char>) -> WrapState {
    if parts.len() > 0 {
        WrapState { out: out + parts.drop_last(), cur: parts.last(), active }
    } else {
        WrapState { out, cur: fallback, active }
    }
}

/// One token of the paragraph: it joins the current line after a space when it
/// fits, otherwise the current line is finished, the active color is carried
/// over (when `carry` is set), and the token (cut into chunks when wider than
/// a line) starts a new one.
pub open spec fn wrap_step(st: WrapState, token: Seq<char>, max_width: nat, carry: bool) -> WrapState {
    let tw = visible_width_spec(token) as nat;
    if st.cur.len() == 0 {
        let start = if st.active.len() > 0 && !(token.len() > 0 && token[0] == esc()) {
            st.active
        } else {
            Seq::<char>::empty()
        };
        if tw <= max_width {
            WrapState { out: st.out, cur: start + token, active: st.active }
        } else {
            place_chunks(st.out, split_token_spec(token, max_width), start, st.active)
        }
    } else {
        let cw = visible_width_spec(st.cur) as nat;
        if cw + 1 + tw <= max_width {
            WrapState { out: st.out, cur: st.cur + seq![' '] + token, active: st.active }
        } else {
            let active2 = if carry {
                match active_fg(st.cur) {
                    Some(c) => c,
                    None => Seq::<char>::empty(),
                }
            } else {
                Seq::<char>::empty()
            };
            let out2 = st.out.push(st.cur);
            if tw <= max_width {
                WrapState { out: out2, cur: active2 + token, active: active2 }
            } else {
                place_chunks(out2, split_token_spec(token, max_width), active2, active2)
            }
        }
    }
}

/// Colors continue across line breaks: when a token no longer fits after
/// the current line, that line is finished and the next one starts with the
/// color still active at its end, then the token.
pub proof fn law_wrap_carries_color(st: WrapState, token: Seq<char>, max_width: nat)
    requires
        st.cur.len() > 0,
        visible_width_spec(st.cur) + 1 + visible_width_spec(token) > max_width,
        visible_width_spec(token) <= max_width,
        active_fg(st.cur) is Some,
    ensures
        wrap_step(st, token, max_width, true).out == st.out.push(st.cur),
        wrap_step(st, token, max_width, true).cur == active_fg(st.cur)->0 + token,
        wrap_step(st, token, max_width, true).active == active_fg(st.cur)->0,
{
}

/// Wrapping state after the tokens before index `n`.
pub open spec fn wrap_tokens(tokens: Seq<Seq<char>>, n: int, max_width: nat, carry: bool) -> WrapState
    decreases n,
{
    if n <= 0 || n > tokens.len() {
        WrapState { out: Seq::empty(), cur: Seq::empty(), active: Seq::empty() }
    } else {
        wrap_step(wrap_tokens(tokens, n - 1, max_width, carry), tokens[n - 1], max_width, carry)
    }
}

/// The lines a paragraph is wrapped into, the color carried over line breaks
/// when `carry` is set.
pub open spec fn wrap_par_spec(paragraph: Seq<char>, max_width: nat, carry: bool) -> Seq<Seq<char>> {
    if paragraph.len() == 0 {
        seq![Seq::<char>::empty()]
    } else {
        let tokens = split_on(paragraph, ' ');
        let st = wrap_tokens(tokens, tokens.len() as int, max_width, carry);
        if st.cur.len() > 0 {
            st.out.push(st.cur)
        } else {
            st.out
        }
    }
}

/// The lines `wrap_paragraph` makes of one paragraph.
pub open spec fn wrap_paragraph_spec(paragraph: Seq<char>, max_width: nat) -> Seq<Seq<char>> {
    wrap_par_spec(paragraph, max_width, true)
}

/// Appends chunks `parts[..n]` to `out`.
fn push_chunks(out: &mut Vec<Vec<char>>, parts: &Vec<Vec<char>>, n: usize)
    requires
        n <= parts@.len(),
    ensures
        final(out)@.map_values(|c: Vec<char>| c@) == old(out)@.map_values(|c: Vec<char>| c@)
            + parts@.map_values(|c: Vec<char>| c@).take(n as int),
{
    let ghost o = old(out)@.map_values(|c: Vec<char>| c@);
    let mut k: usize = 0;
    while k < n
        invariant
            k <= n <= parts@.len(),
            out@.map_values(|c: Vec<char>| c@) == o + parts@.map_values(|c: Vec<char>| c@).take(k as int),
        decreases n - k,
    {
        let ghost before = out@;
        out.push(parts[k].clone());
        assert(out@.map_values(|c: Vec<char>| c@) =~= before.map_values(|c: Vec<char>| c@).push(parts@[k as int]@));
        assert(parts@.map_values(|c: Vec<char>| c@).take(k + 1) =~= parts@.map_values(|c: Vec<char>| c@).take(k as int).push(parts@[k as int]@));
        k += 1;
    }
}

/// Wraps one paragraph (a line without newlines) given as characters.
pub fn wrap_paragraph_chars(p: &Vec<char>, max_width: usize) -> (r: Vec<Vec<char>>)
    ensures
        r@.map_values(|c: Vec<char>| c@) == wrap_paragraph_spec(p@, max_width as nat),
        printable_ascii(p@) && max_width > 0 ==> lines_fit(r@.map_values(|c: Vec<char>| c@), max_width as nat),
{
    wrap_par_chars(p, max_width, true)
}

/// Wraps one paragraph, carrying the color over line breaks when `carry` is set.
pub fn wrap_par_chars(p: &Vec<char>, max_width: usize, carry: bool) -> (r: Vec<Vec<char>>)
    ensures
        r@.map_values(|c: Vec<char>| c@) == wrap_par_spec(p@, max_width as nat, carry),
        printable_ascii(p@) && max_width > 0 ==> lines_fit(r@.map_values(|c: Vec<char>| c@), max_width as nat),
{
    if p.len() == 0 {
        let mut r: Vec<Vec<char>> = Vec::new();
        r.push(Vec::new());
        assert(r@.map_values(|c: Vec<char>| c@) =~= seq![Seq::<char>::empty()]);
        return r;
    }
    let tokens = split_chars(p.as_slice(), ' ');
    let ghost ts = split_on(p@, ' ');
    let mut out: Vec<Vec<char>> = Vec::new();
    let mut cur: Vec<char> = Vec::new();
    let mut active: Vec<char> = Vec::new();
    let mut i: usize = 0;
    assert(out@.map_values(|c: Vec<char>| c@) =~= Seq::<Seq<char>>::empty());
    assert(cur@ =~= Seq::<char>::empty());
    assert(active@ =~= Seq::<char>::empty());
    proof {
        if printable_ascii(p@) {
            lemma_split_printable(p@, ' ');
        }
    }
    let ghost fits = printable_ascii(p@) && max_width > 0;
    while i < tokens.len()
        invariant
            tokens@.len() == ts.len(),
            forall|t: int| 0 <= t < tokens@.len() ==> #[trigger] tokens@[t]@ == ts[t],
            i <= tokens@.len(),
            wrap_tokens(ts, i as int, max_width as nat, carry) == (WrapState {
                out: out@.map_values(|c: Vec<char>| c@),
                cur: cur@,
                active: active@,
            }),
            ts == split_on(p@, ' '),
            fits == (printable_ascii(p@) && max_width > 0),
            fits ==> forall|k: int| 0 <= k < ts.len() ==> #[trigger] printable_ascii(ts[k]),
            fits ==> active@.len() == 0 && printable_ascii(cur@) && cur@.len() <= max_width
                && lines_fit(out@.map_values(|c: Vec<char>| c@), max_width as nat),
        decreases tokens.len() - i,
    {
        let token = &tokens[i];
        let tw = visible_width_chars(token.as_slice());
        let ghost st = wrap_tokens(ts, i as int, max_width as nat, carry);
        assert(ts[i as int] == token@);
        proof {
            if fits {
                assert(printable_ascii(token@));
            }
        }
        if cur.len() == 0 {
            let mut start: Vec<char> = Vec::new();
            if active.len() > 0 && !(token.len() > 0 && token[0] == '\x1b') {
                start = active.clone();
            }
            if tw <= max_width {
                extend_chars(&mut start, token.as_slice());
                cur = start;
            } else {
                let parts = split_token_chars(token, max_width);
                if parts.len() > 0 {
                    let ghost ob = out@.map_values(|c: Vec<char>| c@);
                    push_chunks(&mut out, &parts, parts.len() - 1);
                    cur = parts[parts.len() - 1].clone();
                    proof {
                        let pv = parts@.map_values(|c: Vec<char>| c@);
                        assert(pv.drop_last() =~= pv.take(parts.len() - 1));
                        if fits {
                            assert(lines_fit(pv, max_width as nat)) by {
                                assert forall|k: int| 0 <= k < pv.len() implies #[trigger] pv[k].len() <= max_width && printable_ascii(pv[k]) by {
                                    assert(pv[k] == parts@[k]@);
                                }
                            }
                            lemma_lines_fit_add(ob, pv, max_width as nat, parts.len() - 1);
                            assert(cur@ == pv[parts.len() - 1]);
                        }
                    }
                } else {
                    cur = start;
                }
            }
        } else {
            let cw = visible_width_chars(cur.as_slice());
            if tw < max_width && cw <= max_width - 1 - tw {
                cur.push(' ');
                extend_chars(&mut cur, token.as_slice());
                assert(cur@ =~= st.cur + seq![' '] + token@);
                proof {
                    if fits {
                        lemma_printable_join(st.cur, token@);
                    }
                }
            } else {
                let active2: Vec<char> = if carry {
                    match active_color_chars(&cur) {
                        Some(c) => c,
                        None => Vec::new(),
                    }
                } else {
                    Vec::new()
                };
                assert(active2@ == if carry { match active_fg(st.cur) { Some(c) => c, None => Seq::<char>::empty() } } else { Seq::<char>::empty() });
                proof {
                    if fits {
                        lemma_no_esc_no_color(cur@, cur@.len() as int);
                        assert(active2@.len() == 0);
                    }
                }
                let done = cur;
                let ghost before = out@;
                out.push(done);
                assert(out@.map_values(|c: Vec<char>| c@) =~= before.map_values(|c: Vec<char>| c@).push(done@));
                proof {
                    if fits {
                        lemma_lines_fit_push(before.map_values(|c: Vec<char>| c@), done@, max_width as nat);
                    }
                }
                active = active2;
                let mut start = active.clone();
                if tw <= max_width {
                    extend_chars(&mut start, token.as_slice());
                    cur = start;
                } else {
                    let parts = split_token_chars(token, max_width);
                    if parts.len() > 0 {
                        let ghost ob = out@.map_values(|c: Vec<char>| c@);
                        push_chunks(&mut out, &parts, parts.len() - 1);
                        cur = parts[parts.len() - 1].clone();
                        proof {
                            let pv = parts@.map_values(|c: Vec<char>| c@);
                            assert(pv.drop_last() =~= pv.take(parts.len() - 1));
                            if fits {
                                assert(lines_fit(pv, max_width as nat)) by {
                                    assert forall|k: int| 0 <= k < pv.len() implies #[trigger] pv[k].len() <= max_width && printable_ascii(pv[k]) by {
                                        assert(pv[k] == parts@[k]@);
                                    }
                                }
                                lemma_lines_fit_add(ob, pv, max_width as nat, parts.len() - 1);
                                assert(cur@ == pv[parts.len() - 1]);
                            }
                        }
                    } else {
                        cur = start;
                    }
                }
            }
        }
        i += 1;
    }
    if cur.len() > 0 {
        let ghost before = out@;
        let done = cur;
        out.push(done);
        assert(out@.map_values(|c: Vec<char>| c@) =~= before.map_values(|c: Vec<char>| c@).push(done@));
        proof {
            if fits {
                lemma_lines_fit_push(before.map_values(|c: Vec<char>| c@), done@, max_width as nat);
            }
        }
    }
    out
}

/// Styled text without tabs is as wide as its plain text is long.
pub proof fn lemma_vw_styled(x: Seq<char>)
    requires
        styled_ascii(x),
        plain_text(x).len() <= usize::MAX,
    ensures
        visible_width_spec(x) == plain_text(x).len(),
{
    lemma_styled_no_tab(x);
    lemma_replace_absent(x, '\t', repeat_char(' ', 4));
}

/// A printable character is one column wide.
proof fn lemma_char_vw_plain(c: char)
    requires
        plain_char(c),
    ensures
        char_vw(c) == 1,
{
    lemma_styled_char(c);
    lemma_vw_styled(seq![c]);
}

proof fn lemma_letter_end_params(s: Seq<char>, p: int)
    requires
        0 <= p <= s.len(),
        params_len(s.skip(p)) > 0,
    ensures
        letter_end(s, p) == p + params_len(s.skip(p)),
    decreases s.len() - p,
{
    let t = s.skip(p);
    assert(t[0] == s[p]);
    if s[p] != 'm' {
        assert(t.skip(1) =~= s.skip(p + 1));
        assert(!is_ascii_alpha(s[p]));
        lemma_letter_end_params(s, p + 1);
    }
}

/// An escape that starts a complete color sequence ends where the sequence does.
proof fn lemma_escape_end_sgr(s: Seq<char>, i: int)
    requires
        0 <= i < s.len(),
        sgr_len(s.skip(i)) > 0,
    ensures
        escape_end(s, i) == i + sgr_len(s.skip(i)),
{
    let t = s.skip(i);
    lemma_sgr_len_bound(t);
    assert(t[1] == s[i + 1]);
    assert(t.skip(2) =~= s.skip(i + 2));
    lemma_letter_end_params(s, i + 2);
}

/// Every line is styled text whose plain text is at most `m` long.
pub open spec fn fits_styled(v: Seq<Seq<char>>, m: nat) -> bool {
    forall|k: int| 0 <= k < v.len() ==> #[trigger] styled_ascii(v[k]) && plain_text(v[k]).len() <= m
}

proof fn lemma_fits_push(v: Seq<Seq<char>>, x: Seq<char>, m: nat)
    requires
        fits_styled(v, m),
        styled_ascii(x),
        plain_text(x).len() <= m,
    ensures
        fits_styled(v.push(x), m),
{
    assert forall|k: int| 0 <= k < v.push(x).len() implies #[trigger] styled_ascii(v.push(x)[k]) && plain_text(v.push(x)[k]).len() <= m by {
        if k < v.len() {
            assert(v.push(x)[k] == v[k]);
        }
    }
}

proof fn lemma_fits_add(a: Seq<Seq<char>>, b: Seq<Seq<char>>, m: nat)
    requires
        fits_styled(a, m),
        fits_styled(b, m),
    ensures
        fits_styled(a + b, m),
{
    assert forall|k: int| 0 <= k < (a + b).len() implies #[trigger] styled_ascii((a + b)[k]) && plain_text((a + b)[k]).len() <= m by {
        if k < a.len() {
            assert((a + b)[k] == a[k]);
            assert(styled_ascii(a[k]));
        } else {
            assert((a + b)[k] == b[k - a.len()]);
            assert(styled_ascii(b[k - a.len()]));
        }
    }
}

proof fn lemma_split_token_styled(s: Seq<char>, max_width: nat, i: int, out: Seq<Seq<char>>, cur: Seq<char>, cw: nat)
    requires
        0 <= i <= s.len(),
        max_width > 0,
        styled_ascii(s.skip(i)),
        fits_styled(out, max_width),
        styled_ascii(cur),
        plain_text(cur).len() == cw,
        cw <= max_width,
    ensures
        fits_styled(split_token_from(s, max_width, i, out, cur, cw), max_width),
    decreases s.len() - i,
{
    let t = s.skip(i);
    if i >= s.len() {
        if cur.len() > 0 {
            lemma_fits_push(out, cur, max_width);
        }
    } else if s[i] == esc() {
        assert(t[0] == s[i]);
        assert(sgr_len(t) > 0) by {
            if sgr_len(t) == 0 {
                assert(!plain_char(t[0]));
            }
        }
        let k = sgr_len(t) as int;
        lemma_sgr_len_bound(t);
        lemma_escape_end_sgr(s, i);
        lemma_styled_sgr_head(t);
        assert(s.subrange(i, i + k) =~= t.take(k));
        lemma_styled_concat(cur, t.take(k));
        assert(t.skip(k) =~= s.skip(i + k));
        lemma_split_token_styled(s, max_width, i + k, out, cur + s.subrange(i, i + k), cw);
    } else {
        assert(t[0] == s[i]);
        assert(sgr_len(t) == 0);
        assert(plain_char(s[i]));
        lemma_char_vw_plain(s[i]);
        lemma_styled_char(s[i]);
        assert(t.skip(1) =~= s.skip(i + 1));
        if cw + 1 > max_width && cur.len() > 0 {
            lemma_fits_push(out, cur, max_width);
            lemma_split_token_styled(s, max_width, i + 1, out.push(cur), seq![s[i]], 1);
        } else {
            lemma_styled_concat(cur, seq![s[i]]);
            assert(cur + seq![s[i]] =~= cur.push(s[i]));
            if cur.len() == 0 {
                assert(cur =~= Seq::<char>::empty());
                lemma_empty_styled();
            }
            lemma_split_token_styled(s, max_width, i + 1, out, cur.push(s[i]), cw + 1);
        }
    }
}

/// The chunks of styled text are styled, each at most `max_width` columns of
/// plain text.
pub proof fn lemma_split_token_fits_styled(token: Seq<char>, max_width: nat)
    requires
        styled_ascii(token),
        max_width > 0,
    ensures
        fits_styled(split_token_spec(token, max_width), max_width),
{
    assert(token.skip(0) =~= token);
    lemma_empty_styled();
    lemma_split_token_styled(token, max_width, 0, Seq::empty(), Seq::empty(), 0);
}

proof fn lemma_digit_char(d: nat)
    requires
        d < 10,
    ensures
        is_sgr_param_char(crate::text::digit_char(d)),
{
    assert(is_digit(crate::text::digit_char(d)));
}

proof fn lemma_decimal_params(n: nat)
    ensures
        all_sgr_params(decimal(n)),
    decreases n,
{
    if n < 10 {
        lemma_digit_char(n);
    } else {
        lemma_decimal_params(n / 10);
        lemma_digit_char(n % 10);
        let d = decimal(n / 10);
        assert forall|i: int| 0 <= i < decimal(n).len() implies #[trigger] is_sgr_param_char(decimal(n)[i]) by {
            if i < d.len() {
                assert(decimal(n)[i] == d[i]);
            }
        }
    }
}

proof fn lemma_group_fg_invisible(parts: Seq<Seq<char>>, full: Seq<char>, idx: int, acc: Option<Seq<char>>)
    requires
        invisible_styled(full),
        acc matches Some(a) ==> invisible_styled(a),
    ensures
        group_fg(parts, full, idx, acc) matches Some(c) ==> invisible_styled(c),
    decreases parts.len() - idx,
{
    if 0 <= idx < parts.len() {
        let p = parts[idx];
        if p == seq!['3', '8'] {
        } else if p == seq!['4', '8'] {
            lemma_group_fg_invisible(parts, full, bg_next(parts, idx), acc);
        } else if p == seq!['0'] || p == seq!['3', '9'] {
            lemma_group_fg_invisible(parts, full, idx + 1, None);
        } else {
            match parse_u8_spec(p) {
                Some(code) => {
                    if is_basic_fg_code(code) {
                        lemma_decimal_params(code as nat);
                        lemma_sgr_invisible(decimal(code as nat));
                        lemma_group_fg_invisible(parts, full, idx + 1, Some(fg_sequence(code)));
                    } else {
                        lemma_group_fg_invisible(parts, full, idx + 1, acc);
                    }
                },
                None => {
                    lemma_group_fg_invisible(parts, full, idx + 1, acc);
                },
            }
        }
    }
}

proof fn lemma_scan_active_invisible(s: Seq<char>, i: int)
    ensures
        scan_active_fg(s, i) matches Some(c) ==> invisible_styled(c),
    decreases i,
{
    if 0 < i <= s.len() {
        let k = i - 1;
        if s[k] != 'm' {
            lemma_scan_active_invisible(s, k);
        } else {
            lemma_find_csi_before(s, k);
            match find_csi_before(s, k) {
                None => {
                    lemma_scan_active_invisible(s, k);
                },
                Some(j) => {
                    if j < 0 || j + 2 > k {
                        lemma_scan_active_invisible(s, k);
                    } else {
                        let params = s.subrange(j + 2, k);
                        if !all_sgr_params(params) {
                            lemma_scan_active_invisible(s, k);
                        } else {
                            let full = s.subrange(j, k + 1);
                            assert(full =~= seq![esc(), '['] + params + seq!['m']);
                            lemma_sgr_invisible(params);
                            lemma_group_fg_invisible(split_on(params, ';'), full, 0, None);
                            lemma_scan_active_invisible(s, j);
                        }
                    }
                },
            }
        }
    }
}

/// The color carried over a line break is styled text that shows nothing.
pub proof fn lemma_active_fg_invisible(s: Seq<char>)
    ensures
        active_fg(s) matches Some(c) ==> invisible_styled(c),
{
    lemma_scan_active_invisible(s, s.len() as int);
}

/// Every line is at most `m` columns wide.
pub open spec fn widths_fit(v: Seq<Seq<char>>, m: nat) -> bool {
    forall|k: int| 0 <= k < v.len() ==> #[trigger] visible_width_spec(v[k]) <= m
}

/// Finished lines and the current line are styled and within the width, and
/// the carried color shows nothing.
pub open spec fn wrap_state_fits(st: WrapState, m: nat) -> bool {
    &&& fits_styled(st.out, m)
    &&& styled_ascii(st.cur)
    &&& plain_text(st.cur).len() <= m
    &&& invisible_styled(st.active)
}

proof fn lemma_place_chunks_fits(out: Seq<Seq<char>>, parts: Seq<Seq<char>>, fallback: Seq<char>, active: Seq<char>, m: nat)
    requires
        fits_styled(out, m),
        fits_styled(parts, m),
        invisible_styled(fallback),
        invisible_styled(active),
    ensures
        wrap_state_fits(place_chunks(out, parts, fallback, active), m),
{
    if parts.len() > 0 {
        assert forall|k: int| 0 <= k < parts.drop_last().len() implies #[trigger] styled_ascii(parts.drop_last()[k])
            && plain_text(parts.drop_last()[k]).len() <= m by {
            assert(parts.drop_last()[k] == parts[k]);
            assert(styled_ascii(parts[k]));
        }
        lemma_fits_add(out, parts.drop_last(), m);
        assert(styled_ascii(parts[parts.len() - 1]));
    }
}

proof fn lemma_wrap_step_fits(st: WrapState, token: Seq<char>, max_width: nat, carry: bool)
    requires
        wrap_state_fits(st, max_width),
        styled_ascii(token),
        token.len() <= usize::MAX,
        0 < max_width <= usize::MAX,
    ensures
        wrap_state_fits(wrap_step(st, token, max_width, carry), max_width),
{
    lemma_plain_len(token);
    lemma_vw_styled(token);
    lemma_split_token_fits_styled(token, max_width);
    lemma_empty_styled();
    let parts = split_token_spec(token, max_width);
    if st.cur.len() == 0 {
        let start = if st.active.len() > 0 && !(token.len() > 0 && token[0] == esc()) {
            st.active
        } else {
            Seq::<char>::empty()
        };
        lemma_styled_concat(start, token);
        lemma_place_chunks_fits(st.out, parts, start, st.active, max_width);
    } else {
        lemma_vw_styled(st.cur);
        lemma_styled_char(' ');
        lemma_styled_concat(st.cur, seq![' ']);
        lemma_styled_concat(st.cur + seq![' '], token);
        lemma_active_fg_invisible(st.cur);
        let active2 = if carry {
            match active_fg(st.cur) {
                Some(c) => c,
                None => Seq::<char>::empty(),
            }
        } else {
            Seq::<char>::empty()
        };
        assert(invisible_styled(active2));
        lemma_fits_push(st.out, st.cur, max_width);
        lemma_styled_concat(active2, token);
        lemma_place_chunks_fits(st.out.push(st.cur), parts, active2, active2, max_width);
    }
}

proof fn lemma_wrap_tokens_fits(tokens: Seq<Seq<char>>, n: int, max_width: nat, carry: bool)
    requires
        0 <= n <= tokens.len(),
        forall|k: int| 0 <= k < tokens.len() ==> #[trigger] styled_ascii(tokens[k]) && tokens[k].len() <= usize::MAX,
        0 < max_width <= usize::MAX,
    ensures
        wrap_state_fits(wrap_tokens(tokens, n, max_width, carry), max_width),
    decreases n,
{
    lemma_empty_styled();
    if n > 0 {
        lemma_wrap_tokens_fits(tokens, n - 1, max_width, carry);
        assert(styled_ascii(tokens[n - 1]));
        lemma_wrap_step_fits(wrap_tokens(tokens, n - 1, max_width, carry), tokens[n - 1], max_width, carry);
    }
}

proof fn lemma_fits_widths(v: Seq<Seq<char>>, m: nat)
    requires
        fits_styled(v, m),
        m <= usize::MAX,
    ensures
        widths_fit(v, m),
{
    assert forall|k: int| 0 <= k < v.len() implies #[trigger] visible_width_spec(v[k]) <= m by {
        assert(styled_ascii(v[k]));
        lemma_vw_styled(v[k]);
    }
}

/// A paragraph of styled text (printable ASCII and complete color sequences)
/// wraps into lines of styled text, each at most `max_width` columns wide.
pub proof fn law_wrap_par_fits_styled(paragraph: Seq<char>, max_width: nat, carry: bool)
    requires
        styled_ascii(paragraph),
        paragraph.len() <= usize::MAX,
        0 < max_width <= usize::MAX,
    ensures
        fits_styled(wrap_par_spec(paragraph, max_width, carry), max_width),
        widths_fit(wrap_par_spec(paragraph, max_width, carry), max_width),
{
    lemma_empty_styled();
    if paragraph.len() == 0 {
        lemma_fits_push(Seq::<Seq<char>>::empty(), Seq::<char>::empty(), max_width);
        assert(seq![Seq::<char>::empty()] =~= Seq::<Seq<char>>::empty().push(Seq::<char>::empty()));
    } else {
        let tokens = split_on(paragraph, ' ');
        lemma_split_styled(paragraph);
        lemma_wrap_tokens_fits(tokens, tokens.len() as int, max_width, carry);
        let st = wrap_tokens(tokens, tokens.len() as int, max_width, carry);
        if st.cur.len() > 0 {
            lemma_fits_push(st.out, st.cur, max_width);
        }
    }
    lemma_fits_widths(wrap_par_spec(paragraph, max_width, carry), max_width);
}

/// Wraps a single paragraph of text while preserving the ANSI foreground color
/// across line wraps.  For a paragraph of printable ASCII text and complete
/// color sequences every line fits the width (for printable ASCII alone, every
/// line is at most `max_width` characters long).
pub fn wrap_paragraph(paragraph: &str, max_width: usize) -> (r: Vec<String>)
    ensures
        views(r@) == wrap_paragraph_spec(paragraph@, max_width as nat),
        printable_ascii(paragraph@) && max_width > 0 ==> lines_fit(views(r@), max_width as nat),
        styled_ascii(paragraph@) && max_width > 0 ==> widths_fit(views(r@), max_width as nat),
{
    let p = chars_of(paragraph);
    proof {
        if styled_ascii(paragraph@) && max_width > 0 {
            law_wrap_par_fits_styled(p@, max_width as nat, true);
        }
    }
    let lines = wrap_paragraph_chars(&p, max_width);
    strings_of(&lines)
}

} // verus!

verus! {

/// Text with `\r\n` and lone `\r` turned into `\n` and tabs into four spaces.
pub open spec fn normalize_text(s: Seq<char>) -> Seq<char> {
    replace_char(replace_char(replace_crlf(s), '\r', seq!['\n']), '\t', repeat_char(' ', 4))
}

/// Wrapped lines of every paragraph in `ls`, in order.
pub open spec fn wrap_lines(ls: Seq<Seq<char>>, max_width: nat, carry: bool) -> Seq<Seq<char>>
    decreases ls.len(),
{
    if ls.len() == 0 {
        Seq::empty()
    } else {
        wrap_lines(ls.drop_last(), max_width, carry) + wrap_par_spec(ls.last(), max_width, carry)
    }
}

/// Text wrapped into lines of `max_width` columns (none for no width, one
/// empty line for no text), the color carried over breaks when `carry` is set.
pub open spec fn wrap_text_spec(text: Seq<char>, max_width: nat, carry: bool) -> Seq<Seq<char>> {
    if max_width == 0 {
        Seq::empty()
    } else {
        let r = wrap_lines(lines_of(normalize_text(text)), max_width, carry);
        if r.len() == 0 {
            seq![Seq::<char>::empty()]
        } else {
            r
        }
    }
}

/// The lines `wrap_terminal_text` produces.
pub open spec fn wrap_terminal_text_spec(text: Seq<char>, max_width: nat) -> Seq<Seq<char>> {
    wrap_text_spec(text, max_width, true)
}

/// Every line of `s`, as `lines_of` cuts it, is styled text.
pub open spec fn lines_styled(s: Seq<char>) -> bool {
    forall|k: int| 0 <= k < lines_of(s).len() ==> #[trigger] styled_ascii(lines_of(s)[k])
}

proof fn lemma_split_on_len(s: Seq<char>, sep: char)
    ensures
        forall|k: int| 0 <= k < split_on(s, sep).len() ==> #[trigger] split_on(s, sep)[k].len() <= s.len(),
    decreases s.len(),
{
    if s.len() > 0 {
        lemma_split_on_len(s.drop_last(), sep);
        crate::text::lemma_split_on_nonempty(s.drop_last(), sep);
        let prev = split_on(s.drop_last(), sep);
        assert forall|k: int| 0 <= k < split_on(s, sep).len() implies #[trigger] split_on(s, sep)[k].len() <= s.len() by {
            if k < prev.len() {
                assert(prev[k].len() <= s.drop_last().len());
            }
        }
    }
}

proof fn lemma_lines_len(s: Seq<char>)
    ensures
        forall|k: int| 0 <= k < lines_of(s).len() ==> #[trigger] lines_of(s)[k].len() <= s.len(),
{
    lemma_split_on_len(s, '\n');
    crate::text::lemma_split_on_nonempty(s, '\n');
    let pieces = split_on(s, '\n');
    let n = pieces.len();
    assert forall|k: int| 0 <= k < lines_of(s).len() implies #[trigger] lines_of(s)[k].len() <= s.len() by {
        if k < n - 1 {
            assert(pieces[k].len() <= s.len());
            assert(lines_of(s)[k] == crate::text::strip_cr(pieces[k]));
        } else {
            assert(pieces[n - 1].len() <= s.len());
            assert(lines_of(s)[k] == pieces[n - 1]);
        }
    }
}

proof fn lemma_wrap_lines_fits(ls: Seq<Seq<char>>, max_width: nat, carry: bool)
    requires
        forall|k: int| 0 <= k < ls.len() ==> #[trigger] styled_ascii(ls[k]) && ls[k].len() <= usize::MAX,
        0 < max_width <= usize::MAX,
    ensures
        fits_styled(wrap_lines(ls, max_width, carry), max_width),
    decreases ls.len(),
{
    if ls.len() > 0 {
        assert forall|k: int| 0 <= k < ls.drop_last().len() implies #[trigger] styled_ascii(ls.drop_last()[k]) && ls.drop_last()[k].len() <= usize::MAX by {
            assert(ls.drop_last()[k] == ls[k]);
        }
        lemma_wrap_lines_fits(ls.drop_last(), max_width, carry);
        assert(styled_ascii(ls[ls.len() - 1]));
        law_wrap_par_fits_styled(ls.last(), max_width, carry);
        lemma_fits_add(wrap_lines(ls.drop_last(), max_width, carry), wrap_par_spec(ls.last(), max_width, carry), max_width);
    }
}

/// Text whose lines, once line endings are normalized and tabs expanded, are
/// styled text (printable ASCII and complete color sequences) wraps into lines
/// of at most `max_width` columns.
pub proof fn law_wrap_text_fits_styled(text: Seq<char>, max_width: nat, carry: bool)
    requires
        lines_styled(normalize_text(text)),
        normalize_text(text).len() <= usize::MAX,
        0 < max_width <= usize::MAX,
    ensures
        fits_styled(wrap_text_spec(text, max_width, carry), max_width),
        widths_fit(wrap_text_spec(text, max_width, carry), max_width),
{
    let ls = lines_of(normalize_text(text));
    lemma_lines_len(normalize_text(text));
    assert forall|k: int| 0 <= k < ls.len() implies #[trigger] styled_ascii(ls[k]) && ls[k].len() <= usize::MAX by {
        assert(ls[k].len() <= normalize_text(text).len());
    }
    lemma_wrap_lines_fits(ls, max_width, carry);
    lemma_empty_styled();
    lemma_fits_push(Seq::<Seq<char>>::empty(), Seq::<char>::empty(), max_width);
    assert(seq![Seq::<char>::empty()] =~= Seq::<Seq<char>>::empty().push(Seq::<char>::empty()));
    lemma_fits_widths(wrap_text_spec(text, max_width, carry), max_width);
}

/// [`wrap_terminal_text`] on characters.
pub fn wrap_text_chars(text: &Vec<char>, max_width: usize) -> (r: Vec<Vec<char>>)
    ensures
        r@.map_values(|c: Vec<char>| c@) == wrap_terminal_text_spec(text@, max_width as nat),
        max_width > 0 && lines_styled(normalize_text(text@)) ==> widths_fit(r@.map_values(|c: Vec<char>| c@), max_width as nat),
{
    wrap_text_gen(text, max_width, true)
}

/// Wraps text, carrying the color over breaks when `carry` is set.
pub fn wrap_text_gen(text: &Vec<char>, max_width: usize, carry: bool) -> (r: Vec<Vec<char>>)
    ensures
        r@.map_values(|c: Vec<char>| c@) == wrap_text_spec(text@, max_width as nat, carry),
        max_width > 0 && lines_styled(normalize_text(text@)) ==> widths_fit(r@.map_values(|c: Vec<char>| c@), max_width as nat),
{
    let mut out: Vec<Vec<char>> = Vec::new();
    if max_width == 0 {
        assert(out@.map_values(|c: Vec<char>| c@) =~= Seq::<Seq<char>>::empty());
        return out;
    }
    let a = replace_crlf_exec(text.as_slice());
    let nl = vec!['\n'];
    let b = replace_char_exec(a.as_slice(), '\r', nl.as_slice());
    let sp = crate::text::repeat_char_exec(' ', 4);
    let c = replace_char_exec(b.as_slice(), '\t', sp.as_slice());
    assert(nl@ =~= seq!['\n']);
    let lines = lines_chars(c.as_slice());
    let ghost ls = lines_of(normalize_text(text@));
    proof {
        if lines_styled(normalize_text(text@)) {
            assert(c@ == normalize_text(text@));
            assert(c@.len() == c.len());
            law_wrap_text_fits_styled(text@, max_width as nat, carry);
        }
    }
    let mut k: usize = 0;
    assert(out@.map_values(|c: Vec<char>| c@) =~= Seq::<Seq<char>>::empty());
    assert(ls.take(0) =~= Seq::<Seq<char>>::empty());
    while k < lines.len()
        invariant
            k <= lines@.len(),
            lines@.map_values(|c: Vec<char>| c@) == ls,
            out@.map_values(|c: Vec<char>| c@) == wrap_lines(ls.take(k as int), max_width as nat, carry),
        decreases lines.len() - k,
    {
        let wrapped = wrap_par_chars(&lines[k], max_width, carry);
        assert(ls[k as int] == lines@[k as int]@);
        push_chunks(&mut out, &wrapped, wrapped.len());
        proof {
            let wv = wrapped@.map_values(|c: Vec<char>| c@);
            assert(wv.take(wrapped@.len() as int) =~= wv);
            assert(ls.take(k + 1).drop_last() =~= ls.take(k as int));
        }
        k += 1;
    }
    assert(ls.take(lines@.len() as int) =~= ls);
    if out.len() == 0 {
        out.push(Vec::new());
        assert(out@.map_values(|c: Vec<char>| c@) =~= seq![Seq::<char>::empty()]);
    }
    out
}

/// Wraps terminal text to fit within `max_width` display columns per line.
/// Line endings `\r\n` and `\r` are normalized, tabs become four spaces, and the
/// active foreground color is carried over across line breaks.  For text of
/// printable ASCII, tabs, line breaks and complete color sequences every line
/// fits the width.
pub fn wrap_terminal_text(text: &str, max_width: usize) -> (r: Vec<String>)
    ensures
        views(r@) == wrap_terminal_text_spec(text@, max_width as nat),
        max_width > 0 && lines_styled(normalize_text(text@)) ==> widths_fit(views(r@), max_width as nat),
        max_width > 0 && styled_text(text@) ==> widths_fit(views(r@), max_width as nat),
{
    proof {
        if styled_text(text@) {
            lemma_styled_text_lines(text@);
        }
    }
    let t = chars_of(text);
    let lines = wrap_text_chars(&t, max_width);
    strings_of(&lines)
}

/// Whether a parameter list ends a style: empty, `0`, or ending in `;0`.
pub open spec fn is_reset_params(params: Seq<char>) -> bool {
    params.len() == 0 || params == seq!['0'] || (params.len() >= 2 && params[params.len() - 2] == ';'
        && params[params.len() - 1] == '0')
}

/// Truncation state after the characters before `i`: the kept text and whether
/// a style is still open.  Stops at the first visible character that would
/// overflow `max_width`.
pub open spec fn trunc_from(s: Seq<char>, max_width: nat, i: int, res: Seq<char>, cw: nat, styled: bool) -> (Seq<char>, bool)
    decreases s.len() - i,
{
    if i >= s.len() || i < 0 {
        (res, styled)
    } else if s[i] == esc() {
        if i + 1 < s.len() && s[i + 1] == '[' {
            let e = letter_end(s, i + 2);
            if e < i + 2 || e > s.len() {
                (res, styled)
            } else {
                let styled2 = if e > i + 2 && s[e - 1] == 'm' {
                    !is_reset_params(s.subrange(i + 2, e - 1))
                } else {
                    styled
                };
                trunc_from(s, max_width, e, res + s.subrange(i, e), cw, styled2)
            }
        } else {
            trunc_from(s, max_width, i + 1, res.push(esc()), cw, styled)
        }
    } else {
        let w = char_vw(s[i]) as nat;
        if cw + w > max_width {
            (res, styled)
        } else {
            trunc_from(s, max_width, i + 1, res.push(s[i]), cw + w, styled)
        }
    }
}

/// `ESC [ 0 m`: resets all styles.
pub open spec fn reset_sequence() -> Seq<char> {
    seq![esc(), '[', '0', 'm']
}

/// What `truncate_str` returns.
pub open spec fn truncate_spec(s: Seq<char>, max_width: nat) -> Seq<char> {
    if max_width == 0 {
        Seq::empty()
    } else if visible_width_spec(s) as nat <= max_width {
        s
    } else {
        let (r, styled) = trunc_from(s, max_width, 0, Seq::empty(), 0, false);
        if styled {
            r + reset_sequence()
        } else {
            r
        }
    }
}

/// The columns a text shows: the plain text of its tab-expanded form.
pub open spec fn shown_width(x: Seq<char>) -> nat {
    plain_text(expand_tabs_spec(x, 4)).len()
}

/// A character of one-line terminal text: printable ASCII or a tab.
proof fn lemma_expand_char(c: char)
    requires
        plain_char(c) || c == '\t',
    ensures
        styled_ascii(expand_tabs_spec(seq![c], 4)),
        shown_width(seq![c]) == char_vw(c),
        char_vw(c) <= 4,
{
    let sp = repeat_char(' ', 4);
    let x = expand_tabs_spec(seq![c], 4);
    assert(seq![c].drop_last() =~= Seq::<char>::empty());
    assert(seq![c].last() == c);
    assert(replace_char(Seq::<char>::empty(), '\t', sp) =~= Seq::<char>::empty());
    if c == '\t' {
        assert(x =~= sp);
        assert forall|i: int| 0 <= i < sp.len() implies plain_char(#[trigger] sp[i]) by {}
        lemma_printable_styled(sp);
    } else {
        assert(x =~= seq![c]);
        lemma_styled_char(c);
    }
}

proof fn lemma_trunc_text(s: Seq<char>, max_width: nat, i: int, res: Seq<char>, cw: nat, st: bool)
    requires
        0 <= i <= s.len(),
        styled_text(s.skip(i)),
        forall|j: int| 0 <= j < s.len() ==> #[trigger] s[j] != '\n' && s[j] != '\r',
        styled_ascii(expand_tabs_spec(res, 4)),
        shown_width(res) == cw,
        cw <= max_width,
    ensures
        styled_ascii(expand_tabs_spec(trunc_from(s, max_width, i, res, cw, st).0, 4)),
        shown_width(trunc_from(s, max_width, i, res, cw, st).0) <= max_width,
    decreases s.len() - i,
{
    let t = s.skip(i);
    let sp = repeat_char(' ', 4);
    if i < s.len() {
        assert(t[0] == s[i]);
        if s[i] == esc() {
            assert(sgr_len(t) > 0) by {
                if sgr_len(t) == 0 {
                    assert(!text_char(t[0]));
                }
            }
            let k = sgr_len(t) as int;
            lemma_sgr_len_bound(t);
            assert(t[1] == s[i + 1]);
            assert(t.skip(2) =~= s.skip(i + 2));
            lemma_letter_end_params(s, i + 2);
            lemma_text_sgr_head(t);
            let piece = s.subrange(i, i + k);
            assert(piece =~= t.take(k));
            lemma_sgr_params_shape(t);
            lemma_sgr_invisible(t.skip(2).take(k - 3));
            assert(piece =~= seq![esc(), '['] + t.skip(2).take(k - 3) + seq!['m']);
            lemma_styled_no_tab(piece);
            lemma_replace_absent(piece, '\t', sp);
            lemma_replace_concat(res, piece, '\t', sp);
            lemma_styled_concat(expand_tabs_spec(res, 4), piece);
            assert(t.skip(k) =~= s.skip(i + k));
            let st2 = if i + k > i + 2 && s[i + k - 1] == 'm' {
                !is_reset_params(s.subrange(i + 2, i + k - 1))
            } else {
                st
            };
            lemma_trunc_text(s, max_width, i + k, res + piece, cw, st2);
        } else {
            assert(sgr_len(t) == 0);
            assert(text_char(s[i]));
            assert(s[i] != '\n' && s[i] != '\r');
            lemma_expand_char(s[i]);
            if cw + char_vw(s[i]) <= max_width {
                lemma_replace_concat(res, seq![s[i]], '\t', sp);
                lemma_styled_concat(expand_tabs_spec(res, 4), expand_tabs_spec(seq![s[i]], 4));
                assert(res + seq![s[i]] =~= res.push(s[i]));
                assert(t.skip(1) =~= s.skip(i + 1));
                lemma_trunc_text(s, max_width, i + 1, res.push(s[i]), cw + char_vw(s[i]) as nat, st);
            }
        }
    }
}

/// A complete color sequence is `ESC [`, its parameters and `m`.
proof fn lemma_sgr_params_shape(t: Seq<char>)
    requires
        sgr_len(t) > 0,
    ensures
        all_sgr_params(t.skip(2).take(sgr_len(t) - 3)),
        t.take(sgr_len(t) as int) == seq![esc(), '['] + t.skip(2).take(sgr_len(t) - 3) + seq!['m'],
{
    let k = sgr_len(t) as int;
    lemma_sgr_len_bound(t);
    lemma_params_shape(t.skip(2));
    assert(t.take(k) =~= seq![esc(), '['] + t.skip(2).take(k - 3) + seq!['m']);
}

proof fn lemma_params_shape(s: Seq<char>)
    requires
        params_len(s) > 0,
    ensures
        all_sgr_params(s.take(params_len(s) - 1)),
        s[params_len(s) - 1] == 'm',
        params_len(s) <= s.len(),
    decreases s.len(),
{
    crate::styled::lemma_params_len_bound(s);
    if s[0] != 'm' {
        lemma_params_shape(s.skip(1));
        let n = params_len(s);
        assert forall|i: int| 0 <= i < s.take(n - 1).len() implies #[trigger] is_sgr_param_char(s.take(n - 1)[i]) by {
            if i > 0 {
                assert(s.take(n - 1)[i] == s.skip(1).take(n - 2)[i - 1]);
            }
        }
        assert(s[n - 1] == s.skip(1)[n - 2]);
    }
}

/// Truncating one line of terminal text (printable ASCII, tabs and complete
/// color sequences) gives text of at most `max_width` columns.
pub proof fn law_truncate_fits_styled(s: Seq<char>, max_width: nat)
    requires
        styled_text(s),
        forall|j: int| 0 <= j < s.len() ==> #[trigger] s[j] != '\n' && s[j] != '\r',
        max_width <= usize::MAX,
    ensures
        visible_width_spec(truncate_spec(s, max_width)) <= max_width,
{
    lemma_empty_styled();
    let sp = repeat_char(' ', 4);
    assert(expand_tabs_spec(Seq::<char>::empty(), 4) =~= Seq::<char>::empty());
    if max_width == 0 {
    } else if visible_width_spec(s) as nat <= max_width {
    } else {
        assert(s.skip(0) =~= s);
        lemma_trunc_text(s, max_width, 0, Seq::empty(), 0, false);
        let r = trunc_from(s, max_width, 0, Seq::empty(), 0, false).0;
        assert(all_sgr_params(seq!['0']));
        lemma_sgr_invisible(seq!['0']);
        assert(seq![esc(), '['] + seq!['0'] + seq!['m'] =~= reset_sequence());
        lemma_styled_no_tab(reset_sequence());
        lemma_replace_absent(reset_sequence(), '\t', sp);
        lemma_replace_concat(r, reset_sequence(), '\t', sp);
        lemma_styled_concat(expand_tabs_spec(r, 4), reset_sequence());
    }
}

fn is_reset_params_exec(s: &Vec<char>, from: usize, to: usize) -> (r: bool)
    requires
        from <= to <= s@.len(),
    ensures
        r == is_reset_params(s@.subrange(from as int, to as int)),
{
    let ghost p = s@.subrange(from as int, to as int);
    let n = to - from;
    if n == 0 {
        return true;
    }
    if n == 1 && s[from] == '0' {
        assert(p =~= seq!['0']);
        return true;
    }
    if n >= 2 && s[to - 2] == ';' && s[to - 1] == '0' {
        assert(p[p.len() - 2] == ';' && p[p.len() - 1] == '0');
        return true;
    }
    if n == 1 {
        assert(p[0] == s@[from as int]);
        assert(p != seq!['0']) by {
            if p == seq!['0'] {
                assert(p[0] == '0');
            }
        }
    } else {
        assert(p.len() >= 2);
        assert(p != seq!['0']) by {
            if p == seq!['0'] {
                assert(p.len() == 1);
            }
        }
    }
    false
}

/// Truncates `s` to at most `max_width` visible columns.  Escape sequences
/// before the cut are kept; if the cut falls inside a styled section, a reset
/// (`ESC [ 0 m`) is appended.  For one line of printable ASCII, tabs and
/// complete color sequences the result fits the width.
pub fn truncate_str(s: &str, max_width: usize) -> (r: String)
    ensures
        r@ == truncate_spec(s@, max_width as nat),
        printable_ascii(s@) ==> r@ == s@.take(if s@.len() <= max_width { s@.len() as int } else { max_width as int }),
        styled_text(s@) && (forall|j: int| 0 <= j < s@.len() ==> #[trigger] s@[j] != '\n' && s@[j] != '\r')
            ==> visible_width_spec(r@) <= max_width,
{
    proof {
        if styled_text(s@) && (forall|j: int| 0 <= j < s@.len() ==> #[trigger] s@[j] != '\n' && s@[j] != '\r') {
            law_truncate_fits_styled(s@, max_width as nat);
        }
    }
    if max_width == 0 {
        return String::new();
    }
    if visible_width(s) <= max_width {
        return String::from_str(s);
    }
    let v = chars_of(s);
    let mut res: Vec<char> = Vec::new();
    let mut cw: usize = 0;
    let mut styled = false;
    let mut i: usize = 0;
    assert(res@ =~= Seq::<char>::empty());
    while i < v.len()
        invariant
            i <= v@.len(),
            cw <= max_width,
            trunc_from(v@, max_width as nat, 0, Seq::empty(), 0, false)
                == trunc_from(v@, max_width as nat, i as int, res@, cw as nat, styled),
            v@ == s@,
            printable_ascii(v@) ==> v@.len() > max_width && cw == i && res@ == v@.take(i as int) && !styled,
        ensures
            trunc_from(v@, max_width as nat, 0, Seq::empty(), 0, false) == (res@, styled),
            printable_ascii(v@) ==> res@ == v@.take(max_width as int) && !styled,
        decreases v.len() - i,
    {
        let c = v[i];
        if c == '\x1b' {
            if i < v.len() - 1 && v[i + 1] == '[' {
                proof {
                    lemma_letter_end(v@, i + 2);
                }
                let e = letter_end_exec(&v, i + 2);
                if e > i + 2 && v[e - 1] == 'm' {
                    styled = !is_reset_params_exec(&v, i + 2, e - 1);
                }
                let piece = slice_vec(&v, i, e);
                extend_chars(&mut res, piece.as_slice());
                i = e;
            } else {
                res.push(c);
                i += 1;
            }
        } else {
            let w = char_visible_width(c);
            proof {
                if printable_ascii(v@) {
                    assert(' ' <= v@[i as int] && v@[i as int] <= '~');
                }
            }
            if w > max_width - cw {
                assert(trunc_from(v@, max_width as nat, i as int, res@, cw as nat, styled) == (res@, styled));
                break;
            }
            proof {
                if printable_ascii(v@) {
                    assert(v@.take(i + 1) =~= v@.take(i as int).push(c));
                }
            }
            res.push(c);
            cw = cw + w;
            i += 1;
        }
    }
    let mut out = string_of(res.as_slice());
    if styled {
        out.append("\x1b[0m");
        proof {
            reveal_strlit("\x1b[0m");
        }
        assert("\x1b[0m"@ =~= reset_sequence());
    }
    out
}

} // verus!

verus! {

/// Horizontal alignment of a table cell (the alignments a markdown table column can have).
#[derive(Debug, Clone, Copy, PartialEq, Eq, Structural)]
pub enum CellAlign {
    Left,
    Right,
    Center,
    /// No alignment given; laid out like `Left`.
    Unset,
}

/// `text` padded with spaces to `target_width` columns according to `align`.
pub open spec fn align_spec(text: Seq<char>, target_width: nat, align: CellAlign) -> Seq<char> {
    let w = visible_width_spec(text) as nat;
    let pad: nat = if target_width > w { (target_width - w) as nat } else { 0 };
    match align {
        CellAlign::Right => repeat_char(' ', pad) + text,
        CellAlign::Center => repeat_char(' ', pad / 2) + text + repeat_char(' ', (pad - pad / 2) as nat),
        CellAlign::Left | CellAlign::Unset => text + repeat_char(' ', pad),
    }
}

/// Alignment pads with spaces only and keeps the text whole: `Right` puts all
/// the missing columns before the text, `Left` and `Unset` after it, and
/// `Center` splits them around it, the right side getting the same number of
/// spaces as the left or one more.
pub proof fn law_alignment_padding(text: Seq<char>, target_width: nat)
    ensures
        ({
            let w = visible_width_spec(text) as nat;
            let pad: nat = if target_width > w { (target_width - w) as nat } else { 0 };
            &&& align_spec(text, target_width, CellAlign::Right) == repeat_char(' ', pad) + text
            &&& align_spec(text, target_width, CellAlign::Left) == text + repeat_char(' ', pad)
            &&& align_spec(text, target_width, CellAlign::Unset) == text + repeat_char(' ', pad)
            &&& exists|l: nat| #![trigger repeat_char(' ', l)]
                align_spec(text, target_width, CellAlign::Center) == repeat_char(' ', l) + text + repeat_char(' ', (pad - l) as nat)
                    && l <= pad - l <= l + 1
        }),
{
    let w = visible_width_spec(text) as nat;
    let pad: nat = if target_width > w { (target_width - w) as nat } else { 0 };
    let l: nat = pad / 2;
    assert(align_spec(text, target_width, CellAlign::Center) == repeat_char(' ', l) + text + repeat_char(' ', (pad - l) as nat));
}

/// Pads `text` with spaces to `target_width` visible columns according to `align`.
pub fn apply_alignment(text: &str, target_width: usize, align: CellAlign) -> (r: String)
    ensures
        r@ == align_spec(text@, target_width as nat, align),
        printable_ascii(text@) ==> r@.len() == (if text@.len() < target_width { target_width as int } else { text@.len() as int }),
{
    let t = chars_of(text);
    let a = align_chars(&t, target_width, align);
    string_of(a.as_slice())
}

/// [`apply_alignment`] on characters.
pub fn align_chars(t: &Vec<char>, target_width: usize, align: CellAlign) -> (r: Vec<char>)
    ensures
        r@ == align_spec(t@, target_width as nat, align),
        printable_ascii(t@) ==> r@.len() == (if t@.len() < target_width { target_width as int } else { t@.len() as int }),
{
    let w = visible_width_chars(t.as_slice());
    let pad = if target_width > w { target_width - w } else { 0 };
    match align {
        CellAlign::Right => {
            let mut r = crate::text::repeat_char_exec(' ', pad);
            extend_chars(&mut r, t.as_slice());
            r
        },
        CellAlign::Center => {
            let left = pad / 2;
            let mut r = crate::text::repeat_char_exec(' ', left);
            extend_chars(&mut r, t.as_slice());
            let right = crate::text::repeat_char_exec(' ', pad - left);
            extend_chars(&mut r, right.as_slice());
            r
        },
        CellAlign::Left | CellAlign::Unset => {
            let mut r = t.clone();
            let right = crate::text::repeat_char_exec(' ', pad);
            extend_chars(&mut r, right.as_slice());
            r
        },
    }
}

/// An aligned cell line, in bold for a header row.
pub open spec fn cell_line(text: Seq<char>, target_width: nat, align: CellAlign, is_header: bool) -> Seq<char> {
    let a = align_spec(text, target_width, align);
    if is_header {
        crate::paint::styled_spec(a, crate::paint::bold_spec(), true)
    } else {
        a
    }
}

pub fn cell_line_exec(text: &Vec<char>, target_width: usize, align: CellAlign, is_header: bool) -> (r: String)
    ensures
        r@ == cell_line(text@, target_width as nat, align, is_header),
{
    let a = align_chars(text, target_width, align);
    let s = string_of(a.as_slice());
    if is_header {
        crate::paint::bold(s.as_str())
    } else {
        s
    }
}

/// Cell wrapping state: emitted lines, the line being filled and its width.
pub struct CellState {
    pub result: Seq<Seq<char>>,
    pub line: Seq<char>,
    pub len: nat,
}

/// All chunks but the last, as cell lines.
pub open spec fn cell_lines_of(parts: Seq<Seq<char>>, target_width: nat, align: CellAlign, is_header: bool) -> Seq<Seq<char>>
    decreases parts.len(),
{
    if parts.len() == 0 {
        Seq::empty()
    } else {
        cell_lines_of(parts.drop_last(), target_width, align, is_header).push(
            cell_line(parts.last(), target_width, align, is_header),
        )
    }
}

/// One word of the cell text: it joins the current line when it fits; else the
/// line is emitted and the word starts a new one, cut into chunks when it is
/// itself wider than the column.
pub open spec fn cell_step(st: CellState, word: Seq<char>, target_width: nat, align: CellAlign, is_header: bool) -> CellState {
    let ww = visible_width_spec(word) as nat;
    let needed = ww + if st.len > 0 { 1nat } else { 0nat };
    if st.len + needed > target_width {
        let r1 = if st.line.len() > 0 {
            st.result.push(cell_line(st.line, target_width, align, is_header))
        } else {
            st.result
        };
        let len1: nat = if st.line.len() > 0 { 0 } else { st.len };
        let line1 = if st.line.len() > 0 { Seq::<char>::empty() } else { st.line };
        if ww > target_width {
            let parts = split_token_spec(word, target_width);
            if parts.len() > 0 {
                CellState {
                    result: r1 + cell_lines_of(parts.drop_last(), target_width, align, is_header),
                    line: parts.last(),
                    len: visible_width_spec(parts.last()) as nat,
                }
            } else {
                CellState { result: r1, line: line1, len: len1 }
            }
        } else {
            CellState { result: r1, line: line1 + word, len: ww }
        }
    } else {
        if st.line.len() > 0 {
            CellState { result: st.result, line: st.line + seq![' '] + word, len: st.len + 1 + ww }
        } else {
            CellState { result: st.result, line: st.line + word, len: st.len + ww }
        }
    }
}

pub open spec fn cell_words(words: Seq<Seq<char>>, n: int, target_width: nat, align: CellAlign, is_header: bool) -> CellState
    decreases n,
{
    if n <= 0 || n > words.len() {
        CellState { result: Seq::empty(), line: Seq::empty(), len: 0 }
    } else {
        cell_step(cell_words(words, n - 1, target_width, align, is_header), words[n - 1], target_width, align, is_header)
    }
}

/// The lines `pad_and_wrap_cell` produces.
pub open spec fn pad_and_wrap_cell_spec(text: Seq<char>, target_width: nat, align: CellAlign, is_header: bool) -> Seq<Seq<char>> {
    if visible_width_spec(text) as nat <= target_width {
        seq![cell_line(text, target_width, align, is_header)]
    } else {
        let words = split_on(text, ' ');
        let st = cell_words(words, words.len() as int, target_width, align, is_header);
        if st.line.len() > 0 {
            st.result.push(cell_line(st.line, target_width, align, is_header))
        } else {
            st.result
        }
    }
}

/// Whether `len + ww + extra > target` (computed without overflow).
fn exceeds(len: usize, ww: usize, extra: bool, target: usize) -> (r: bool)
    ensures
        r == (len + ww + if extra { 1int } else { 0int } > target),
{
    if ww > target {
        true
    } else if len > target - ww {
        true
    } else if extra {
        len == target - ww
    } else {
        false
    }
}

/// Pads and wraps a table cell's text to exactly `target_width` columns per
/// line, aligning every line, and in bold for a header row.
pub fn pad_and_wrap_cell(text: &str, target_width: usize, align: CellAlign, is_header: bool) -> (r: Vec<String>)
    requires
        target_width < usize::MAX,
    ensures
        views(r@) == pad_and_wrap_cell_spec(text@, target_width as nat, align, is_header),
{
    let t = chars_of(text);
    let mut result: Vec<String> = Vec::new();
    if visible_width(text) <= target_width {
        let l = cell_line_exec(&t, target_width, align, is_header);
        result.push(l);
        assert(views(result@) =~= seq![cell_line(text@, target_width as nat, align, is_header)]);
        return result;
    }
    let words = split_chars(t.as_slice(), ' ');
    let ghost ws = split_on(t@, ' ');
    let mut line: Vec<char> = Vec::new();
    let mut len: usize = 0;
    let mut i: usize = 0;
    assert(views(result@) =~= Seq::<Seq<char>>::empty());
    assert(line@ =~= Seq::<char>::empty());
    while i < words.len()
        invariant
            words@.len() == ws.len(),
            forall|t: int| 0 <= t < words@.len() ==> #[trigger] words@[t]@ == ws[t],
            i <= words@.len(),
            target_width < usize::MAX,
            cell_words(ws, i as int, target_width as nat, align, is_header) == (CellState {
                result: views(result@),
                line: line@,
                len: len as nat,
            }),
        decreases words.len() - i,
    {
        let word = &words[i];
        assert(ws[i as int] == word@);
        let ww = visible_width_chars(word.as_slice());
        let ghost st0 = cell_words(ws, i as int, target_width as nat, align, is_header);
        assert(cell_words(ws, i + 1, target_width as nat, align, is_header) == cell_step(st0, word@, target_width as nat, align, is_header));
        if exceeds(len, ww, len > 0, target_width) {
            if line.len() > 0 {
                let l = cell_line_exec(&line, target_width, align, is_header);
                let ghost before = result@;
                result.push(l);
                assert(views(result@) =~= views(before).push(l@));
                line = Vec::new();
                len = 0;
            }
            if ww > target_width {
                let parts = split_token_chars(word, target_width);
                let ghost pv = parts@.map_values(|c: Vec<char>| c@);
                if parts.len() > 0 {
                    let n = parts.len() - 1;
                    let mut k: usize = 0;
                    let ghost r0 = views(result@);
                    assert(pv.take(0) =~= Seq::<Seq<char>>::empty());
                    while k < n
                        invariant
                            k <= n,
                            n + 1 == parts@.len(),
                            pv == parts@.map_values(|c: Vec<char>| c@),
                            views(result@) == r0 + cell_lines_of(pv.take(k as int), target_width as nat, align, is_header),
                        decreases n - k,
                    {
                        let l = cell_line_exec(&parts[k], target_width, align, is_header);
                        let ghost before = result@;
                        result.push(l);
                        assert(views(result@) =~= views(before).push(l@));
                        assert(pv.take(k + 1).drop_last() =~= pv.take(k as int));
                        k += 1;
                    }
                    assert(pv.take(n as int) =~= pv.drop_last());
                    line = parts[n].clone();
                    len = visible_width_chars(line.as_slice());
                    assert(views(result@) == cell_step(st0, word@, target_width as nat, align, is_header).result);
                    assert(line@ == cell_step(st0, word@, target_width as nat, align, is_header).line);
                } else {
                    assert(views(result@) == cell_step(st0, word@, target_width as nat, align, is_header).result);
                    assert(line@ == cell_step(st0, word@, target_width as nat, align, is_header).line);
                }
            } else {
                extend_chars(&mut line, word.as_slice());
                len = ww;
                assert(views(result@) == cell_step(st0, word@, target_width as nat, align, is_header).result);
                assert(line@ == cell_step(st0, word@, target_width as nat, align, is_header).line);
            }
        } else {
            if line.len() > 0 {
                line.push(' ');
                extend_chars(&mut line, word.as_slice());
                len = len + 1 + ww;
            } else {
                extend_chars(&mut line, word.as_slice());
                len = len + ww;
            }
        }
        assert(views(result@) == cell_step(st0, word@, target_width as nat, align, is_header).result);
        assert(line@ == cell_step(st0, word@, target_width as nat, align, is_header).line);
        assert(len == cell_step(st0, word@, target_width as nat, align, is_header).len);
        i += 1;
    }
    if line.len() > 0 {
        let l = cell_line_exec(&line, target_width, align, is_header);
        let ghost before = result@;
        result.push(l);
        assert(views(result@) =~= views(before).push(l@));
    }
    result
}

} // verus!
