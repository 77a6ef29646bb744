//! Styled ASCII text: printable ASCII characters and complete color
//! sequences `ESC [ params m`, and the plain text such a string shows.
use vstd::prelude::*;
use crate::ansi::{all_sgr_params, esc, is_sgr_param_char};
use crate::ansi::lemma_replace_absent;
use crate::text::{lines_of, repeat_char, replace_char, replace_crlf, split_on, strip_cr};

verus! {

/// A printable ASCII character (space to `~`).
pub open spec fn plain_char(c: char) -> bool {
    ' ' <= c && c <= '~'
}

/// The length of `params m` at the start of `s` (parameters made of digits,
/// `;` and `:`, closed by `m`); zero when `s` does not start so.
pub open spec fn params_len(s: Seq<char>) -> nat
    decreases s.len(),
{
    if s.len() == 0 {
        0
    } else if s[0] == 'm' {
        1
    } else if is_sgr_param_char(s[0]) {
        let k = params_len(s.skip(1));
        if k == 0 {
            0
        } else {
            k + 1
        }
    } else {
        0
    }
}

/// The length of a complete color sequence `ESC [ params m` at the start of
/// `s`; zero when there is none.
pub open spec fn sgr_len(s: Seq<char>) -> nat {
    if s.len() >= 2 && s[0] == esc() && s[1] == '[' && params_len(s.skip(2)) > 0 {
        params_len(s.skip(2)) + 2
    } else {
        0
    }
}

pub proof fn lemma_params_len_bound(s: Seq<char>)
    ensures
        params_len(s) <= s.len(),
    decreases s.len(),
{
    if s.len() > 0 && s[0] != 'm' && is_sgr_param_char(s[0]) {
        lemma_params_len_bound(s.skip(1));
    }
}

pub proof fn lemma_sgr_len_bound(s: Seq<char>)
    ensures
        sgr_len(s) <= s.len(),
{
    if s.len() >= 2 {
        lemma_params_len_bound(s.skip(2));
    }
}

/// Whether `s` is made of printable ASCII characters and complete color
/// sequences only.
pub open spec fn styled_ascii(s: Seq<char>) -> bool
    decreases s.len(),
{
    if s.len() == 0 {
        true
    } else if sgr_len(s) > 0 {
        proof {
            lemma_sgr_len_bound(s);
        }
        styled_ascii(s.skip(sgr_len(s) as int))
    } else {
        plain_char(s[0]) && styled_ascii(s.skip(1))
    }
}

/// The characters of `s` outside its complete color sequences.
pub open spec fn plain_text(s: Seq<char>) -> Seq<char>
    decreases s.len(),
{
    if s.len() == 0 {
        Seq::empty()
    } else if sgr_len(s) > 0 {
        proof {
            lemma_sgr_len_bound(s);
        }
        plain_text(s.skip(sgr_len(s) as int))
    } else {
        seq![s[0]] + plain_text(s.skip(1))
    }
}

/// A complete parameter run keeps its length when more text follows.
pub proof fn lemma_params_len_concat(a: Seq<char>, b: Seq<char>)
    requires
        params_len(a) > 0,
    ensures
        params_len(a + b) == params_len(a),
    decreases a.len(),
{
    if a[0] != 'm' {
        assert((a + b).skip(1) =~= a.skip(1) + b);
        lemma_params_len_concat(a.skip(1), b);
    }
}

/// A complete color sequence keeps its length when more text follows.
pub proof fn lemma_sgr_len_concat(a: Seq<char>, b: Seq<char>)
    requires
        sgr_len(a) > 0,
    ensures
        sgr_len(a + b) == sgr_len(a),
{
    assert((a + b).skip(2) =~= a.skip(2) + b);
    lemma_params_len_concat(a.skip(2), b);
}

/// Styled text joined to styled text is styled, and its plain text joins too.
pub proof fn lemma_styled_concat(a: Seq<char>, b: Seq<char>)
    requires
        styled_ascii(a),
        styled_ascii(b),
    ensures
        styled_ascii(a + b),
        plain_text(a + b) == plain_text(a) + plain_text(b),
    decreases a.len(),
{
    if a.len() == 0 {
        assert(a + b =~= b);
        assert(plain_text(a) =~= Seq::<char>::empty());
        assert(plain_text(a) + plain_text(b) =~= plain_text(b));
    } else if sgr_len(a) > 0 {
        let k = sgr_len(a) as int;
        lemma_sgr_len_bound(a);
        lemma_sgr_len_concat(a, b);
        assert((a + b).skip(k) =~= a.skip(k) + b);
        lemma_styled_concat(a.skip(k), b);
    } else {
        assert(sgr_len(a + b) == 0) by {
            assert((a + b)[0] == a[0]);
        }
        assert((a + b).skip(1) =~= a.skip(1) + b);
        assert((a + b)[0] == a[0]);
        lemma_styled_concat(a.skip(1), b);
        assert(seq![a[0]] + (plain_text(a.skip(1)) + plain_text(b)) =~= (seq![a[0]] + plain_text(a.skip(1))) + plain_text(b));
    }
}

/// A printable character alone is styled and shows itself.
pub proof fn lemma_styled_char(c: char)
    requires
        plain_char(c),
    ensures
        styled_ascii(seq![c]),
        plain_text(seq![c]) == seq![c],
{
    let e = seq![c].skip(1);
    assert(e =~= Seq::<char>::empty());
    assert(styled_ascii(e));
    assert(plain_text(e) =~= Seq::<char>::empty());
    assert(seq![c] + Seq::<char>::empty() =~= seq![c]);
}

/// The color sequence at the start of a styled text is styled and shows
/// nothing; the rest is styled.
pub proof fn lemma_styled_sgr_head(s: Seq<char>)
    requires
        styled_ascii(s),
        sgr_len(s) > 0,
    ensures
        styled_ascii(s.take(sgr_len(s) as int)),
        plain_text(s.take(sgr_len(s) as int)).len() == 0,
        styled_ascii(s.skip(sgr_len(s) as int)),
        plain_text(s) == plain_text(s.skip(sgr_len(s) as int)),
{
    let k = sgr_len(s) as int;
    lemma_sgr_len_bound(s);
    let h = s.take(k);
    assert(h + s.skip(k) =~= s);
    assert(sgr_len(h) == k) by {
        assert(h.skip(2) =~= s.skip(2).take(k - 2));
        assert(s.skip(2) =~= h.skip(2) + s.skip(k));
        lemma_params_len_back(s.skip(2), k - 2);
    }
    let e = h.skip(k);
    assert(e =~= Seq::<char>::empty());
    assert(styled_ascii(e));
    assert(plain_text(e) =~= Seq::<char>::empty());
    assert(styled_ascii(s.skip(k)));
    assert(plain_text(s) == plain_text(s.skip(k)));
}

/// A parameter run found in `s` is found in the prefix that holds it.
proof fn lemma_params_len_back(s: Seq<char>, n: int)
    requires
        params_len(s) == n,
        n > 0,
    ensures
        params_len(s.take(n)) == n,
    decreases s.len(),
{
    lemma_params_len_bound(s);
    if s[0] != 'm' {
        assert(s.take(n).skip(1) =~= s.skip(1).take(n - 1));
        lemma_params_len_back(s.skip(1), n - 1);
    }
}

/// Styled text holds no tab.
pub proof fn lemma_styled_no_tab(s: Seq<char>)
    requires
        styled_ascii(s),
    ensures
        forall|i: int| 0 <= i < s.len() ==> #[trigger] s[i] != '\t',
    decreases s.len(),
{
    if s.len() > 0 {
        if sgr_len(s) > 0 {
            let k = sgr_len(s) as int;
            lemma_sgr_len_bound(s);
            lemma_styled_no_tab(s.skip(k));
            lemma_sgr_no_tab(s);
            assert forall|i: int| 0 <= i < s.len() implies #[trigger] s[i] != '\t' by {
                if i >= k {
                    assert(s[i] == s.skip(k)[i - k]);
                }
            }
        } else {
            lemma_styled_no_tab(s.skip(1));
            assert forall|i: int| 0 <= i < s.len() implies #[trigger] s[i] != '\t' by {
                if i >= 1 {
                    assert(s[i] == s.skip(1)[i - 1]);
                }
            }
        }
    }
}

proof fn lemma_params_no_tab(s: Seq<char>)
    requires
        params_len(s) > 0,
    ensures
        forall|i: int| 0 <= i < params_len(s) ==> #[trigger] s[i] != '\t',
    decreases s.len(),
{
    lemma_params_len_bound(s);
    if s[0] != 'm' {
        lemma_params_no_tab(s.skip(1));
        assert forall|i: int| 0 <= i < params_len(s) implies #[trigger] s[i] != '\t' by {
            if i >= 1 {
                assert(s[i] == s.skip(1)[i - 1]);
            }
        }
    }
}

proof fn lemma_sgr_no_tab(s: Seq<char>)
    requires
        sgr_len(s) > 0,
    ensures
        forall|i: int| 0 <= i < sgr_len(s) ==> #[trigger] s[i] != '\t',
{
    lemma_sgr_len_bound(s);
    lemma_params_no_tab(s.skip(2));
    assert forall|i: int| 0 <= i < sgr_len(s) implies #[trigger] s[i] != '\t' by {
        if i >= 2 {
            assert(s[i] == s.skip(2)[i - 2]);
        }
    }
}

/// The plain text of styled text is printable ASCII.
pub proof fn lemma_plain_printable(s: Seq<char>)
    requires
        styled_ascii(s),
    ensures
        forall|i: int| 0 <= i < plain_text(s).len() ==> plain_char(#[trigger] plain_text(s)[i]),
    decreases s.len(),
{
    if s.len() > 0 {
        if sgr_len(s) > 0 {
            lemma_sgr_len_bound(s);
            lemma_plain_printable(s.skip(sgr_len(s) as int));
            assert(plain_text(s) == plain_text(s.skip(sgr_len(s) as int)));
        } else {
            lemma_plain_printable(s.skip(1));
            assert(plain_text(s) == seq![s[0]] + plain_text(s.skip(1)));
            assert forall|i: int| 0 <= i < plain_text(s).len() implies plain_char(#[trigger] plain_text(s)[i]) by {
                if i >= 1 {
                    assert(plain_text(s)[i] == plain_text(s.skip(1))[i - 1]);
                }
            }
        }
    }
}

/// Printable ASCII text is styled and shows itself.
pub proof fn lemma_printable_styled(s: Seq<char>)
    requires
        forall|i: int| 0 <= i < s.len() ==> plain_char(#[trigger] s[i]),
    ensures
        styled_ascii(s),
        plain_text(s) == s,
    decreases s.len(),
{
    if s.len() > 0 {
        assert forall|i: int| 0 <= i < s.skip(1).len() implies plain_char(#[trigger] s.skip(1)[i]) by {
            assert(s.skip(1)[i] == s[i + 1]);
        }
        assert(s[0] != esc()) by {
            assert(plain_char(s[0]));
        }
        lemma_printable_styled(s.skip(1));
        assert(seq![s[0]] + s.skip(1) =~= s);
    }
}


/// Styled text that shows nothing: color sequences only.
pub open spec fn invisible_styled(x: Seq<char>) -> bool {
    styled_ascii(x) && plain_text(x).len() == 0
}

/// The empty text is styled and shows nothing.
pub proof fn lemma_empty_styled()
    ensures
        invisible_styled(Seq::<char>::empty()),
{
    assert(plain_text(Seq::<char>::empty()) =~= Seq::<char>::empty());
}

/// Plain text is never longer than the styled text it comes from.
pub proof fn lemma_plain_len(s: Seq<char>)
    ensures
        plain_text(s).len() <= s.len(),
    decreases s.len(),
{
    if s.len() > 0 {
        if sgr_len(s) > 0 {
            lemma_sgr_len_bound(s);
            lemma_plain_len(s.skip(sgr_len(s) as int));
        } else {
            lemma_plain_len(s.skip(1));
        }
    }
}

proof fn lemma_params_all(p: Seq<char>)
    requires
        all_sgr_params(p),
    ensures
        params_len(p + seq!['m']) == p.len() + 1,
    decreases p.len(),
{
    if p.len() == 0 {
        assert(p + seq!['m'] =~= seq!['m']);
    } else {
        assert(is_sgr_param_char(p[0]));
        assert((p + seq!['m'])[0] == p[0]);
        assert((p + seq!['m']).skip(1) =~= p.skip(1) + seq!['m']);
        assert forall|i: int| 0 <= i < p.skip(1).len() implies #[trigger] is_sgr_param_char(p.skip(1)[i]) by {
            assert(p.skip(1)[i] == p[i + 1]);
        }
        lemma_params_all(p.skip(1));
    }
}

/// `ESC [ params m` with parameters of digits, `;` and `:` is styled text
/// that shows nothing.
pub proof fn lemma_sgr_invisible(p: Seq<char>)
    requires
        all_sgr_params(p),
    ensures
        invisible_styled(seq![esc(), '['] + p + seq!['m']),
{
    let x = seq![esc(), '['] + p + seq!['m'];
    assert(x.skip(2) =~= p + seq!['m']);
    lemma_params_all(p);
    assert(sgr_len(x) == x.len());
    let e = x.skip(x.len() as int);
    assert(e =~= Seq::<char>::empty());
    assert(styled_ascii(e));
    assert(plain_text(e) =~= Seq::<char>::empty());
}

/// No character of a complete color sequence is a space, a tab or a line break.
pub proof fn lemma_sgr_chars(s: Seq<char>)
    requires
        sgr_len(s) > 0,
    ensures
        forall|i: int| 0 <= i < sgr_len(s) ==> #[trigger] s[i] != ' ' && s[i] != '\t' && s[i] != '\n' && s[i] != '\r',
{
    lemma_sgr_len_bound(s);
    lemma_params_chars(s.skip(2));
    assert forall|i: int| 0 <= i < sgr_len(s) implies #[trigger] s[i] != ' ' && s[i] != '\t' && s[i] != '\n' && s[i] != '\r' by {
        if i >= 2 {
            assert(s[i] == s.skip(2)[i - 2]);
        }
    }
}

proof fn lemma_params_chars(s: Seq<char>)
    requires
        params_len(s) > 0,
    ensures
        forall|i: int| 0 <= i < params_len(s) ==> #[trigger] s[i] != ' ' && s[i] != '\t' && s[i] != '\n' && s[i] != '\r',
    decreases s.len(),
{
    lemma_params_len_bound(s);
    if s[0] != 'm' {
        lemma_params_chars(s.skip(1));
        assert forall|i: int| 0 <= i < params_len(s) implies #[trigger] s[i] != ' ' && s[i] != '\t' && s[i] != '\n' && s[i] != '\r' by {
            if i >= 1 {
                assert(s[i] == s.skip(1)[i - 1]);
            }
        }
    }
}

/// Styled text cut at a space: both sides are styled, and the plain text is
/// cut at the same space.
pub proof fn lemma_styled_split_at(s: Seq<char>, i: int)
    requires
        styled_ascii(s),
        0 <= i < s.len(),
        s[i] == ' ',
    ensures
        styled_ascii(s.take(i)),
        styled_ascii(s.skip(i + 1)),
        plain_text(s) == plain_text(s.take(i)) + seq![' '] + plain_text(s.skip(i + 1)),
    decreases s.len(),
{
    if sgr_len(s) > 0 {
        let k = sgr_len(s) as int;
        lemma_sgr_chars(s);
        lemma_sgr_len_bound(s);
        assert(i >= k) by {
            if i < k {
                assert(s[i] != ' ');
            }
        }
        lemma_styled_sgr_head(s);
        let t = s.skip(k);
        assert(t[i - k] == s[i]);
        lemma_styled_split_at(t, i - k);
        lemma_styled_concat(s.take(k), t.take(i - k));
        assert(s.take(k) + t.take(i - k) =~= s.take(i));
        assert(t.skip(i - k + 1) =~= s.skip(i + 1));
        assert(plain_text(s.take(k)) =~= Seq::<char>::empty());
        assert(plain_text(s.take(k)) + plain_text(t.take(i - k)) =~= plain_text(t.take(i - k)));
    } else {
        let t = s.skip(1);
        if i == 0 {
            assert(s.take(0) =~= Seq::<char>::empty());
            lemma_empty_styled();
            assert(plain_text(s) == seq![s[0]] + plain_text(t));
            assert(plain_text(s) =~= Seq::<char>::empty() + seq![' '] + plain_text(s.skip(1)));
        } else {
            assert(t[i - 1] == s[i]);
            lemma_styled_split_at(t, i - 1);
            lemma_styled_char(s[0]);
            lemma_styled_concat(seq![s[0]], t.take(i - 1));
            assert(seq![s[0]] + t.take(i - 1) =~= s.take(i));
            assert(t.skip(i) =~= s.skip(i + 1));
            assert(plain_text(s) == seq![s[0]] + plain_text(t));
            assert(plain_text(s) =~= plain_text(s.take(i)) + seq![' '] + plain_text(s.skip(i + 1)));
        }
    }
}

/// Index of the last `c` in `s`, or -1.
pub open spec fn last_index_of(s: Seq<char>, c: char) -> int
    decreases s.len(),
{
    if s.len() == 0 {
        -1
    } else if s.last() == c {
        s.len() - 1
    } else {
        last_index_of(s.drop_last(), c)
    }
}

proof fn lemma_last_index_of(s: Seq<char>, c: char)
    ensures
        -1 <= last_index_of(s, c) < s.len(),
        last_index_of(s, c) >= 0 ==> s[last_index_of(s, c)] == c,
        forall|j: int| last_index_of(s, c) < j < s.len() ==> #[trigger] s[j] != c,
    decreases s.len(),
{
    if s.len() > 0 && s.last() != c {
        lemma_last_index_of(s.drop_last(), c);
        assert forall|j: int| last_index_of(s, c) < j < s.len() implies #[trigger] s[j] != c by {
            if j < s.len() - 1 {
                assert(s[j] == s.drop_last()[j]);
            }
        }
    }
}

/// Text without `sep` is one piece.
pub proof fn lemma_split_on_none(b: Seq<char>, sep: char)
    requires
        forall|j: int| 0 <= j < b.len() ==> #[trigger] b[j] != sep,
    ensures
        split_on(b, sep) == seq![b],
    decreases b.len(),
{
    if b.len() > 0 {
        assert forall|j: int| 0 <= j < b.drop_last().len() implies #[trigger] b.drop_last()[j] != sep by {
            assert(b.drop_last()[j] == b[j]);
        }
        lemma_split_on_none(b.drop_last(), sep);
        assert(b.last() != sep);
        assert(b.drop_last().push(b.last()) =~= b);
        assert(seq![b.drop_last()].update(0, b.drop_last().push(b.last())) =~= seq![b]);
    } else {
        assert(b =~= Seq::<char>::empty());
    }
}

/// Splitting `a`, `sep`, `b` where `b` holds no `sep`: the pieces of `a`,
/// then `b`.
pub proof fn lemma_split_on_last(a: Seq<char>, sep: char, b: Seq<char>)
    requires
        forall|j: int| 0 <= j < b.len() ==> #[trigger] b[j] != sep,
    ensures
        split_on(a.push(sep) + b, sep) == split_on(a, sep).push(b),
    decreases b.len(),
{
    let s = a.push(sep) + b;
    if b.len() == 0 {
        assert(b =~= Seq::<char>::empty());
        assert(s =~= a.push(sep));
        assert(s.drop_last() =~= a);
    } else {
        assert forall|j: int| 0 <= j < b.drop_last().len() implies #[trigger] b.drop_last()[j] != sep by {
            assert(b.drop_last()[j] == b[j]);
        }
        lemma_split_on_last(a, sep, b.drop_last());
        assert(s.drop_last() =~= a.push(sep) + b.drop_last());
        assert(s.last() == b.last());
        let prev = split_on(a, sep).push(b.drop_last());
        assert(b.drop_last().push(b.last()) =~= b);
        assert(prev.update(prev.len() - 1, prev.last().push(b.last())) =~= split_on(a, sep).push(b));
    }
}

/// The pieces of styled text cut at its spaces are styled, and none is
/// longer than the text.
pub proof fn lemma_split_styled(s: Seq<char>)
    requires
        styled_ascii(s),
    ensures
        forall|k: int| 0 <= k < split_on(s, ' ').len() ==> #[trigger] styled_ascii(split_on(s, ' ')[k])
            && split_on(s, ' ')[k].len() <= s.len(),
    decreases s.len(),
{
    lemma_last_index_of(s, ' ');
    let i = last_index_of(s, ' ');
    if i < 0 {
        lemma_split_on_none(s, ' ');
    } else {
        let a = s.take(i);
        let b = s.skip(i + 1);
        lemma_styled_split_at(s, i);
        assert forall|j: int| 0 <= j < b.len() implies #[trigger] b[j] != ' ' by {
            assert(b[j] == s[i + 1 + j]);
        }
        lemma_split_on_last(a, ' ', b);
        assert(a.push(' ') + b =~= s);
        lemma_split_styled(a);
        let pa = split_on(a, ' ');
        assert forall|k: int| 0 <= k < split_on(s, ' ').len() implies #[trigger] styled_ascii(split_on(s, ' ')[k])
            && split_on(s, ' ')[k].len() <= s.len() by {
            if k < pa.len() {
                assert(split_on(s, ' ')[k] == pa[k]);
            }
        }
    }
}


/// A character of terminal text: printable ASCII, a tab or a line break.
pub open spec fn text_char(c: char) -> bool {
    plain_char(c) || c == '\t' || c == '\n' || c == '\r'
}

/// Whether `s` is made of printable ASCII characters, tabs, line breaks and
/// complete color sequences only.
pub open spec fn styled_text(s: Seq<char>) -> bool
    decreases s.len(),
{
    if s.len() == 0 {
        true
    } else if sgr_len(s) > 0 {
        proof {
            lemma_sgr_len_bound(s);
        }
        styled_text(s.skip(sgr_len(s) as int))
    } else {
        text_char(s[0]) && styled_text(s.skip(1))
    }
}

proof fn lemma_text_concat(a: Seq<char>, b: Seq<char>)
    requires
        styled_text(a),
        styled_text(b),
    ensures
        styled_text(a + b),
    decreases a.len(),
{
    if a.len() == 0 {
        assert(a + b =~= b);
    } else if sgr_len(a) > 0 {
        let k = sgr_len(a) as int;
        lemma_sgr_len_bound(a);
        lemma_sgr_len_concat(a, b);
        assert((a + b).skip(k) =~= a.skip(k) + b);
        lemma_text_concat(a.skip(k), b);
    } else {
        assert(sgr_len(a + b) == 0) by {
            assert((a + b)[0] == a[0]);
        }
        assert((a + b).skip(1) =~= a.skip(1) + b);
        assert((a + b)[0] == a[0]);
        lemma_text_concat(a.skip(1), b);
    }
}

proof fn lemma_text_char(c: char)
    requires
        text_char(c),
    ensures
        styled_text(seq![c]),
{
    let e = seq![c].skip(1);
    assert(e =~= Seq::<char>::empty());
    assert(styled_text(e));
}

pub proof fn lemma_text_sgr_head(s: Seq<char>)
    requires
        styled_text(s),
        sgr_len(s) > 0,
    ensures
        styled_text(s.take(sgr_len(s) as int)),
        styled_text(s.skip(sgr_len(s) as int)),
{
    let k = sgr_len(s) as int;
    lemma_sgr_len_bound(s);
    let h = s.take(k);
    assert(sgr_len(h) == k) by {
        assert(h.skip(2) =~= s.skip(2).take(k - 2));
        assert(s.skip(2) =~= h.skip(2) + s.skip(k));
        lemma_params_len_back(s.skip(2), k - 2);
    }
    let e = h.skip(k);
    assert(e =~= Seq::<char>::empty());
    assert(styled_text(e));
}

proof fn lemma_text_split_at(s: Seq<char>, i: int)
    requires
        styled_text(s),
        0 <= i < s.len(),
        s[i] == '\n',
    ensures
        styled_text(s.take(i)),
        styled_text(s.skip(i + 1)),
    decreases s.len(),
{
    if sgr_len(s) > 0 {
        let k = sgr_len(s) as int;
        lemma_sgr_chars(s);
        lemma_sgr_len_bound(s);
        assert(i >= k) by {
            if i < k {
                assert(s[i] != '\n');
            }
        }
        lemma_text_sgr_head(s);
        let t = s.skip(k);
        assert(t[i - k] == s[i]);
        lemma_text_split_at(t, i - k);
        lemma_text_concat(s.take(k), t.take(i - k));
        assert(s.take(k) + t.take(i - k) =~= s.take(i));
        assert(t.skip(i - k + 1) =~= s.skip(i + 1));
    } else {
        let t = s.skip(1);
        if i == 0 {
            assert(s.take(0) =~= Seq::<char>::empty());
        } else {
            assert(t[i - 1] == s[i]);
            lemma_text_split_at(t, i - 1);
            lemma_text_char(s[0]);
            lemma_text_concat(seq![s[0]], t.take(i - 1));
            assert(seq![s[0]] + t.take(i - 1) =~= s.take(i));
            assert(t.skip(i) =~= s.skip(i + 1));
        }
    }
}

/// Styled terminal text without tabs and line breaks is styled text.
proof fn lemma_text_ascii(s: Seq<char>)
    requires
        styled_text(s),
        forall|i: int| 0 <= i < s.len() ==> #[trigger] s[i] != '\t' && s[i] != '\n' && s[i] != '\r',
    ensures
        styled_ascii(s),
    decreases s.len(),
{
    if s.len() > 0 {
        let k = if sgr_len(s) > 0 { sgr_len(s) as int } else { 1 };
        lemma_sgr_len_bound(s);
        let t = s.skip(k);
        assert forall|i: int| 0 <= i < t.len() implies #[trigger] t[i] != '\t' && t[i] != '\n' && t[i] != '\r' by {
            assert(t[i] == s[i + k]);
        }
        lemma_text_ascii(t);
        if sgr_len(s) == 0 {
            assert(s[0] != '\t' && s[0] != '\n' && s[0] != '\r');
        }
    }
}

proof fn lemma_split_text(s: Seq<char>)
    requires
        styled_text(s),
        forall|i: int| 0 <= i < s.len() ==> #[trigger] s[i] != '\t' && s[i] != '\r',
    ensures
        forall|k: int| 0 <= k < split_on(s, '\n').len() ==> #[trigger] styled_ascii(split_on(s, '\n')[k]),
    decreases s.len(),
{
    lemma_last_index_of(s, '\n');
    let i = last_index_of(s, '\n');
    if i < 0 {
        lemma_split_on_none(s, '\n');
        lemma_text_ascii(s);
    } else {
        let a = s.take(i);
        let b = s.skip(i + 1);
        lemma_text_split_at(s, i);
        assert forall|j: int| 0 <= j < b.len() implies #[trigger] b[j] != '\n' by {
            assert(b[j] == s[i + 1 + j]);
        }
        assert forall|j: int| 0 <= j < b.len() implies #[trigger] b[j] != '\t' && b[j] != '\n' && b[j] != '\r' by {
            assert(b[j] == s[i + 1 + j]);
        }
        lemma_text_ascii(b);
        assert forall|j: int| 0 <= j < a.len() implies #[trigger] a[j] != '\t' && a[j] != '\r' by {
            assert(a[j] == s[j]);
        }
        lemma_split_on_last(a, '\n', b);
        assert(a.push('\n') + b =~= s);
        lemma_split_text(a);
        let pa = split_on(a, '\n');
        assert forall|k: int| 0 <= k < split_on(s, '\n').len() implies #[trigger] styled_ascii(split_on(s, '\n')[k]) by {
            if k < pa.len() {
                assert(split_on(s, '\n')[k] == pa[k]);
            }
        }
    }
}

pub proof fn lemma_replace_concat(a: Seq<char>, b: Seq<char>, from: char, to: Seq<char>)
    ensures
        replace_char(a + b, from, to) == replace_char(a, from, to) + replace_char(b, from, to),
    decreases b.len(),
{
    if b.len() == 0 {
        assert(a + b =~= a);
        assert(replace_char(a, from, to) + replace_char(b, from, to) =~= replace_char(a, from, to));
    } else {
        assert((a + b).drop_last() =~= a + b.drop_last());
        assert((a + b).last() == b.last());
        lemma_replace_concat(a, b.drop_last(), from, to);
        let x = if b.last() == from { to } else { seq![b.last()] };
        assert(replace_char(a, from, to) + replace_char(b.drop_last(), from, to) + x
            =~= replace_char(a, from, to) + (replace_char(b.drop_last(), from, to) + x));
    }
}

proof fn lemma_replace_text(x: Seq<char>, from: char, to: Seq<char>)
    requires
        styled_text(x),
        styled_text(to),
        from == '\t' || from == '\r',
    ensures
        styled_text(replace_char(x, from, to)),
    decreases x.len(),
{
    if x.len() > 0 {
        let k = if sgr_len(x) > 0 { sgr_len(x) as int } else { 1 };
        lemma_sgr_len_bound(x);
        let h = x.take(k);
        let r = x.skip(k);
        assert(h + r =~= x);
        lemma_replace_concat(h, r, from, to);
        lemma_replace_text(r, from, to);
        if sgr_len(x) > 0 {
            lemma_text_sgr_head(x);
            lemma_sgr_chars(x);
            assert forall|i: int| 0 <= i < h.len() implies #[trigger] h[i] != from by {
                assert(h[i] == x[i]);
            }
            lemma_replace_absent(h, from, to);
        } else {
            assert(h =~= seq![x[0]]);
            assert(h.drop_last() =~= Seq::<char>::empty());
            assert(h.last() == x[0]);
            assert(replace_char(h.drop_last(), from, to) =~= Seq::<char>::empty());
            lemma_text_char(x[0]);
            if x[0] == from {
                assert(replace_char(h, from, to) =~= to);
            } else {
                assert(replace_char(h, from, to) =~= seq![x[0]]);
            }
        }
        lemma_text_concat(replace_char(h, from, to), replace_char(r, from, to));
    }
}

/// After the replacement, no `c` is left where neither the text outside `from`
/// nor the replacement holds one.
proof fn lemma_replace_without(x: Seq<char>, from: char, to: Seq<char>, c: char)
    requires
        forall|i: int| 0 <= i < to.len() ==> #[trigger] to[i] != c,
        forall|i: int| 0 <= i < x.len() && x[i] != from ==> #[trigger] x[i] != c,
    ensures
        forall|i: int| 0 <= i < replace_char(x, from, to).len() ==> #[trigger] replace_char(x, from, to)[i] != c,
    decreases x.len(),
{
    if x.len() > 0 {
        assert forall|i: int| 0 <= i < x.drop_last().len() && x.drop_last()[i] != from implies #[trigger] x.drop_last()[i] != c by {
            assert(x.drop_last()[i] == x[i]);
        }
        lemma_replace_without(x.drop_last(), from, to, c);
        let p = replace_char(x.drop_last(), from, to);
        let q = if x.last() == from { to } else { seq![x.last()] };
        assert forall|i: int| 0 <= i < replace_char(x, from, to).len() implies #[trigger] replace_char(x, from, to)[i] != c by {
            if i < p.len() {
                assert(replace_char(x, from, to)[i] == p[i]);
            } else {
                assert(replace_char(x, from, to)[i] == q[i - p.len()]);
                if x.last() != from {
                    assert(x[x.len() - 1] != c);
                }
            }
        }
    }
}

proof fn lemma_crlf_prefix(h: Seq<char>, r: Seq<char>)
    requires
        forall|i: int| 0 <= i < h.len() ==> #[trigger] h[i] != '\r',
    ensures
        replace_crlf(h + r) == h + replace_crlf(r),
    decreases h.len(),
{
    if h.len() == 0 {
        assert(h + r =~= r);
        assert(h + replace_crlf(r) =~= replace_crlf(r));
    } else {
        assert((h + r)[0] == h[0]);
        assert((h + r).skip(1) =~= h.skip(1) + r);
        assert forall|i: int| 0 <= i < h.skip(1).len() implies #[trigger] h.skip(1)[i] != '\r' by {
            assert(h.skip(1)[i] == h[i + 1]);
        }
        lemma_crlf_prefix(h.skip(1), r);
        assert(seq![h[0]] + (h.skip(1) + replace_crlf(r)) =~= h + replace_crlf(r));
    }
}

proof fn lemma_crlf_text(s: Seq<char>)
    requires
        styled_text(s),
    ensures
        styled_text(replace_crlf(s)),
    decreases s.len(),
{
    if s.len() > 0 {
        if sgr_len(s) > 0 {
            let k = sgr_len(s) as int;
            lemma_sgr_len_bound(s);
            lemma_sgr_chars(s);
            lemma_text_sgr_head(s);
            let h = s.take(k);
            assert(h + s.skip(k) =~= s);
            assert forall|i: int| 0 <= i < h.len() implies #[trigger] h[i] != '\r' by {
                assert(h[i] == s[i]);
            }
            lemma_crlf_prefix(h, s.skip(k));
            lemma_crlf_text(s.skip(k));
            lemma_text_concat(h, replace_crlf(s.skip(k)));
        } else if s.len() >= 2 && s[0] == '\r' && s[1] == '\n' {
            let t = s.skip(1);
            assert(t[0] == '\n');
            assert(styled_text(t));
            assert(sgr_len(t) == 0);
            assert(styled_text(t.skip(1)));
            assert(t.skip(1) =~= s.skip(2));
            lemma_crlf_text(s.skip(2));
            lemma_text_char('\n');
            lemma_text_concat(seq!['\n'], replace_crlf(s.skip(2)));
        } else {
            lemma_crlf_text(s.skip(1));
            lemma_text_char(s[0]);
            lemma_text_concat(seq![s[0]], replace_crlf(s.skip(1)));
        }
    }
}

/// Once line endings are normalized and tabs expanded, every line of styled
/// terminal text is styled text.
pub proof fn lemma_styled_text_lines(t: Seq<char>)
    requires
        styled_text(t),
    ensures
        forall|k: int| 0 <= k < lines_of(crate::ansi::normalize_text(t)).len()
            ==> #[trigger] styled_ascii(lines_of(crate::ansi::normalize_text(t))[k]),
{
    let n1 = replace_crlf(t);
    lemma_crlf_text(t);
    let nl = seq!['\n'];
    lemma_text_char('\n');
    let n2 = replace_char(n1, '\r', nl);
    lemma_replace_text(n1, '\r', nl);
    lemma_replace_without(n1, '\r', nl, '\r');
    let sp = repeat_char(' ', 4);
    assert(sp =~= seq![' '] + seq![' '] + seq![' '] + seq![' ']);
    lemma_text_char(' ');
    lemma_text_concat(seq![' '], seq![' ']);
    lemma_text_concat(seq![' '] + seq![' '], seq![' ']);
    lemma_text_concat(seq![' '] + seq![' '] + seq![' '], seq![' ']);
    let n3 = replace_char(n2, '\t', sp);
    assert(n3 == crate::ansi::normalize_text(t));
    lemma_replace_text(n2, '\t', sp);
    lemma_replace_without(n2, '\t', sp, '\t');
    lemma_replace_without(n2, '\t', sp, '\r');
    assert forall|i: int| 0 <= i < n3.len() implies #[trigger] n3[i] != '\t' && n3[i] != '\r' by {
    }
    lemma_split_text(n3);
    crate::text::lemma_split_on_nonempty(n3, '\n');
    let pieces = split_on(n3, '\n');
    let m = pieces.len();
    assert forall|k: int| 0 <= k < lines_of(n3).len() implies #[trigger] styled_ascii(lines_of(n3)[k]) by {
        assert(styled_ascii(pieces[k]));
        if k < m - 1 {
            assert(lines_of(n3)[k] == strip_cr(pieces[k]));
            if pieces[k].len() > 0 && pieces[k].last() == '\r' {
                lemma_styled_no_cr(pieces[k]);
                assert(pieces[k][pieces[k].len() - 1] == '\r');
            }
        } else {
            assert(lines_of(n3)[k] == pieces[m - 1]);
        }
    }
}

proof fn lemma_styled_no_cr(s: Seq<char>)
    requires
        styled_ascii(s),
    ensures
        forall|i: int| 0 <= i < s.len() ==> #[trigger] s[i] != '\r',
    decreases s.len(),
{
    if s.len() > 0 {
        let k = if sgr_len(s) > 0 { sgr_len(s) as int } else { 1 };
        lemma_sgr_len_bound(s);
        if sgr_len(s) > 0 {
            lemma_sgr_chars(s);
        }
        lemma_styled_no_cr(s.skip(k));
        assert forall|i: int| 0 <= i < s.len() implies #[trigger] s[i] != '\r' by {
            if i >= k {
                assert(s[i] == s.skip(k)[i - k]);
            }
        }
    }
}

} // verus!
