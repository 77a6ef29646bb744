//! Flag, token and route specifications, and how route patterns are parsed.
use vstd::prelude::*;
use crate::text::{
    chars_of, is_ws, lemma_first_non_ws, lemma_last_non_ws, split_chars, split_on, string_of, trim_exec,
    trim_spec, trim_start_char, trim_start_char_exec, views, words_exec, words_of,
};

verus! {

/// Whether a flag must be given, or is optional with a default value.
#[derive(Debug, Clone)]
pub enum FlagKind {
    /// The flag must be provided.
    Required,
    /// The flag is optional and defaults to the contained value.
    Optional(String),
}

/// A flag: its names (e.g. `["l", "load", "pull"]`) and whether it is required.
#[derive(Debug, Clone)]
pub struct FlagSpec {
    /// All names of the flag; the first long name (or else the first name)
    /// is the key of its value in the context.
    pub names: Vec<String>,
    /// Validation and default policy.
    pub kind: FlagKind,
}

/// The mathematical content of a flag: its names and its default (`None` when required).
pub struct FlagView {
    pub names: Seq<Seq<char>>,
    pub default: Option<Seq<char>>,
}

impl View for FlagSpec {
    type V = FlagView;

    open spec fn view(&self) -> FlagView {
        FlagView {
            names: views(self.names@),
            default: match self.kind {
                FlagKind::Required => None,
                FlagKind::Optional(d) => Some(d@),
            },
        }
    }
}

/// Length of the UTF-8 encoding of a text, as `str::len` returns it.
pub open spec fn byte_len(s: Seq<char>) -> usize {
    vstd::utf8::encode_utf8(s).len() as usize
}

/// Index of the first name longer than one byte, if any.
pub open spec fn first_long(names: Seq<Seq<char>>, i: int) -> Option<int>
    decreases names.len() - i,
{
    if i < 0 || i >= names.len() {
        None
    } else if byte_len(names[i]) > 1 {
        Some(i)
    } else {
        first_long(names, i + 1)
    }
}

/// Index of the first name of exactly one byte, if any.
pub open spec fn first_short(names: Seq<Seq<char>>, i: int) -> Option<int>
    decreases names.len() - i,
{
    if i < 0 || i >= names.len() {
        None
    } else if byte_len(names[i]) == 1 {
        Some(i)
    } else {
        first_short(names, i + 1)
    }
}

/// The key under which a flag's value is stored.
pub open spec fn canonical_spec(names: Seq<Seq<char>>) -> Seq<char> {
    match first_long(names, 0) {
        Some(i) => names[i],
        None => names[0],
    }
}

pub proof fn lemma_first_long(names: Seq<Seq<char>>, i: int)
    requires
        0 <= i,
    ensures
        first_long(names, i) matches Some(j) ==> i <= j < names.len() && byte_len(names[j]) > 1,
    decreases names.len() - i,
{
    if i < names.len() && byte_len(names[i]) <= 1 {
        lemma_first_long(names, i + 1);
    }
}

pub proof fn lemma_first_short(names: Seq<Seq<char>>, i: int)
    requires
        0 <= i,
    ensures
        first_short(names, i) matches Some(j) ==> i <= j < names.len() && byte_len(names[j]) == 1,
    decreases names.len() - i,
{
    if i < names.len() && byte_len(names[i]) != 1 {
        lemma_first_short(names, i + 1);
    }
}

impl FlagSpec {
    /// The canonical name used as the flag's key: the first long name, or the first name.
    pub fn canonical_name(&self) -> (r: &str)
        requires
            self.names@.len() > 0,
        ensures
            r@ == canonical_spec(self@.names),
    {
        let mut i: usize = 0;
        while i < self.names.len()
            invariant
                i <= self.names@.len(),
                self.names@.len() > 0,
                first_long(self@.names, 0) == first_long(self@.names, i as int),
            decreases self.names.len() - i,
        {
            assert(self@.names[i as int] == self.names@[i as int]@);
            if self.names[i].as_str().len() > 1 {
                return self.names[i].as_str();
            }
            i += 1;
        }
        self.names[0].as_str()
    }

    /// The explicitly declared single-character alias, if any.
    pub fn explicit_short(&self) -> (r: Option<char>)
        ensures
            r == (match first_short(self@.names, 0) {
                Some(i) => Some(self@.names[i][0]),
                None => None,
            }),
    {
        let mut i: usize = 0;
        while i < self.names.len()
            invariant
                i <= self.names@.len(),
                first_short(self@.names, 0) == first_short(self@.names, i as int),
            decreases self.names.len() - i,
        {
            let n = self.names[i].as_str();
            assert(self@.names[i as int] == n@);
            if n.len() == 1 {
                proof {
                    if n@.len() == 0 {
                        assert(n@ =~= Seq::<char>::empty());
                        assert(vstd::utf8::encode_utf8(n@).len() == 0);
                    }
                }
                return Some(n.get_char(0));
            }
            i += 1;
        }
        None
    }
}

/// Pieces of a route pattern.
#[derive(Debug, Clone)]
pub enum TokenSpec {
    /// A literal subcommand name.
    Literal(String),
    /// A positional argument.
    Positional(String),
    /// A catch-all positional argument.
    Rest(String),
}

/// The mathematical content of a token.
pub enum TokenView {
    Literal(Seq<char>),
    Positional(Seq<char>),
    Rest(Seq<char>),
}

impl View for TokenSpec {
    type V = TokenView;

    open spec fn view(&self) -> TokenView {
        match self {
            TokenSpec::Literal(s) => TokenView::Literal(s@),
            TokenSpec::Positional(s) => TokenView::Positional(s@),
            TokenSpec::Rest(s) => TokenView::Rest(s@),
        }
    }
}

/// A parsed route pattern.
#[derive(Debug, Clone)]
pub struct RouteSpec {
    /// The pattern text.
    pub pattern_raw: &'static str,
    /// Documentation of the route.
    pub doc: &'static str,
    /// Ordered tokens of the pattern.
    pub tokens: Vec<TokenSpec>,
    /// Flags of the pattern.
    pub flags: Vec<FlagSpec>,
}

/// Index of the first `c` in `s` at or after `i`.
pub open spec fn first_index_of(s: Seq<char>, c: char, i: int) -> Option<int>
    decreases s.len() - i,
{
    if i < 0 || i >= s.len() {
        None
    } else if s[i] == c {
        Some(i)
    } else {
        first_index_of(s, c, i + 1)
    }
}

pub proof fn lemma_first_index_of(s: Seq<char>, c: char, i: int)
    requires
        0 <= i,
    ensures
        first_index_of(s, c, i) matches Some(j) ==> i <= j < s.len() && s[j] == c,
    decreases s.len() - i,
{
    if i < s.len() && s[i] != c {
        lemma_first_index_of(s, c, i + 1);
    }
}

pub fn first_index_exec(s: &[char], c: char) -> (r: Option<usize>)
    ensures
        match r {
            Some(j) => first_index_of(s@, c, 0) == Some(j as int),
            None => first_index_of(s@, c, 0) is None,
        },
{
    let mut i: usize = 0;
    while i < s.len()
        invariant
            i <= s.len(),
            first_index_of(s@, c, 0) == first_index_of(s@, c, i as int),
        decreases s.len() - i,
    {
        if s[i] == c {
            return Some(i);
        }
        i += 1;
    }
    None
}

/// `str::split_once(c)`: the text before the first `c` and, if there is one, after it.
pub open spec fn split_once_spec(s: Seq<char>, c: char) -> (Seq<char>, Option<Seq<char>>) {
    match first_index_of(s, c, 0) {
        Some(j) => (s.take(j), Some(s.skip(j + 1))),
        None => (s, None),
    }
}

/// A flag name as written in a pattern, without surrounding blanks and leading dashes.
pub open spec fn clean_flag_name(n: Seq<char>) -> Seq<char> {
    trim_start_char(trim_spec(n), '-')
}

/// The non-empty cleaned names of the `|`-separated alternatives.
pub open spec fn flag_names(parts: Seq<Seq<char>>) -> Seq<Seq<char>>
    decreases parts.len(),
{
    if parts.len() == 0 {
        Seq::empty()
    } else {
        let prev = flag_names(parts.drop_last());
        let n = clean_flag_name(parts.last());
        if n.len() > 0 {
            prev.push(n)
        } else {
            prev
        }
    }
}

/// What `parse_single_flag` makes of a raw flag token such as `-l|--load=x`.
pub open spec fn parse_single_flag_spec(raw: Seq<char>) -> Option<FlagView> {
    let (left, default) = split_once_spec(raw, '=');
    let names = flag_names(split_on(left, '|'));
    if names.len() == 0 {
        None
    } else {
        Some(FlagView { names, default })
    }
}

fn clean_flag_name_exec(n: &Vec<char>) -> (r: Vec<char>)
    ensures
        r@ == clean_flag_name(n@),
{
    let t = trim_exec(n.as_slice());
    trim_start_char_exec(t.as_slice(), '-')
}

/// Parses a raw flag token (aliases joined by `|`, an optional `=default`).
pub fn parse_single_flag_chars(raw: &Vec<char>) -> (r: Option<FlagSpec>)
    ensures
        match r {
            Some(f) => parse_single_flag_spec(raw@) == Some(f@),
            None => parse_single_flag_spec(raw@) is None,
        },
{
    let ghost so = split_once_spec(raw@, '=');
    let (left, default): (Vec<char>, Option<Vec<char>>) = match first_index_exec(raw.as_slice(), '=') {
        Some(j) => {
            proof {
                lemma_first_index_of(raw@, '=', 0);
            }
            assert(j < raw.len());
            let l = crate::ansi::slice_vec(raw, 0, j);
            let d = crate::ansi::slice_vec(raw, j + 1, raw.len());
            assert(l@ =~= raw@.take(j as int));
            assert(d@ =~= raw@.skip(j + 1));
            (l, Some(d))
        },
        None => (raw.clone(), None),
    };
    let parts = split_chars(left.as_slice(), '|');
    let ghost sp = split_on(left@, '|');
    let mut names: Vec<String> = Vec::new();
    let mut k: usize = 0;
    assert(views(names@) =~= flag_names(sp.take(0)));
    while k < parts.len()
        invariant
            parts@.len() == sp.len(),
            forall|t: int| 0 <= t < parts@.len() ==> #[trigger] parts@[t]@ == sp[t],
            k <= parts@.len(),
            views(names@) == flag_names(sp.take(k as int)),
        decreases parts.len() - k,
    {
        let n = clean_flag_name_exec(&parts[k]);
        assert(sp.take(k + 1).drop_last() =~= sp.take(k as int));
        assert(sp.take(k + 1).last() == parts@[k as int]@);
        if n.len() > 0 {
            let ghost before = names@;
            names.push(string_of(n.as_slice()));
            assert(views(names@) =~= views(before).push(n@));
        }
        k += 1;
    }
    assert(sp.take(parts@.len() as int) =~= sp);
    if names.len() == 0 {
        return None;
    }
    let kind = match default {
        Some(d) => FlagKind::Optional(string_of(d.as_slice())),
        None => FlagKind::Required,
    };
    Some(FlagSpec { names, kind })
}

/// Parses a raw flag token such as `-l|--load|--pull` or `--port=8080` into a
/// flag specification; `None` when it names nothing.
pub fn parse_single_flag(raw: &str) -> (r: Option<FlagSpec>)
    ensures
        match r {
            Some(f) => parse_single_flag_spec(raw@) == Some(f@),
            None => parse_single_flag_spec(raw@) is None,
        },
{
    let v = chars_of(raw);
    parse_single_flag_chars(&v)
}

/// `s` without all leading copies of `..`.
pub open spec fn trim_start_dots(s: Seq<char>) -> Seq<char>
    decreases s.len(),
{
    if s.len() >= 2 && s[0] == '.' && s[1] == '.' {
        trim_start_dots(s.skip(2))
    } else {
        s
    }
}

/// `s` without all trailing copies of `..`.
pub open spec fn trim_end_dots(s: Seq<char>) -> Seq<char>
    decreases s.len(),
{
    if s.len() >= 2 && s[s.len() - 2] == '.' && s[s.len() - 1] == '.' {
        trim_end_dots(s.take(s.len() - 2))
    } else {
        s
    }
}

fn trim_start_dots_exec(s: &Vec<char>) -> (r: Vec<char>)
    ensures
        r@ == trim_start_dots(s@),
{
    let mut i: usize = 0;
    assert(s@.skip(0) =~= s@);
    while s.len() >= 2 && i < s.len() - 1 && s[i] == '.' && s[i + 1] == '.'
        invariant
            i <= s@.len(),
            trim_start_dots(s@) == trim_start_dots(s@.skip(i as int)),
        decreases s.len() - i,
    {
        assert(s@.skip(i as int).skip(2) =~= s@.skip(i + 2));
        i += 2;
    }
    let r = crate::ansi::slice_vec(s, i, s.len());
    assert(r@ =~= s@.skip(i as int));
    r
}

fn trim_end_dots_exec(s: &Vec<char>) -> (r: Vec<char>)
    ensures
        r@ == trim_end_dots(s@),
{
    let mut j: usize = s.len();
    assert(s@.take(j as int) =~= s@);
    while j >= 2 && s[j - 2] == '.' && s[j - 1] == '.'
        invariant
            j <= s@.len(),
            trim_end_dots(s@) == trim_end_dots(s@.take(j as int)),
        decreases j,
    {
        let ghost t = s@.take(j as int);
        assert(t.len() == j);
        assert(t[j - 2] == s@[j - 2]);
        assert(t[j - 1] == s@[j - 1]);
        assert(t.take(j - 2) =~= s@.take(j - 2));
        assert(trim_end_dots(t) == trim_end_dots(t.take(t.len() - 2)));
        j -= 2;
    }
    let r = crate::ansi::slice_vec(s, 0, j);
    assert(r@ =~= s@.take(j as int));
    r
}

/// What one whitespace-separated piece of a pattern is.
pub enum PatternPiece {
    Flag(Option<FlagView>),
    Token(TokenView),
}

pub open spec fn classify_piece(part: Seq<char>) -> PatternPiece {
    if part.len() > 0 && part[0] == '-' {
        PatternPiece::Flag(parse_single_flag_spec(part))
    } else if part.len() > 0 && part[0] == '{' && part.last() == '}' {
        let inner = part.subrange(1, part.len() - 1);
        if inner.len() >= 2 && inner[0] == '.' && inner[1] == '.' {
            PatternPiece::Token(TokenView::Rest(trim_start_dots(inner)))
        } else if inner.len() >= 2 && inner[inner.len() - 2] == '.' && inner[inner.len() - 1] == '.' {
            PatternPiece::Token(TokenView::Rest(trim_end_dots(inner)))
        } else {
            PatternPiece::Token(TokenView::Positional(inner))
        }
    } else {
        PatternPiece::Token(TokenView::Literal(part))
    }
}

/// Tokens and flags of the pattern pieces before `n`.
pub open spec fn pattern_parts(parts: Seq<Seq<char>>, n: int) -> (Seq<TokenView>, Seq<FlagView>)
    decreases n,
{
    if n <= 0 || n > parts.len() {
        (Seq::empty(), Seq::empty())
    } else {
        let (toks, flags) = pattern_parts(parts, n - 1);
        match classify_piece(parts[n - 1]) {
            PatternPiece::Flag(Some(f)) => (toks, flags.push(f)),
            PatternPiece::Flag(None) => (toks, flags),
            PatternPiece::Token(t) => (toks.push(t), flags),
        }
    }
}

/// Tokens and flags of a route pattern.
pub open spec fn parse_pattern_spec(pattern: Seq<char>) -> (Seq<TokenView>, Seq<FlagView>) {
    let parts = words_of(pattern);
    pattern_parts(parts, parts.len() as int)
}

pub open spec fn token_views(v: Seq<TokenSpec>) -> Seq<TokenView> {
    v.map_values(|t: TokenSpec| t@)
}

pub open spec fn flag_views(v: Seq<FlagSpec>) -> Seq<FlagView> {
    v.map_values(|f: FlagSpec| f@)
}

/// Parses a route pattern such as `add {name} {..rest} --force=false` into
/// its tokens (literals, positionals, catch-alls) and flags.
pub fn parse_pattern(pattern: &'static str, doc: &'static str) -> (r: RouteSpec)
    ensures
        r.pattern_raw == pattern,
        r.doc == doc,
        (token_views(r.tokens@), flag_views(r.flags@)) == parse_pattern_spec(pattern@),
{
    let v = chars_of(pattern);
    let parts = words_exec(v.as_slice());
    let ghost ps = words_of(pattern@);
    let mut tokens: Vec<TokenSpec> = Vec::new();
    let mut flags: Vec<FlagSpec> = Vec::new();
    let mut k: usize = 0;
    assert(token_views(tokens@) =~= Seq::<TokenView>::empty());
    assert(flag_views(flags@) =~= Seq::<FlagView>::empty());
    while k < parts.len()
        invariant
            parts@.map_values(|c: Vec<char>| c@) == ps,
            k <= parts@.len(),
            (token_views(tokens@), flag_views(flags@)) == pattern_parts(ps, k as int),
        decreases parts.len() - k,
    {
        let part = &parts[k];
        assert(ps[k as int] == part@);
        let ghost tv = token_views(tokens@);
        let ghost fv = flag_views(flags@);
        if part.len() > 0 && part[0] == '-' {
            match parse_single_flag_chars(part) {
                Some(f) => {
                    flags.push(f);
                    assert(flag_views(flags@) =~= fv.push(f@));
                },
                None => {},
            }
        } else if part.len() > 0 && part[0] == '{' && part[part.len() - 1] == '}' {
            let inner = crate::ansi::slice_vec(part, 1, part.len() - 1);
            let tok = if inner.len() >= 2 && inner[0] == '.' && inner[1] == '.' {
                TokenSpec::Rest(string_of(trim_start_dots_exec(&inner).as_slice()))
            } else if inner.len() >= 2 && inner[inner.len() - 2] == '.' && inner[inner.len() - 1] == '.' {
                TokenSpec::Rest(string_of(trim_end_dots_exec(&inner).as_slice()))
            } else {
                TokenSpec::Positional(string_of(inner.as_slice()))
            };
            tokens.push(tok);
            assert(token_views(tokens@) =~= tv.push(tok@));
        } else {
            let tok = TokenSpec::Literal(string_of(part.as_slice()));
            tokens.push(tok);
            assert(token_views(tokens@) =~= tv.push(tok@));
        }
        k += 1;
    }
    RouteSpec { pattern_raw: pattern, doc, tokens, flags }
}

} // verus!
