//! Argument validation for a resolved command: flags, positionals, defaults.
use vstd::prelude::*;
use crate::parser::context::{pair_views, pairs_map, str_eq, string_eq, Context};
use crate::parser::node::CommandNode;
use crate::parser::spec::{
    byte_len, canonical_spec, first_index_exec, first_index_of, flag_views, lemma_first_index_of,
    split_once_spec, token_views, FlagKind, FlagSpec, FlagView, TokenSpec, TokenView,
};
use crate::text::{chars_of, cviews, string_of, views};

verus! {

/// Argument parsing errors.
#[derive(Debug)]
pub enum ParseError {
    /// An error followed by a hint.
    ErrorWithHelp(Box<ParseError>, String),
    /// No command of that name.
    UnknownCommand(String),
    /// A required flag (named without dashes) is missing.
    MissingRequiredFlag(String),
    /// A positional argument is missing.
    MissingPositional(String),
    /// An argument nothing accepts.
    UnexpectedArgument(String),
    /// A flag nothing declares.
    UnknownFlag(String),
}

/// The mathematical content of a parse error.
pub enum ParseFailure {
    ErrorWithHelp(Box<ParseFailure>, Seq<char>),
    UnknownCommand(Seq<char>),
    MissingRequiredFlag(Seq<char>),
    MissingPositional(Seq<char>),
    UnexpectedArgument(Seq<char>),
    UnknownFlag(Seq<char>),
}

impl View for ParseError {
    type V = ParseFailure;

    open spec fn view(&self) -> ParseFailure
        decreases self,
    {
        match self {
            ParseError::ErrorWithHelp(e, h) => ParseFailure::ErrorWithHelp(Box::new((**e).view()), h@),
            ParseError::UnknownCommand(s) => ParseFailure::UnknownCommand(s@),
            ParseError::MissingRequiredFlag(s) => ParseFailure::MissingRequiredFlag(s@),
            ParseError::MissingPositional(s) => ParseFailure::MissingPositional(s@),
            ParseError::UnexpectedArgument(s) => ParseFailure::UnexpectedArgument(s@),
            ParseError::UnknownFlag(s) => ParseFailure::UnknownFlag(s@),
        }
    }
}

/// The command-line spelling of a flag name: `-x` for one byte, `--name` otherwise.
pub open spec fn flag_key(name: Seq<char>) -> Seq<char> {
    if byte_len(name) == 1 {
        seq!['-'] + name
    } else {
        seq!['-', '-'] + name
    }
}

/// A lookup entry: spelling, index of the flag, and whether it is the `--no-` form.
pub type FlagEntry = (Seq<char>, nat, bool);

/// Entries for the names of flag `f` (number `fi`): each spelling, plus
/// `--no-<name>` for long names of flags whose default is `true`.
pub open spec fn name_entries(f: FlagView, fi: nat, names: Seq<Seq<char>>) -> Seq<FlagEntry>
    decreases names.len(),
{
    if names.len() == 0 {
        Seq::empty()
    } else {
        let n = names.last();
        let prev = name_entries(f, fi, names.drop_last()).push((flag_key(n), fi, false));
        if f.default == Some("true"@) && byte_len(n) > 1 {
            prev.push((seq!['-', '-', 'n', 'o', '-'] + n, fi, true))
        } else {
            prev
        }
    }
}

/// Lookup entries of all flags, in declaration order.
pub open spec fn flag_entries(flags: Seq<FlagView>) -> Seq<FlagEntry>
    decreases flags.len(),
{
    if flags.len() == 0 {
        Seq::empty()
    } else {
        flag_entries(flags.drop_last()) + name_entries(flags.last(), (flags.len() - 1) as nat, flags.last().names)
    }
}

/// The last entry for `key` (later entries replace earlier ones).
pub open spec fn lookup_flag(entries: Seq<FlagEntry>, key: Seq<char>) -> Option<(nat, bool)>
    decreases entries.len(),
{
    if entries.len() == 0 {
        None
    } else if entries.last().0 == key {
        Some((entries.last().1, entries.last().2))
    } else {
        lookup_flag(entries.drop_last(), key)
    }
}

pub open spec fn is_help_token(t: Seq<char>) -> bool {
    t == "--help"@ || t == "-h"@
}

/// The tokens that are not help requests.
pub open spec fn without_help(ts: Seq<Seq<char>>) -> Seq<Seq<char>>
    decreases ts.len(),
{
    if ts.len() == 0 {
        Seq::empty()
    } else if is_help_token(ts.last()) {
        without_help(ts.drop_last())
    } else {
        without_help(ts.drop_last()).push(ts.last())
    }
}

pub open spec fn starts_with_dash(w: Seq<char>) -> bool {
    w.len() > 0 && w[0] == '-'
}

/// Flag-scanning state: values given to flags (by canonical name) and the plain words.
pub struct FlagScan {
    pub given: Seq<(Seq<char>, Seq<char>)>,
    pub words: Seq<Seq<char>>,
}

/// Scans the words from `i`: every word starting with `-` must be a declared
/// flag spelling (`--name`, `-x`, `--no-name`, optionally with `=value`);
/// booleans may take an explicit `true`/`false`, other flags take the next
/// word unless it starts with `-`; a required flag without a value fails.
pub open spec fn scan_flags(
    words: Seq<Seq<char>>,
    flags: Seq<FlagView>,
    entries: Seq<FlagEntry>,
    i: int,
    st: FlagScan,
) -> Result<FlagScan, ParseFailure>
    decreases words.len() - i,
{
    if i < 0 || i >= words.len() {
        Ok(st)
    } else {
        let w = words[i];
        if starts_with_dash(w) {
            let (key, inline_opt) = split_once_spec(w, '=');
            let inline = match inline_opt {
                Some(v) => v,
                None => Seq::<char>::empty(),
            };
            match lookup_flag(entries, key) {
                None => Err(ParseFailure::UnknownFlag(w)),
                Some((fi, neg)) => {
                    if fi >= flags.len() {
                        Ok(st)
                    } else {
                        let f = flags[fi as int];
                        let canon = canonical_spec(f.names);
                        let is_bool = f.default == Some("true"@) || f.default == Some("false"@);
                        if inline.len() > 0 {
                            let v = if neg {
                                if inline == "false"@ { "true"@ } else { "false"@ }
                            } else {
                                inline
                            };
                            scan_flags(words, flags, entries, i + 1, FlagScan { given: st.given.push((canon, v)), ..st })
                        } else if neg {
                            scan_flags(words, flags, entries, i + 1, FlagScan { given: st.given.push((canon, "false"@)), ..st })
                        } else if is_bool {
                            if i + 1 < words.len() && (words[i + 1] == "true"@ || words[i + 1] == "false"@) {
                                scan_flags(words, flags, entries, i + 2, FlagScan { given: st.given.push((canon, words[i + 1])), ..st })
                            } else {
                                scan_flags(words, flags, entries, i + 1, FlagScan { given: st.given.push((canon, "true"@)), ..st })
                            }
                        } else if i + 1 < words.len() && !starts_with_dash(words[i + 1]) {
                            scan_flags(words, flags, entries, i + 2, FlagScan { given: st.given.push((canon, words[i + 1])), ..st })
                        } else if f.default is None {
                            Err(ParseFailure::MissingRequiredFlag(canon))
                        } else {
                            scan_flags(words, flags, entries, i + 1, st)
                        }
                    }
                }
            }
        } else {
            scan_flags(words, flags, entries, i + 1, FlagScan { words: st.words.push(w), ..st })
        }
    }
}

/// Words joined with single spaces.
pub open spec fn join_spaces(ws: Seq<Seq<char>>) -> Seq<char>
    decreases ws.len(),
{
    if ws.len() == 0 {
        Seq::empty()
    } else if ws.len() == 1 {
        ws[0]
    } else {
        join_spaces(ws.drop_last()) + seq![' '] + ws.last()
    }
}

/// Assigns positional tokens from `k` on: a positional takes the next word
/// (missing ones fail unless help was requested); a catch-all takes all
/// remaining words joined with spaces (under `rest` when unnamed) and ends
/// the assignment.  Gives the arguments and the index of the next unused word.
pub open spec fn assign_positionals(
    toks: Seq<TokenView>,
    words: Seq<Seq<char>>,
    help: bool,
    k: int,
    idx: int,
    args: Seq<(Seq<char>, Seq<char>)>,
) -> Result<(Seq<(Seq<char>, Seq<char>)>, int), ParseFailure>
    decreases toks.len() - k,
{
    if k < 0 || k >= toks.len() {
        Ok((args, idx))
    } else {
        match toks[k] {
            TokenView::Positional(name) => {
                if idx >= words.len() {
                    if !help {
                        Err(ParseFailure::MissingPositional(name))
                    } else {
                        assign_positionals(toks, words, help, k + 1, idx, args)
                    }
                } else {
                    assign_positionals(toks, words, help, k + 1, idx + 1, args.push((name, words[idx])))
                }
            },
            TokenView::Rest(name) => {
                let key = if name.len() == 0 { "rest"@ } else { name };
                Ok((args.push((key, join_spaces(words.subrange(idx, words.len() as int)))), words.len() as int))
            },
            TokenView::Literal(_) => assign_positionals(toks, words, help, k + 1, idx, args),
        }
    }
}

/// The value given for canonical name `c`, if any (the last one wins).
pub open spec fn given_value(given: Seq<(Seq<char>, Seq<char>)>, c: Seq<char>) -> Option<Seq<char>>
    decreases given.len(),
{
    if given.len() == 0 {
        None
    } else if given.last().0 == c {
        Some(given.last().1)
    } else {
        given_value(given.drop_last(), c)
    }
}

/// Adds the value (given or default) of every flag from `k` on; a required
/// flag without a value fails unless help was requested.
pub open spec fn add_flag_values(
    flags: Seq<FlagView>,
    given: Seq<(Seq<char>, Seq<char>)>,
    help: bool,
    k: int,
    args: Seq<(Seq<char>, Seq<char>)>,
) -> Result<Seq<(Seq<char>, Seq<char>)>, ParseFailure>
    decreases flags.len() - k,
{
    if k < 0 || k >= flags.len() {
        Ok(args)
    } else {
        let canon = canonical_spec(flags[k].names);
        match given_value(given, canon) {
            Some(v) => add_flag_values(flags, given, help, k + 1, args.push((canon, v))),
            None => match flags[k].default {
                Some(d) => add_flag_values(flags, given, help, k + 1, args.push((canon, d))),
                None => if !help {
                    Err(ParseFailure::MissingRequiredFlag(canon))
                } else {
                    add_flag_values(flags, given, help, k + 1, args)
                },
            },
        }
    }
}

/// Whether every flag has at least one name (needed for its canonical name).
pub open spec fn flags_named(flags: Seq<FlagView>) -> bool {
    forall|k: int| 0 <= k < flags.len() ==> #[trigger] flags[k].names.len() > 0
}

/// The outcome of validating `remaining` against a command with flags
/// `node_flags` and positional tokens `toks`, plus the global flags: the
/// arguments (as key-value pairs, later ones winning) and whether help was asked for.
pub open spec fn validate_spec(
    node_flags: Seq<FlagView>,
    toks: Seq<TokenView>,
    global: Seq<FlagView>,
    remaining: Seq<Seq<char>>,
) -> Result<(Seq<(Seq<char>, Seq<char>)>, bool), ParseFailure> {
    let help = exists|t: int| 0 <= t < remaining.len() && is_help_token(#[trigger] remaining[t]);
    let words = without_help(remaining);
    let flags = node_flags + global;
    let entries = flag_entries(flags);
    match scan_flags(words, flags, entries, 0, FlagScan { given: Seq::empty(), words: Seq::empty() }) {
        Err(e) => Err(e),
        Ok(sc) => match assign_positionals(toks, sc.words, help, 0, 0, Seq::empty()) {
            Err(e) => Err(e),
            Ok((args, idx)) => if idx < sc.words.len() && !help {
                Err(ParseFailure::UnexpectedArgument(sc.words[idx]))
            } else {
                match add_flag_values(flags, sc.given, help, 0, args) {
                    Err(e) => Err(e),
                    Ok(all) => Ok((all, help)),
                }
            },
        },
    }
}

} // verus!

verus! {

/// Character views of pairs of character vectors.
pub open spec fn cpairs(v: Seq<(Vec<char>, Vec<char>)>) -> Seq<(Seq<char>, Seq<char>)> {
    v.map_values(|p: (Vec<char>, Vec<char>)| (p.0@, p.1@))
}

/// Character views of lookup entries.
pub open spec fn centries(v: Seq<(Vec<char>, usize, bool)>) -> Seq<FlagEntry> {
    v.map_values(|e: (Vec<char>, usize, bool)| (e.0@, e.1 as nat, e.2))
}

fn push_pair(v: &mut Vec<(Vec<char>, Vec<char>)>, a: Vec<char>, b: Vec<char>)
    ensures
        cpairs(final(v)@) == cpairs(old(v)@).push((a@, b@)),
{
    let ghost before = v@;
    v.push((a, b));
    assert(cpairs(v@) =~= cpairs(before).push((a@, b@)));
}

fn push_cv(v: &mut Vec<Vec<char>>, a: Vec<char>)
    ensures
        cviews(final(v)@) == cviews(old(v)@).push(a@),
{
    let ghost before = v@;
    v.push(a);
    assert(cviews(v@) =~= cviews(before).push(a@));
}

fn lit(s: &str) -> (r: Vec<char>)
    ensures
        r@ == s@,
{
    chars_of(s)
}

fn chars_eq(a: &Vec<char>, b: &Vec<char>) -> (r: bool)
    ensures
        r == (a@ == b@),
{
    if a.len() != b.len() {
        return false;
    }
    let mut i: usize = 0;
    while i < a.len()
        invariant
            i <= a@.len() == b@.len(),
            forall|t: int| 0 <= t < i ==> a@[t] == b@[t],
        decreases a.len() - i,
    {
        if a[i] != b[i] {
            assert(a@[i as int] != b@[i as int]);
            return false;
        }
        i += 1;
    }
    assert(a@ =~= b@);
    true
}

/// Whether the remaining tokens ask for help, and the tokens that do not.
fn split_help(remaining: &[String]) -> (r: (bool, Vec<Vec<char>>))
    ensures
        r.0 == (exists|t: int| 0 <= t < remaining@.len() && is_help_token(#[trigger] views(remaining@)[t])),
        cviews(r.1@) == without_help(views(remaining@)),
{
    let ghost rv = views(remaining@);
    let mut help = false;
    let mut words: Vec<Vec<char>> = Vec::new();
    let mut i: usize = 0;
    let h1 = lit("--help");
    let h2 = lit("-h");
    assert(cviews(words@) =~= without_help(rv.take(0)));
    while i < remaining.len()
        invariant
            i <= remaining@.len(),
            rv == views(remaining@),
            h1@ == "--help"@,
            h2@ == "-h"@,
            help == (exists|t: int| 0 <= t < i && is_help_token(#[trigger] rv[t])),
            cviews(words@) == without_help(rv.take(i as int)),
        decreases remaining.len() - i,
    {
        let w = chars_of(remaining[i].as_str());
        assert(rv[i as int] == w@);
        assert(rv.take(i + 1).drop_last() =~= rv.take(i as int));
        if chars_eq(&w, &h1) || chars_eq(&w, &h2) {
            help = true;
        } else {
            push_cv(&mut words, w);
        }
        i += 1;
    }
    assert(rv.take(remaining@.len() as int) =~= rv);
    (help, words)
}

/// The flag at index `k` of the concatenation of `a` and `b`.
fn flag_at<'a>(a: &'a [FlagSpec], b: &'a [FlagSpec], k: usize) -> (r: &'a FlagSpec)
    requires
        k < a@.len() + b@.len(),
    ensures
        *r == (a@ + b@)[k as int],
{
    if k < a.len() {
        &a[k]
    } else {
        &b[k - a.len()]
    }
}

proof fn lemma_flag_views_index(v: Seq<FlagSpec>, k: int)
    requires
        0 <= k < v.len(),
    ensures
        flag_views(v)[k] == v[k]@,
{
}

/// The `(default, canonical name)` of a flag as characters.
fn flag_facts(f: &FlagSpec) -> (r: (Option<Vec<char>>, Vec<char>))
    requires
        f@.names.len() > 0,
    ensures
        match r.0 {
            Some(d) => f@.default == Some(d@),
            None => f@.default is None,
        },
        r.1@ == canonical_spec(f@.names),
{
    let d = match &f.kind {
        FlagKind::Optional(s) => Some(chars_of(s.as_str())),
        FlagKind::Required => None,
    };
    (d, chars_of(f.canonical_name()))
}

/// Builds the lookup entries of all flags.
fn build_entries(a: &[FlagSpec], b: &[FlagSpec]) -> (r: Vec<(Vec<char>, usize, bool)>)
    requires
        a@.len() + b@.len() <= usize::MAX,
    ensures
        centries(r@) == flag_entries(flag_views(a@ + b@)),
{
    let ghost fl = flag_views(a@ + b@);
    let n = a.len() + b.len();
    let mut r: Vec<(Vec<char>, usize, bool)> = Vec::new();
    let mut fi: usize = 0;
    let t = lit("true");
    let nopfx = lit("--no-");
    proof {
        reveal_strlit("--no-");
    }
    assert(centries(r@) =~= flag_entries(fl.take(0)));
    while fi < n
        invariant
            n == a@.len() + b@.len(),
            fl == flag_views(a@ + b@),
            fl.len() == n,
            fi <= n,
            t@ == "true"@,
            nopfx@ == seq!['-', '-', 'n', 'o', '-'],
            centries(r@) == flag_entries(fl.take(fi as int)),
        decreases n - fi,
    {
        let f = flag_at(a, b, fi);
        proof {
            lemma_flag_views_index(a@ + b@, fi as int);
        }
        let ghost fv = fl[fi as int];
        assert(fv == f@);
        let is_true_default = match &f.kind {
            FlagKind::Optional(s) => {
                let sv = chars_of(s.as_str());
                chars_eq(&sv, &t)
            },
            FlagKind::Required => false,
        };
        assert(is_true_default == (fv.default == Some("true"@)));
        let ghost r0 = centries(r@);
        let mut ni: usize = 0;
        assert(r0 + name_entries(fv, fi as nat, fv.names.take(0)) =~= r0);
        while ni < f.names.len()
            invariant
                ni <= f.names@.len(),
                fv == f@,
                fv.names.len() == f.names@.len(),
                t@ == "true"@,
                nopfx@ == seq!['-', '-', 'n', 'o', '-'],
                is_true_default == (fv.default == Some("true"@)),
                centries(r@) == r0 + name_entries(fv, fi as nat, fv.names.take(ni as int)),
            decreases f.names.len() - ni,
        {
            let name = f.names[ni].as_str();
            assert(fv.names[ni as int] == name@);
            let nv = chars_of(name);
            let blen = name.len();
            let mut key: Vec<char> = Vec::new();
            key.push('-');
            if blen != 1 {
                key.push('-');
            }
            crate::text::extend_chars(&mut key, nv.as_slice());
            assert(key@ =~= flag_key(name@));
            let ghost before = r@;
            r.push((key, fi, false));
            assert(centries(r@) =~= centries(before).push((flag_key(name@), fi as nat, false)));
            if is_true_default && blen > 1 {
                let mut nk = nopfx.clone();
                crate::text::extend_chars(&mut nk, nv.as_slice());
                let ghost before2 = r@;
                r.push((nk, fi, true));
                assert(centries(r@) =~= centries(before2).push((seq!['-', '-', 'n', 'o', '-'] + name@, fi as nat, true)));
            }
            assert(fv.names.take(ni + 1).drop_last() =~= fv.names.take(ni as int));
            assert(fv.names.take(ni + 1).last() == name@);
            ni += 1;
        }
        assert(fv.names.take(f.names@.len() as int) =~= fv.names);
        assert(fl.take(fi + 1).drop_last() =~= fl.take(fi as int));
        assert(fl.take(fi + 1).last() == fv);
        fi += 1;
    }
    assert(fl.take(n as int) =~= fl);
    r
}

fn lookup_exec(entries: &Vec<(Vec<char>, usize, bool)>, key: &Vec<char>) -> (r: Option<(usize, bool)>)
    ensures
        match r {
            Some((fi, neg)) => lookup_flag(centries(entries@), key@) == Some((fi as nat, neg)),
            None => lookup_flag(centries(entries@), key@) is None,
        },
{
    let mut i = entries.len();
    assert(centries(entries@).take(i as int) =~= centries(entries@));
    while i > 0
        invariant
            i <= entries@.len(),
            lookup_flag(centries(entries@), key@) == lookup_flag(centries(entries@).take(i as int), key@),
        decreases i,
    {
        let ghost pre = centries(entries@).take(i as int);
        assert(pre.last() == (entries@[i - 1].0@, entries@[i - 1].1 as nat, entries@[i - 1].2));
        assert(pre.drop_last() =~= centries(entries@).take(i - 1));
        if chars_eq(&entries[i - 1].0, key) {
            return Some((entries[i - 1].1, entries[i - 1].2));
        }
        i -= 1;
    }
    None
}

} // verus!

verus! {

fn err_of(kind: u8, s: &Vec<char>) -> (r: ParseError)
    ensures
        r@ == (if kind == 0 {
            ParseFailure::UnknownFlag(s@)
        } else if kind == 1 {
            ParseFailure::MissingRequiredFlag(s@)
        } else if kind == 2 {
            ParseFailure::MissingPositional(s@)
        } else {
            ParseFailure::UnexpectedArgument(s@)
        }),
{
    let t = string_of(s.as_slice());
    if kind == 0 {
        ParseError::UnknownFlag(t)
    } else if kind == 1 {
        ParseError::MissingRequiredFlag(t)
    } else if kind == 2 {
        ParseError::MissingPositional(t)
    } else {
        ParseError::UnexpectedArgument(t)
    }
}

/// Scans the words for flags (see `scan_flags`).
fn scan_flags_exec(
    words: &Vec<Vec<char>>,
    a: &[FlagSpec],
    b: &[FlagSpec],
    entries: &Vec<(Vec<char>, usize, bool)>,
) -> (r: Result<(Vec<(Vec<char>, Vec<char>)>, Vec<Vec<char>>), ParseError>)
    requires
        flags_named(flag_views(a@ + b@)),
        centries(entries@) == flag_entries(flag_views(a@ + b@)),
    ensures
        match r {
            Ok((given, clean)) => scan_flags(cviews(words@), flag_views(a@ + b@), centries(entries@), 0,
                FlagScan { given: Seq::empty(), words: Seq::empty() }) == Ok::<FlagScan, ParseFailure>(
                FlagScan { given: cpairs(given@), words: cviews(clean@) }),
            Err(e) => scan_flags(cviews(words@), flag_views(a@ + b@), centries(entries@), 0,
                FlagScan { given: Seq::empty(), words: Seq::empty() }) == Err::<FlagScan, ParseFailure>(e@),
        },
{
    let ghost ws = cviews(words@);
    let ghost fl = flag_views(a@ + b@);
    let ghost es = centries(entries@);
    let ghost init = FlagScan { given: Seq::empty(), words: Seq::empty() };
    let mut given: Vec<(Vec<char>, Vec<char>)> = Vec::new();
    let mut clean: Vec<Vec<char>> = Vec::new();
    let t = lit("true");
    let f = lit("false");
    let mut i: usize = 0;
    assert(cpairs(given@) =~= Seq::<(Seq<char>, Seq<char>)>::empty());
    assert(cviews(clean@) =~= Seq::<Seq<char>>::empty());
    while i < words.len()
        invariant
            ws == cviews(words@),
            fl == flag_views(a@ + b@),
            es == centries(entries@),
            es == flag_entries(fl),
            init == (FlagScan { given: Seq::empty(), words: Seq::empty() }),
            flags_named(fl),
            i <= words@.len(),
            t@ == "true"@,
            f@ == "false"@,
            scan_flags(ws, fl, es, 0, init) == scan_flags(ws, fl, es, i as int,
                FlagScan { given: cpairs(given@), words: cviews(clean@) }),
        decreases words.len() - i,
    {
        let w = &words[i];
        assert(ws[i as int] == w@);
        let ghost st = FlagScan { given: cpairs(given@), words: cviews(clean@) };
        if w.len() > 0 && w[0] == '-' {
            let ghost so = split_once_spec(w@, '=');
            let (key, inline) = match first_index_exec(w.as_slice(), '=') {
                Some(j) => {
                    proof {
                        lemma_first_index_of(w@, '=', 0);
                    }
                    assert(j < w.len());
                    let k = crate::ansi::slice_vec(w, 0, j);
                    let v = crate::ansi::slice_vec(w, j + 1, w.len());
                    assert(k@ =~= w@.take(j as int));
                    assert(v@ =~= w@.skip(j + 1));
                    (k, v)
                },
                None => (w.clone(), Vec::new()),
            };
            assert(key@ == so.0);
            assert(inline@ == match so.1 { Some(v) => v, None => Seq::<char>::empty() });
            match lookup_exec(entries, &key) {
                None => {
                    return Err(err_of(0, w));
                },
                Some((fi, neg)) => {
                    proof {
                        lemma_lookup_bound(fl, key@);
                    }
                    assert(fi < a@.len() + b@.len());
                    let fs = flag_at(a, b, fi);
                    proof {
                        lemma_flag_views_index(a@ + b@, fi as int);
                    }
                    assert(fl[fi as int].names.len() > 0);
                    let (default, canon) = flag_facts(fs);
                    let is_bool = match &default {
                        Some(d) => chars_eq(d, &t) || chars_eq(d, &f),
                        None => false,
                    };
                    if inline.len() > 0 {
                        let v = if neg {
                            if chars_eq(&inline, &f) { t.clone() } else { f.clone() }
                        } else {
                            inline
                        };
                        push_pair(&mut given, canon, v);
                        i += 1;
                    } else if neg {
                        push_pair(&mut given, canon, f.clone());
                        i += 1;
                    } else if is_bool {
                        if i + 1 < words.len() && (chars_eq(&words[i + 1], &t) || chars_eq(&words[i + 1], &f)) {
                            assert(ws[i + 1] == words@[i + 1]@);
                            push_pair(&mut given, canon, words[i + 1].clone());
                            i += 2;
                        } else {
                            if i + 1 < words.len() {
                                assert(ws[i + 1] == words@[i + 1]@);
                            }
                            push_pair(&mut given, canon, t.clone());
                            i += 1;
                        }
                    } else if i + 1 < words.len() && !(words[i + 1].len() > 0 && words[i + 1][0] == '-') {
                        assert(ws[i + 1] == words@[i + 1]@);
                        push_pair(&mut given, canon, words[i + 1].clone());
                        i += 2;
                    } else if default.is_none() {
                        if i + 1 < words.len() {
                            assert(ws[i + 1] == words@[i + 1]@);
                        }
                        return Err(err_of(1, &canon));
                    } else {
                        if i + 1 < words.len() {
                            assert(ws[i + 1] == words@[i + 1]@);
                        }
                        i += 1;
                    }
                },
            }
        } else {
            push_cv(&mut clean, w.clone());
            i += 1;
        }
    }
    Ok((given, clean))
}

proof fn lemma_name_entries_index(f: FlagView, fi: nat, names: Seq<Seq<char>>)
    ensures
        forall|k: int| 0 <= k < name_entries(f, fi, names).len() ==> #[trigger] name_entries(f, fi, names)[k].1 == fi,
    decreases names.len(),
{
    if names.len() > 0 {
        lemma_name_entries_index(f, fi, names.drop_last());
        let n = names.last();
        let prev = name_entries(f, fi, names.drop_last()).push((flag_key(n), fi, false));
        assert forall|k: int| 0 <= k < prev.len() implies #[trigger] prev[k].1 == fi by {
            if k < prev.len() - 1 {
                assert(prev[k] == name_entries(f, fi, names.drop_last())[k]);
            }
        }
        if f.default == Some("true"@) && byte_len(n) > 1 {
            let all = prev.push((seq!['-', '-', 'n', 'o', '-'] + n, fi, true));
            assert forall|k: int| 0 <= k < all.len() implies #[trigger] all[k].1 == fi by {
                if k < prev.len() {
                    assert(all[k] == prev[k]);
                }
            }
        }
    }
}

/// Every entry points at one of the flags.
proof fn lemma_entries_index(fl: Seq<FlagView>)
    ensures
        forall|k: int| 0 <= k < flag_entries(fl).len() ==> #[trigger] flag_entries(fl)[k].1 < fl.len(),
    decreases fl.len(),
{
    if fl.len() > 0 {
        lemma_entries_index(fl.drop_last());
        lemma_name_entries_index(fl.last(), (fl.len() - 1) as nat, fl.last().names);
        let es = flag_entries(fl);
        let pre = flag_entries(fl.drop_last());
        assert forall|k: int| 0 <= k < es.len() implies #[trigger] es[k].1 < fl.len() by {
            if k < pre.len() {
                assert(es[k] == pre[k]);
            } else {
                assert(es[k] == name_entries(fl.last(), (fl.len() - 1) as nat, fl.last().names)[k - pre.len()]);
            }
        }
    }
}

/// A found flag index is the index of one of the entries.
proof fn lemma_lookup_in(es: Seq<FlagEntry>, key: Seq<char>)
    ensures
        lookup_flag(es, key) is Some ==> exists|k: int|
            0 <= k < es.len() && #[trigger] es[k].1 == lookup_flag(es, key)->Some_0.0,
    decreases es.len(),
{
    if es.len() > 0 {
        if es.last().0 == key {
            assert(es[es.len() - 1].1 == es.last().1);
        } else {
            lemma_lookup_in(es.drop_last(), key);
            if lookup_flag(es.drop_last(), key) is Some {
                let fi = lookup_flag(es.drop_last(), key)->Some_0.0;
                let k = choose|k: int| 0 <= k < es.drop_last().len() && #[trigger] es.drop_last()[k].1 == fi;
                assert(es[k] == es.drop_last()[k]);
            }
        }
    }
}

/// A flag found by its spelling is one of the flags.
proof fn lemma_lookup_bound(fl: Seq<FlagView>, key: Seq<char>)
    ensures
        lookup_flag(flag_entries(fl), key) is Some ==> lookup_flag(flag_entries(fl), key)->Some_0.0 < fl.len(),
{
    lemma_entries_index(fl);
    lemma_lookup_in(flag_entries(fl), key);
}

/// The words from `from` on, joined with single spaces.
fn join_words(words: &Vec<Vec<char>>, from: usize) -> (r: Vec<char>)
    requires
        from <= words@.len(),
    ensures
        r@ == join_spaces(cviews(words@).subrange(from as int, words@.len() as int)),
{
    let ghost cw = cviews(words@);
    let mut r: Vec<char> = Vec::new();
    let mut j = from;
    assert(cw.subrange(from as int, from as int) =~= Seq::<Seq<char>>::empty());
    while j < words.len()
        invariant
            cw == cviews(words@),
            from <= j <= words@.len(),
            r@ == join_spaces(cw.subrange(from as int, j as int)),
        decreases words.len() - j,
    {
        let ghost sub = cw.subrange(from as int, j + 1);
        assert(sub.drop_last() =~= cw.subrange(from as int, j as int));
        assert(sub.last() == words@[j as int]@);
        if j > from {
            r.push(' ');
        }
        crate::text::extend_chars(&mut r, words[j].as_slice());
        proof {
            if j == from {
                assert(sub.len() == 1);
                assert(r@ =~= sub[0]);
            } else {
                assert(r@ =~= join_spaces(sub.drop_last()) + seq![' '] + sub.last());
            }
        }
        j += 1;
    }
    r
}

/// Assigns the positional tokens to the words (see `assign_positionals`).
fn assign_positionals_exec(toks: &[TokenSpec], words: &Vec<Vec<char>>, help: bool) -> (r: Result<
    (Vec<(Vec<char>, Vec<char>)>, usize),
    ParseError,
>)
    ensures
        match r {
            Ok((args, idx)) => assign_positionals(token_views(toks@), cviews(words@), help, 0, 0, Seq::empty())
                == Ok::<(Seq<(Seq<char>, Seq<char>)>, int), ParseFailure>((cpairs(args@), idx as int)),
            Err(e) => assign_positionals(token_views(toks@), cviews(words@), help, 0, 0, Seq::empty())
                == Err::<(Seq<(Seq<char>, Seq<char>)>, int), ParseFailure>(e@),
        },
{
    let ghost tv = token_views(toks@);
    let ghost cw = cviews(words@);
    let mut args: Vec<(Vec<char>, Vec<char>)> = Vec::new();
    let mut idx: usize = 0;
    let mut k: usize = 0;
    assert(cpairs(args@) =~= Seq::<(Seq<char>, Seq<char>)>::empty());
    while k < toks.len()
        invariant
            tv == token_views(toks@),
            cw == cviews(words@),
            k <= toks@.len(),
            idx <= words@.len(),
            assign_positionals(tv, cw, help, 0, 0, Seq::empty())
                == assign_positionals(tv, cw, help, k as int, idx as int, cpairs(args@)),
        decreases toks.len() - k,
    {
        assert(tv[k as int] == toks@[k as int]@);
        match &toks[k] {
            TokenSpec::Positional(name) => {
                if idx >= words.len() {
                    if !help {
                        return Err(ParseError::MissingPositional(name.clone()));
                    }
                } else {
                    assert(cw[idx as int] == words@[idx as int]@);
                    push_pair(&mut args, chars_of(name.as_str()), words[idx].clone());
                    idx += 1;
                }
            },
            TokenSpec::Rest(name) => {
                let key = if name.as_str().is_empty() {
                    lit("rest")
                } else {
                    chars_of(name.as_str())
                };
                proof {
                    if name@.len() == 0 {
                        assert(name@ =~= Seq::<char>::empty());
                    }
                    reveal_strlit("rest");
                }
                let text = join_words(words, idx);
                push_pair(&mut args, key, text);
                return Ok((args, words.len()));
            },
            TokenSpec::Literal(_) => {},
        }
        k += 1;
    }
    Ok((args, idx))
}

/// The value given for the canonical name `c`, the last one winning.
fn given_exec(given: &Vec<(Vec<char>, Vec<char>)>, c: &Vec<char>) -> (r: Option<Vec<char>>)
    ensures
        match r {
            Some(v) => given_value(cpairs(given@), c@) == Some(v@),
            None => given_value(cpairs(given@), c@) is None,
        },
{
    let ghost gp = cpairs(given@);
    let mut i = given.len();
    assert(gp.take(i as int) =~= gp);
    while i > 0
        invariant
            gp == cpairs(given@),
            i <= given@.len(),
            given_value(gp, c@) == given_value(gp.take(i as int), c@),
        decreases i,
    {
        let ghost pre = gp.take(i as int);
        assert(pre.last() == (given@[i - 1].0@, given@[i - 1].1@));
        assert(pre.drop_last() =~= gp.take(i - 1));
        if chars_eq(&given[i - 1].0, c) {
            return Some(given[i - 1].1.clone());
        }
        i -= 1;
    }
    None
}

/// Adds the value of every flag (see `add_flag_values`).
fn add_flag_values_exec(
    a: &[FlagSpec],
    b: &[FlagSpec],
    given: &Vec<(Vec<char>, Vec<char>)>,
    help: bool,
    args: Vec<(Vec<char>, Vec<char>)>,
) -> (r: Result<Vec<(Vec<char>, Vec<char>)>, ParseError>)
    requires
        flags_named(flag_views(a@ + b@)),
        a@.len() + b@.len() <= usize::MAX,
    ensures
        match r {
            Ok(all) => add_flag_values(flag_views(a@ + b@), cpairs(given@), help, 0, cpairs(args@))
                == Ok::<Seq<(Seq<char>, Seq<char>)>, ParseFailure>(cpairs(all@)),
            Err(e) => add_flag_values(flag_views(a@ + b@), cpairs(given@), help, 0, cpairs(args@))
                == Err::<Seq<(Seq<char>, Seq<char>)>, ParseFailure>(e@),
        },
{
    let ghost fl = flag_views(a@ + b@);
    let ghost gp = cpairs(given@);
    let ghost a0 = cpairs(args@);
    let n = a.len() + b.len();
    let mut out = args;
    let mut k: usize = 0;
    while k < n
        invariant
            fl == flag_views(a@ + b@),
            gp == cpairs(given@),
            a0 == cpairs(args@),
            flags_named(fl),
            n == a@.len() + b@.len(),
            fl.len() == n,
            k <= n,
            add_flag_values(fl, gp, help, 0, a0) == add_flag_values(fl, gp, help, k as int, cpairs(out@)),
        decreases n - k,
    {
        let fs = flag_at(a, b, k);
        proof {
            lemma_flag_views_index(a@ + b@, k as int);
        }
        assert(fl[k as int].names.len() > 0);
        let (default, canon) = flag_facts(fs);
        match given_exec(given, &canon) {
            Some(v) => {
                push_pair(&mut out, canon, v);
            },
            None => match default {
                Some(d) => {
                    push_pair(&mut out, canon, d);
                },
                None => {
                    if !help {
                        return Err(err_of(1, &canon));
                    }
                },
            },
        }
        k += 1;
    }
    Ok(out)
}

/// Strings of character-vector pairs.
fn string_pairs(v: &Vec<(Vec<char>, Vec<char>)>) -> (r: Vec<(String, String)>)
    ensures
        pair_views(r@) == cpairs(v@),
{
    let mut r: Vec<(String, String)> = Vec::new();
    let mut i: usize = 0;
    while i < v.len()
        invariant
            i <= v@.len(),
            pair_views(r@) == cpairs(v@).take(i as int),
        decreases v.len() - i,
    {
        let ghost before = r@;
        let x = string_of(v[i].0.as_slice());
        let y = string_of(v[i].1.as_slice());
        assert(cpairs(v@)[i as int] == (x@, y@));
        r.push((x, y));
        assert(pair_views(r@).drop_last() =~= pair_views(before));
        assert(pair_views(r@).last() == (x@, y@));
        assert(cpairs(v@).take(i + 1).drop_last() =~= cpairs(v@).take(i as int));
        assert(pair_views(r@) =~= cpairs(v@).take(i + 1));
        i += 1;
    }
    assert(cpairs(v@).take(v@.len() as int) =~= cpairs(v@));
    r
}

/// Validates the words after a resolved command against its flags and
/// positional tokens and the global flags: gives the context (positional
/// values, then every flag's given or default value) and whether help was
/// asked for, or the first error met.
pub fn parse_and_validate_node(
    node: &CommandNode,
    global_flags: &[FlagSpec],
    remaining_tokens: &[String],
) -> (r: Result<(Context, bool), ParseError>)
    requires
        flags_named(flag_views(node.flags@ + global_flags@)),
        node.flags@.len() + global_flags@.len() <= usize::MAX,
    ensures
        match r {
            Ok((ctx, help)) => validate_spec(flag_views(node.flags@), token_views(node.positional_tokens@),
                flag_views(global_flags@), views(remaining_tokens@)) == Ok::<
                (Seq<(Seq<char>, Seq<char>)>, bool),
                ParseFailure,
            >((pair_views(ctx.args@), help)),
            Err(e) => validate_spec(flag_views(node.flags@), token_views(node.positional_tokens@),
                flag_views(global_flags@), views(remaining_tokens@)) == Err::<
                (Seq<(Seq<char>, Seq<char>)>, bool),
                ParseFailure,
            >(e@),
        },
{
    let a = node.flags.as_slice();
    let b = global_flags;
    assert(flag_views(a@ + b@) =~= flag_views(node.flags@) + flag_views(global_flags@));
    let (help, words) = split_help(remaining_tokens);
    let entries = build_entries(a, b);
    let (given, clean) = match scan_flags_exec(&words, a, b, &entries) {
        Ok(x) => x,
        Err(e) => return Err(e),
    };
    let (args, idx) = match assign_positionals_exec(node.positional_tokens.as_slice(), &clean, help) {
        Ok(x) => x,
        Err(e) => return Err(e),
    };
    if idx < clean.len() && !help {
        assert(cviews(clean@)[idx as int] == clean@[idx as int]@);
        return Err(err_of(3, &clean[idx]));
    }
    let all = match add_flag_values_exec(a, b, &given, help, args) {
        Ok(x) => x,
        Err(e) => return Err(e),
    };
    let mut ctx = Context::new();
    ctx.args = string_pairs(&all);
    Ok((ctx, help))
}

} // verus!

verus! {

/// The text of an error.
pub open spec fn failure_text(f: ParseFailure) -> Seq<char>
    decreases f,
{
    match f {
        ParseFailure::ErrorWithHelp(inner, hint) => failure_text(*inner) + "\n\n"@ + hint,
        ParseFailure::UnknownCommand(s) => "Unrecognized command '"@ + s + "'."@,
        ParseFailure::MissingRequiredFlag(s) => "The required flag '--"@ + s + "' is missing."@,
        ParseFailure::MissingPositional(s) => "The required argument '<"@ + s + ">' is missing."@,
        ParseFailure::UnexpectedArgument(s) => "Unexpected argument '"@ + s + "'."@,
        ParseFailure::UnknownFlag(s) => "Unknown flag '"@ + s + "'."@,
    }
}

fn framed(before: &str, s: &String, after: &str) -> (r: String)
    ensures
        r@ == before@ + s@ + after@,
{
    let mut v = chars_of(before);
    crate::text::extend_chars(&mut v, chars_of(s.as_str()).as_slice());
    crate::text::extend_chars(&mut v, chars_of(after).as_slice());
    string_of(v.as_slice())
}

impl ParseError {
    /// The error's text (see `failure_text`).
    pub fn message(&self) -> (r: String)
        ensures
            r@ == failure_text(self@),
        decreases self,
    {
        match self {
            ParseError::ErrorWithHelp(inner, hint) => {
                let first = inner.message();
                let mut v = chars_of(first.as_str());
                v.push('\n');
                v.push('\n');
                crate::text::extend_chars(&mut v, chars_of(hint.as_str()).as_slice());
                proof {
                    reveal_strlit("\n\n");
                }
                string_of(v.as_slice())
            },
            ParseError::UnknownCommand(s) => framed("Unrecognized command '", s, "'."),
            ParseError::MissingRequiredFlag(s) => framed("The required flag '--", s, "' is missing."),
            ParseError::MissingPositional(s) => framed("The required argument '<", s, ">' is missing."),
            ParseError::UnexpectedArgument(s) => framed("Unexpected argument '", s, "'."),
            ParseError::UnknownFlag(s) => framed("Unknown flag '", s, "'."),
        }
    }
}


/// The words joined with single spaces cut back at their spaces give the
/// words again (for at least one word, none holding a space).
pub proof fn law_join_spaces_splits_back(ws: Seq<Seq<char>>)
    requires
        ws.len() >= 1,
        forall|k: int, j: int| 0 <= k < ws.len() && 0 <= j < ws[k].len() ==> #[trigger] ws[k][j] != ' ',
    ensures
        crate::text::split_on(join_spaces(ws), ' ') == ws,
    decreases ws.len(),
{
    if ws.len() == 1 {
        assert forall|j: int| 0 <= j < ws[0].len() implies #[trigger] ws[0][j] != ' ' by {
            assert(ws[0][j] != ' ');
        }
        crate::styled::lemma_split_on_none(ws[0], ' ');
        assert(seq![ws[0]] =~= ws);
    } else {
        let dl = ws.drop_last();
        assert forall|k: int, j: int| 0 <= k < dl.len() && 0 <= j < dl[k].len() implies #[trigger] dl[k][j] != ' ' by {
            assert(dl[k] == ws[k]);
            assert(ws[k][j] != ' ');
        }
        law_join_spaces_splits_back(dl);
        let last = ws.last();
        assert forall|j: int| 0 <= j < last.len() implies #[trigger] last[j] != ' ' by {
            assert(ws[ws.len() - 1][j] != ' ');
        }
        crate::styled::lemma_split_on_last(join_spaces(dl), ' ', last);
        assert(join_spaces(dl).push(' ') + last =~= join_spaces(dl) + seq![' '] + last);
        assert(dl.push(last) =~= ws);
    }
}

} // verus!
