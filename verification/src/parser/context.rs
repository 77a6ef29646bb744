//! The execution context handed to command handlers: argument names and values.
use vstd::prelude::*;
use crate::text::string_of;

verus! {

/// Key-value pairs as a map: a later pair overrides an earlier one with the same key.
pub open spec fn pairs_map(ps: Seq<(Seq<char>, Seq<char>)>) -> Map<Seq<char>, Seq<char>>
    decreases ps.len(),
{
    if ps.len() == 0 {
        Map::empty()
    } else {
        pairs_map(ps.drop_last()).insert(ps.last().0, ps.last().1)
    }
}

/// The character views of string pairs.
pub open spec fn pair_views(v: Seq<(String, String)>) -> Seq<(Seq<char>, Seq<char>)> {
    v.map_values(|p: (String, String)| (p.0@, p.1@))
}

/// Arguments extracted for a command: positional values and flag values by name.
#[derive(Debug, Default)]
pub struct Context {
    /// Stored argument values; a later entry for a key replaces an earlier one.
    pub args: Vec<(String, String)>,
}

impl View for Context {
    type V = Map<Seq<char>, Seq<char>>;

    open spec fn view(&self) -> Map<Seq<char>, Seq<char>> {
        pairs_map(pair_views(self.args@))
    }
}

impl Context {
    /// An empty context.
    pub fn new() -> (r: Self)
        ensures
            r@ == Map::<Seq<char>, Seq<char>>::empty(),
    {
        let r = Context { args: Vec::new() };
        assert(pair_views(r.args@) =~= Seq::<(Seq<char>, Seq<char>)>::empty());
        r
    }

    /// Stores `value` under `key`.
    pub fn insert(&mut self, key: String, value: String)
        ensures
            final(self)@ == old(self)@.insert(key@, value@),
    {
        let ghost before = self.args@;
        self.args.push((key, value));
        assert(pair_views(self.args@).drop_last() =~= pair_views(before));
    }

    /// The raw value stored for `key`, if present.
    pub fn get_str(&self, key: &str) -> (r: Option<&str>)
        ensures
            match r {
                Some(v) => self@.contains_key(key@) && self@[key@] == v@,
                None => !self@.contains_key(key@),
            },
    {
        let mut i = self.args.len();
        while i > 0
            invariant
                i <= self.args@.len(),
                forall|t: int| i <= t < self.args@.len() ==> #[trigger] self.args@[t].0@ != key@,
            decreases i,
        {
            i -= 1;
            if string_eq(&self.args[i].0, key) {
                proof {
                    lemma_pairs_map_last(pair_views(self.args@), i as int, key@);
                }
                return Some(self.args[i].1.as_str());
            }
        }
        proof {
            lemma_pairs_map_absent(pair_views(self.args@), key@);
        }
        None
    }

    /// Whether the argument is present and equals `true` or `1`.
    pub fn get_bool(&self, key: &str) -> (r: bool)
        ensures
            r == (self@.contains_key(key@) && (self@[key@] == "true"@ || self@[key@] == "1"@)),
    {
        match self.get_str(key) {
            Some(v) => str_eq(v, "true") || str_eq(v, "1"),
            None => false,
        }
    }
}

/// Why an argument cannot be read: it is missing, or its value is empty.
#[derive(Debug, Clone, PartialEq, Eq)]
pub enum GetError {
    Missing(String),
    Empty(String),
}

impl GetError {
    /// The message for the error: `Argument '<key>' not found` or
    /// `Argument '<key>' is empty`.
    pub fn message(&self) -> (r: String)
        ensures
            r@ == (match self {
                GetError::Missing(k) => "Argument '"@ + k@ + "' not found"@,
                GetError::Empty(k) => "Argument '"@ + k@ + "' is empty"@,
            }),
    {
        let (k, tail) = match self {
            GetError::Missing(k) => (k, "' not found"),
            GetError::Empty(k) => (k, "' is empty"),
        };
        let mut v = crate::text::chars_of("Argument '");
        crate::text::extend_chars(&mut v, crate::text::chars_of(k.as_str()).as_slice());
        crate::text::extend_chars(&mut v, crate::text::chars_of(tail).as_slice());
        string_of(v.as_slice())
    }
}

impl Context {
    /// The value of argument `key` when it is present and not empty; else
    /// the error saying it is missing or empty.
    pub fn get_raw(&self, key: &str) -> (r: Result<&str, GetError>)
        ensures
            match r {
                Ok(v) => self@.contains_key(key@) && self@[key@] == v@ && v@.len() > 0,
                Err(GetError::Missing(k)) => !self@.contains_key(key@) && k@ == key@,
                Err(GetError::Empty(k)) => self@.contains_key(key@) && self@[key@].len() == 0 && k@ == key@,
            },
    {
        match self.get_str(key) {
            None => Err(GetError::Missing(string_of(crate::text::chars_of(key).as_slice()))),
            Some(v) => {
                if crate::text::chars_of(v).len() == 0 {
                    Err(GetError::Empty(string_of(crate::text::chars_of(key).as_slice())))
                } else {
                    Ok(v)
                }
            },
        }
    }

    /// The value of argument `key` when it is present and not empty.
    pub fn get_raw_opt(&self, key: &str) -> (r: Option<&str>)
        ensures
            match r {
                Some(v) => self@.contains_key(key@) && self@[key@] == v@ && v@.len() > 0,
                None => !self@.contains_key(key@) || self@[key@].len() == 0,
            },
    {
        match self.get_raw(key) {
            Ok(v) => Some(v),
            Err(_) => None,
        }
    }
}

/// Compares a string with a string slice.
pub fn string_eq(a: &String, b: &str) -> (r: bool)
    ensures
        r == (a@ == b@),
{
    str_eq(a.as_str(), b)
}

/// Compares two string slices character by character.
pub fn str_eq(a: &str, b: &str) -> (r: bool)
    ensures
        r == (a@ == b@),
{
    let x = crate::text::chars_of(a);
    let y = crate::text::chars_of(b);
    if x.len() != y.len() {
        return false;
    }
    let mut i: usize = 0;
    while i < x.len()
        invariant
            i <= x@.len() == y@.len(),
            x@ == a@,
            y@ == b@,
            forall|t: int| 0 <= t < i ==> x@[t] == y@[t],
        decreases x.len() - i,
    {
        if x[i] != y[i] {
            assert(x@[i as int] != y@[i as int]);
            return false;
        }
        i += 1;
    }
    assert(x@ =~= y@);
    true
}

proof fn lemma_pairs_map_last(ps: Seq<(Seq<char>, Seq<char>)>, i: int, key: Seq<char>)
    requires
        0 <= i < ps.len(),
        ps[i].0 == key,
        forall|t: int| i < t < ps.len() ==> #[trigger] ps[t].0 != key,
    ensures
        pairs_map(ps).contains_key(key),
        pairs_map(ps)[key] == ps[i].1,
    decreases ps.len(),
{
    if i < ps.len() - 1 {
        lemma_pairs_map_last(ps.drop_last(), i, key);
        assert(ps.last().0 != key);
    }
}

proof fn lemma_pairs_map_absent(ps: Seq<(Seq<char>, Seq<char>)>, key: Seq<char>)
    requires
        forall|t: int| 0 <= t < ps.len() ==> #[trigger] ps[t].0 != key,
    ensures
        !pairs_map(ps).contains_key(key),
    decreases ps.len(),
{
    if ps.len() > 0 {
        assert(ps.last().0 != key);
        lemma_pairs_map_absent(ps.drop_last(), key);
    }
}

} // verus!
