//! Conversion of plain text into Unicode superscript characters.
use vstd::prelude::*;
use crate::text::{chars_of, decimal, decimal_chars, push_char, string_of};

verus! {

/// Errors that can occur when converting text to superscript.
#[derive(Debug, Clone, PartialEq, Eq)]
pub enum SmallTextError {
    /// A character with no superscript form in Unicode, and its position.
    UnsupportedChar { ch: char, position: usize },
}

/// The superscript form of a character, where Unicode has one: lowercase
/// letters but `q`, the uppercase letters that exist, digits, and
/// `space - + = ( )`.
pub open spec fn superscript_of(c: char) -> Option<char> {
    match c {
        'a' => Some('ᵃ'),
        'b' => Some('ᵇ'),
        'c' => Some('ᶜ'),
        'd' => Some('ᵈ'),
        'e' => Some('ᵉ'),
        'f' => Some('ᶠ'),
        'g' => Some('ᵍ'),
        'h' => Some('ʰ'),
        'i' => Some('ⁱ'),
        'j' => Some('ʲ'),
        'k' => Some('ᵏ'),
        'l' => Some('ˡ'),
        'm' => Some('ᵐ'),
        'n' => Some('ⁿ'),
        'o' => Some('ᵒ'),
        'p' => Some('ᵖ'),
        'r' => Some('ʳ'),
        's' => Some('ˢ'),
        't' => Some('ᵗ'),
        'u' => Some('ᵘ'),
        'v' => Some('ᵛ'),
        'w' => Some('ʷ'),
        'x' => Some('ˣ'),
        'y' => Some('ʸ'),
        'z' => Some('ᶻ'),
        'A' => Some('ᴬ'),
        'B' => Some('ᴮ'),
        'D' => Some('ᴰ'),
        'E' => Some('ᴱ'),
        'G' => Some('ᴳ'),
        'H' => Some('ᴴ'),
        'I' => Some('ᴵ'),
        'J' => Some('ᴶ'),
        'K' => Some('ᴷ'),
        'L' => Some('ᴸ'),
        'M' => Some('ᴹ'),
        'N' => Some('ᴺ'),
        'O' => Some('ᴼ'),
        'P' => Some('ᴾ'),
        'R' => Some('ᴿ'),
        'T' => Some('ᵀ'),
        'U' => Some('ᵁ'),
        'V' => Some('ⱽ'),
        'W' => Some('ᵂ'),
        '0' => Some('⁰'),
        '1' => Some('¹'),
        '2' => Some('²'),
        '3' => Some('³'),
        '4' => Some('⁴'),
        '5' => Some('⁵'),
        '6' => Some('⁶'),
        '7' => Some('⁷'),
        '8' => Some('⁸'),
        '9' => Some('⁹'),
        ' ' => Some(' '),
        '-' => Some('⁻'),
        '+' => Some('⁺'),
        '=' => Some('⁼'),
        '(' => Some('⁽'),
        ')' => Some('⁾'),
        _ => None,
    }
}

fn superscript_char(c: char) -> (r: Option<char>)
    ensures
        r == superscript_of(c),
{
    match c {
        'a' => Some('ᵃ'),
        'b' => Some('ᵇ'),
        'c' => Some('ᶜ'),
        'd' => Some('ᵈ'),
        'e' => Some('ᵉ'),
        'f' => Some('ᶠ'),
        'g' => Some('ᵍ'),
        'h' => Some('ʰ'),
        'i' => Some('ⁱ'),
        'j' => Some('ʲ'),
        'k' => Some('ᵏ'),
        'l' => Some('ˡ'),
        'm' => Some('ᵐ'),
        'n' => Some('ⁿ'),
        'o' => Some('ᵒ'),
        'p' => Some('ᵖ'),
        'r' => Some('ʳ'),
        's' => Some('ˢ'),
        't' => Some('ᵗ'),
        'u' => Some('ᵘ'),
        'v' => Some('ᵛ'),
        'w' => Some('ʷ'),
        'x' => Some('ˣ'),
        'y' => Some('ʸ'),
        'z' => Some('ᶻ'),
        'A' => Some('ᴬ'),
        'B' => Some('ᴮ'),
        'D' => Some('ᴰ'),
        'E' => Some('ᴱ'),
        'G' => Some('ᴳ'),
        'H' => Some('ᴴ'),
        'I' => Some('ᴵ'),
        'J' => Some('ᴶ'),
        'K' => Some('ᴷ'),
        'L' => Some('ᴸ'),
        'M' => Some('ᴹ'),
        'N' => Some('ᴺ'),
        'O' => Some('ᴼ'),
        'P' => Some('ᴾ'),
        'R' => Some('ᴿ'),
        'T' => Some('ᵀ'),
        'U' => Some('ᵁ'),
        'V' => Some('ⱽ'),
        'W' => Some('ᵂ'),
        '0' => Some('⁰'),
        '1' => Some('¹'),
        '2' => Some('²'),
        '3' => Some('³'),
        '4' => Some('⁴'),
        '5' => Some('⁵'),
        '6' => Some('⁶'),
        '7' => Some('⁷'),
        '8' => Some('⁸'),
        '9' => Some('⁹'),
        ' ' => Some(' '),
        '-' => Some('⁻'),
        '+' => Some('⁺'),
        '=' => Some('⁼'),
        '(' => Some('⁽'),
        ')' => Some('⁾'),
        _ => None,
    }
}

/// Index of the first character of `s` with no superscript form, if any.
pub open spec fn first_unsupported(s: Seq<char>, i: int) -> Option<int>
    decreases s.len() - i,
{
    if i >= s.len() || i < 0 {
        None
    } else if superscript_of(s[i]) is None {
        Some(i)
    } else {
        first_unsupported(s, i + 1)
    }
}

/// The superscript forms of all characters of `s` (meaningful when they all exist).
pub open spec fn superscript_all(s: Seq<char>) -> Seq<char> {
    Seq::new(s.len(), |i: int| superscript_of(s[i])->0)
}

/// What `to_superscript` returns.
pub open spec fn to_superscript_spec(s: Seq<char>) -> Result<Seq<char>, (char, int)> {
    match first_unsupported(s, 0) {
        Some(i) => Err((s[i], i)),
        None => Ok(superscript_all(s)),
    }
}

proof fn lemma_first_unsupported(s: Seq<char>, i: int)
    requires
        0 <= i <= s.len(),
    ensures
        first_unsupported(s, i) matches Some(j) ==> i <= j < s.len() && superscript_of(s[j]) is None
            && forall|t: int| i <= t < j ==> superscript_of(#[trigger] s[t]) is Some,
        first_unsupported(s, i) is None ==> forall|t: int| i <= t < s.len() ==> superscript_of(#[trigger] s[t]) is Some,
    decreases s.len() - i,
{
    if i < s.len() && superscript_of(s[i]) is Some {
        lemma_first_unsupported(s, i + 1);
    }
}

/// Converts a string into superscript text; fails on the first character that
/// has no Unicode superscript form, giving it and its character position.
pub fn to_superscript(input: &str) -> (r: Result<String, SmallTextError>)
    ensures
        match r {
            Ok(out) => to_superscript_spec(input@) == Ok::<Seq<char>, (char, int)>(out@),
            Err(SmallTextError::UnsupportedChar { ch, position }) => to_superscript_spec(input@)
                == Err::<Seq<char>, (char, int)>((ch, position as int)),
        },
{
    let v = chars_of(input);
    let mut out: Vec<char> = Vec::new();
    let mut i: usize = 0;
    proof {
        lemma_first_unsupported(v@, 0);
    }
    while i < v.len()
        invariant
            i <= v@.len(),
            v@ == input@,
            forall|t: int| 0 <= t < i ==> superscript_of(#[trigger] v@[t]) is Some,
            out@ == superscript_all(v@.take(i as int)),
        decreases v.len() - i,
    {
        match superscript_char(v[i]) {
            Some(c) => {
                out.push(c);
                assert(out@ =~= superscript_all(v@.take(i + 1)));
            },
            None => {
                proof {
                    lemma_first_unsupported(v@, 0);
                    lemma_first_is(v@, i as int);
                }
                return Err(SmallTextError::UnsupportedChar { ch: v[i], position: i });
            },
        }
        i += 1;
    }
    proof {
        lemma_first_unsupported(v@, 0);
        lemma_none_unsupported(v@, 0);
        assert(v@.take(v@.len() as int) =~= v@);
    }
    Ok(string_of(out.as_slice()))
}

proof fn lemma_first_is(s: Seq<char>, i: int)
    requires
        0 <= i < s.len(),
        superscript_of(s[i]) is None,
        forall|t: int| 0 <= t < i ==> superscript_of(#[trigger] s[t]) is Some,
    ensures
        first_unsupported(s, 0) == Some(i),
{
    lemma_first_from(s, 0, i);
}

proof fn lemma_first_from(s: Seq<char>, k: int, i: int)
    requires
        0 <= k <= i < s.len(),
        superscript_of(s[i]) is None,
        forall|t: int| 0 <= t < i ==> superscript_of(#[trigger] s[t]) is Some,
    ensures
        first_unsupported(s, k) == Some(i),
    decreases i - k,
{
    if k < i {
        assert(superscript_of(s[k]) is Some);
        lemma_first_from(s, k + 1, i);
    }
}

proof fn lemma_none_unsupported(s: Seq<char>, k: int)
    requires
        0 <= k <= s.len(),
        forall|t: int| 0 <= t < s.len() ==> superscript_of(#[trigger] s[t]) is Some,
    ensures
        first_unsupported(s, k) is None,
    decreases s.len() - k,
{
    if k < s.len() {
        assert(superscript_of(s[k]) is Some);
        lemma_none_unsupported(s, k + 1);
    }
}

/// Law: a successful conversion keeps the number of characters, and the
/// conversion fails exactly when some character has no superscript form.
pub proof fn superscript_length_and_failure(s: Seq<char>)
    ensures
        to_superscript_spec(s) is Ok ==> to_superscript_spec(s)->Ok_0.len() == s.len(),
        to_superscript_spec(s) is Err <==> exists|i: int| 0 <= i < s.len() && superscript_of(#[trigger] s[i]) is None,
{
    lemma_first_unsupported(s, 0);
    if exists|i: int| 0 <= i < s.len() && superscript_of(#[trigger] s[i]) is None {
        let i = choose|i: int| 0 <= i < s.len() && superscript_of(#[trigger] s[i]) is None;
        if first_unsupported(s, 0) is None {
            assert(superscript_of(s[i]) is Some);
        }
    }
}

impl SmallTextError {
    /// The error message.
    pub fn message(&self) -> (r: String)
        ensures
            match self {
                SmallTextError::UnsupportedChar { ch, position } => r@ == small_text_message(*ch, *position as nat),
            },
    {
        match self {
            SmallTextError::UnsupportedChar { ch, position } => {
                let mut s = String::from_str("SmallText error: character '");
                push_char(&mut s, *ch);
                s.append("' (pos ");
                let d = decimal_chars(*position);
                let ds = string_of(d.as_slice());
                s.append(ds.as_str());
                s.append(") has no Unicode superscript representation");
                s
            },
        }
    }
}

/// `SmallText error: character '<ch>' (pos <position>) has no Unicode superscript representation`.
pub open spec fn small_text_message(ch: char, position: nat) -> Seq<char> {
    "SmallText error: character '"@.push(ch) + "' (pos "@ + decimal(position)
        + ") has no Unicode superscript representation"@
}

} // verus!
