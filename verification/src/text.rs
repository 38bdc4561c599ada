//! Text helpers the handlers' logic is stated over: joining, substitution,
//! trimming and decimal formatting.

use vstd::prelude::*;

verus! {

/// The parts joined into one sequence with the separator between each
/// consecutive pair.
pub open spec fn joined(parts: Seq<Seq<char>>, sep: Seq<char>) -> Seq<char>
    decreases parts.len(),
{
    if parts.len() == 0 {
        Seq::empty()
    } else if parts.len() == 1 {
        parts[0]
    } else {
        parts[0] + sep + joined(parts.drop_first(), sep)
    }
}

/// Relies on itertools::join: concatenates the items' text with the
/// separator between each pair (the display form of a string is the string
/// itself).
#[verifier::external_body]
pub(crate) fn join_strings(parts: &Vec<String>, sep: &str) -> (r: String)
    ensures
        r@ == joined(parts.deep_view(), sep@),
{
    itertools::join(parts.iter(), sep)
}

/// What `str::replace` returns: the string with every non-overlapping match
/// of the pattern, left to right, replaced by the substitute. Named only —
/// the exact matching rules live in std — and a function of the three
/// arguments alone.
pub uninterp spec fn replaced_of(s: Seq<char>, pat: Seq<char>, sub: Seq<char>) -> Seq<char>;

/// Relies on str::replace: replaces every non-overlapping match of `pat`
/// with `sub`.
#[verifier::external_body]
pub(crate) fn replace_str(s: &str, pat: &str, sub: &str) -> (r: String)
    ensures
        r@ == replaced_of(s@, pat@, sub@),
{
    s.replace(pat, sub)
}

/// What `str::trim` returns: the string with leading and trailing whitespace
/// removed. Named only — the Unicode whitespace rules live in std — and a
/// function of the argument alone.
pub uninterp spec fn trimmed_of(s: Seq<char>) -> Seq<char>;

/// Relies on str::trim: drops leading and trailing whitespace.
#[verifier::external_body]
pub(crate) fn trim_str(s: &str) -> (r: &str)
    ensures
        r@ == trimmed_of(s@),
{
    s.trim()
}

/// The decimal digit for a value below ten.
pub open spec fn digit_char(d: nat) -> char {
    if d == 0 {
        '0'
    } else if d == 1 {
        '1'
    } else if d == 2 {
        '2'
    } else if d == 3 {
        '3'
    } else if d == 4 {
        '4'
    } else if d == 5 {
        '5'
    } else if d == 6 {
        '6'
    } else if d == 7 {
        '7'
    } else if d == 8 {
        '8'
    } else {
        '9'
    }
}

/// The decimal digits of `n`, most significant first, with no leading
/// zeros (a lone zero for zero itself).
pub open spec fn dec_str(n: nat) -> Seq<char>
    decreases n,
{
    if n < 10 {
        seq![digit_char(n)]
    } else {
        dec_str(n / 10).push(digit_char(n % 10))
    }
}

/// Relies on u64's `ToString`: the shortest decimal representation of the
/// number.
#[verifier::external_body]
pub(crate) fn u64_to_string(n: u64) -> (r: String)
    ensures
        r@ == dec_str(n as nat),
{
    n.to_string()
}

} // verus!
