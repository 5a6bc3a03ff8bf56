use std::str::FromStr;
use vstd::prelude::*;

verus! {

/// `left` and `right` are what stands before and after the first
/// `separator` in `s`.
pub open spec fn splits_at_first(s: Seq<char>, separator: char, left: Seq<char>, right: Seq<char>) -> bool {
    &&& s == left + seq![separator] + right
    &&& !left.contains(separator)
}

/// Relies on str::split_once with a char pattern: `None` when the separator
/// does not occur, else the text before and after its first occurrence.
#[verifier::external_body]
fn split_once_at(s: &str, separator: char) -> (r: Option<(&str, &str)>)
    ensures
        r is None <==> !s@.contains(separator),
        r matches Some((left, right)) ==> splits_at_first(s@, separator, left@, right@),
{
    s.split_once(separator)
}

/// Relies on FromStr::from_str of `T`, with its error dropped.
#[verifier::external_body]
fn parse_field<T: FromStr>(s: &str) -> (r: Option<T>) {
    T::from_str(s).ok()
}

/// Splits `s` at the first `separator` into the text before and after it;
/// `None` when the separator does not occur.
pub fn split_fields(s: &str, separator: char) -> (r: Option<(&str, &str)>)
    ensures
        r is None <==> !s@.contains(separator),
        r matches Some((left, right)) ==> splits_at_first(s@, separator, left@, right@),
{
    split_once_at(s, separator)
}

/// The pair of two parsed fields, or `None` when either did not parse.
pub open spec fn pair_spec<T>(left: Option<T>, right: Option<T>) -> Option<(T, T)> {
    match (left, right) {
        (Some(a), Some(b)) => Some((a, b)),
        _ => None,
    }
}

/// Combines two parsed fields into a pair, `None` when either is missing.
pub fn pair_of<T>(left: Option<T>, right: Option<T>) -> (r: Option<(T, T)>)
    ensures
        r == pair_spec(left, right),
{
    match (left, right) {
        (Some(a), Some(b)) => Some((a, b)),
        _ => None,
    }
}

/// Parses `s` as two values of `T` on either side of the first `separator`,
/// as in `"400x600"` or `"1.0,0.5"`: the text before and after it, as
/// `split_fields` gives them, are parsed each once and combined by
/// `pair_of`. `None` when the separator is missing or either side does not
/// parse.
pub fn parse_pair<T: FromStr>(s: &str, separator: char) -> (r: Option<(T, T)>)
    ensures
        !s@.contains(separator) ==> r is None,
        r is Some ==> s@.contains(separator),
{
    match split_fields(s, separator) {
        None => None,
        Some((left, right)) => pair_of(parse_field::<T>(left), parse_field::<T>(right)),
    }
}

} // verus!
