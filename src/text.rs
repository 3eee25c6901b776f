use vstd::prelude::*;

verus! {

/// The sequence without any double-quote character.
pub open spec fn unquoted(s: Seq<char>) -> Seq<char> {
    s.filter(|c: char| c != '"')
}

/// The index of the last `.` in `s`, or -1 when there is none.
pub open spec fn last_dot(s: Seq<char>) -> int
    decreases s.len(),
{
    if s.len() == 0 {
        -1
    } else if s.last() == '.' {
        s.len() - 1
    } else {
        last_dot(s.drop_last())
    }
}

pub proof fn lemma_last_dot_bounds(s: Seq<char>)
    ensures
        -1 <= last_dot(s) < s.len(),
        last_dot(s) >= 0 ==> s[last_dot(s)] == '.',
    decreases s.len(),
{
    if s.len() > 0 && s.last() != '.' {
        lemma_last_dot_bounds(s.drop_last());
    }
}

/// Relies on `str::replace`: every `"` is removed, all other characters kept in order.
#[verifier::external_body]
pub(crate) fn strip_quotes(s: &str) -> (r: String)
    ensures
        r@ == unquoted(s@),
{
    s.replace('"', "")
}

/// Relies on `str::starts_with` with a string pattern.
#[verifier::external_body]
pub(crate) fn starts_with(s: &str, p: &str) -> (r: bool)
    ensures
        r == p@.is_prefix_of(s@),
{
    s.starts_with(p)
}

/// Relies on `str::ends_with` with a string pattern.
#[verifier::external_body]
pub(crate) fn ends_with(s: &str, p: &str) -> (r: bool)
    ensures
        r == p@.is_suffix_of(s@),
{
    s.ends_with(p)
}

/// Relies on `str::rsplit_once` with a char pattern: the split is made at
/// the last `.`, which is dropped.
#[verifier::external_body]
pub(crate) fn split_at_last_dot(s: &str) -> (r: Option<(String, String)>)
    ensures
        r is None <==> last_dot(s@) < 0,
        r matches Some((a, b)) ==> a@ == s@.take(last_dot(s@)) && b@ == s@.skip(last_dot(s@) + 1),
{
    s.rsplit_once('.').map(|(a, b)| (a.to_string(), b.to_string()))
}

/// Whether `s` reads exactly `w`.
pub(crate) fn is_word(s: &str, w: &str) -> (r: bool)
    ensures
        r == (s@ == w@),
{
    let a = s.to_owned();
    let b = w.to_owned();
    a == b
}

} // verus!
