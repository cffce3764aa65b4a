//! Calls into std's text handling that vstd gives no specification.
use vstd::prelude::*;

verus! {

/// What `str::lines` yields for a text: its lines, without line terminators.
pub uninterp spec fn lines_of(s: Seq<char>) -> Seq<Seq<char>>;

/// What `str::split_whitespace` yields for a text: its whitespace-separated words.
pub uninterp spec fn words_of(s: Seq<char>) -> Seq<Seq<char>>;

/// What `str::trim` leaves of a text: it without leading and trailing whitespace.
pub uninterp spec fn trimmed(s: Seq<char>) -> Seq<char>;

/// Relies on `str::lines`: the lines of `s`, in order.
#[verifier::external_body]
pub(crate) fn lines(s: &str) -> (r: Vec<String>)
    ensures
        r@.len() == lines_of(s@).len(),
        forall|i: int| 0 <= i < r@.len() ==> #[trigger] r@[i]@ == lines_of(s@)[i],
{
    s.lines().map(|l| l.to_string()).collect()
}

/// Relies on `str::split_whitespace`: the words of `s`, in order.
#[verifier::external_body]
pub(crate) fn words(s: &str) -> (r: Vec<String>)
    ensures
        r@.len() == words_of(s@).len(),
        forall|i: int| 0 <= i < r@.len() ==> #[trigger] r@[i]@ == words_of(s@)[i],
{
    s.split_whitespace().map(|w| w.to_string()).collect()
}

/// Relies on `str::trim`: `s` without surrounding whitespace.
#[verifier::external_body]
pub(crate) fn trim(s: &str) -> (r: String)
    ensures
        r@ == trimmed(s@),
{
    s.trim().to_string()
}

/// Relies on `String: FromIterator<char>`: the characters of `v`, in order.
#[verifier::external_body]
pub(crate) fn string_from_chars(v: &Vec<char>) -> (r: String)
    ensures
        r@ == v@,
{
    v.iter().collect()
}

} // verus!
