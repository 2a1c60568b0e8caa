//! Conversions between strings and their character vectors.
//!
//! vstd views both `String` and `Vec<char>` as a `Seq<char>`; these
//! conversions move between the executable types without changing the
//! view.

use vstd::prelude::*;
use vstd::std_specs::iter::IteratorSpec;

verus! {

/// Relies on std's `FromIterator` for `String`, which vstd gives no
/// specification: collecting a character vector yields the string with
/// exactly those characters.
#[verifier::external_body]
pub(crate) fn string_of_chars(v: &Vec<char>) -> (r: String)
    ensures
        r@ == v@,
{
    v.iter().collect()
}

/// The string's characters in order, gathered by a verified loop over
/// std's character iterator.
pub(crate) fn chars_of_str(s: &str) -> (r: Vec<char>)
    ensures
        r@ == s@,
{
    broadcast use vstd::string::axiom_spec_iter, vstd::string::next_postcondition;

    let mut it = s.chars();
    let mut out: Vec<char> = Vec::new();
    loop
        invariant
            it.obeys_prophetic_iter_laws(),
            IteratorSpec::decrease(&it) is Some,
            out@ + IteratorSpec::remaining(&it) == s@,
        ensures
            out@ == s@,
        decreases IteratorSpec::decrease(&it)->0,
    {
        match it.next() {
            Some(c) => {
                out.push(c);
            },
            None => {
                proof {
                    assert(out@ + IteratorSpec::remaining(&it) =~= out@);
                }
                break;
            },
        }
    }
    out
}

} // verus!
