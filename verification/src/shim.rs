//! Thin trusted layer over std: string and character primitives that the
//! rest of the crate is verified against, plus shared-filename handles.

use vstd::prelude::*;
use vstd::std_specs::iter::IteratorSpec;
use std::sync::Arc;

verus! {

/// Whether two string slices hold the same characters.
pub fn str_eq(a: &str, b: &str) -> (r: bool)
    ensures
        r == (a@ == b@),
{
    let ca = chars_of(a);
    let cb = chars_of(b);
    if ca.len() != cb.len() {
        return false;
    }
    let mut i: usize = 0;
    while i < ca.len()
        invariant
            i <= ca@.len(),
            ca@ == a@,
            cb@ == b@,
            ca@.len() == cb@.len(),
            forall|j: int| 0 <= j < i ==> a@[j] == b@[j],
        decreases ca@.len() - i,
    {
        if ca[i] != cb[i] {
            return false;
        }
        i = i + 1;
    }
    proof {
        assert(a@ =~= b@);
    }
    true
}

/// Relies on String::push: appends one character at the end.
#[verifier::external_body]
pub fn push_char(s: &mut String, c: char)
    ensures
        final(s)@ == old(s)@.push(c),
{
    s.push(c);
}

/// The characters of a string slice, in order.
pub fn chars_of(s: &str) -> (r: Vec<char>)
    ensures
        r@ == s@,
{
    broadcast use vstd::string::axiom_spec_iter;
    broadcast use vstd::string::next_postcondition;

    let mut it = s.chars();
    let mut r: Vec<char> = Vec::new();
    loop
        invariant
            it.obeys_prophetic_iter_laws(),
            it.decrease() is Some,
            r@ + it.remaining() == s@,
        decreases it.decrease()->0,
    {
        match it.next() {
            Some(c) => {
                r.push(c);
            },
            None => {
                proof {
                    assert(r@ =~= s@);
                }
                return r;
            },
        }
    }
}

/// Relies on Arc's Clone: the clone carries the same value, and shares
/// the same allocation with the original.
#[verifier::external_body]
pub fn arc_clone<T>(a: &Arc<T>) -> (r: Arc<T>)
    ensures
        r == *a,
{
    Arc::clone(a)
}

/// Relies on Arc's Deref: a borrow of the shared value.
#[verifier::external_body]
pub fn arc_get<T>(a: &Arc<T>) -> (r: &T)
    ensures
        *r == **a,
{
    &**a
}

/// Name for the Unicode `Alphabetic` property of a character, decided by
/// the character alone.
pub uninterp spec fn char_alphabetic(c: char) -> bool;

/// Name for "alphabetic or numeric" as std's char::is_alphanumeric
/// decides it, by the character alone.
pub uninterp spec fn char_alphanumeric(c: char) -> bool;

/// Name for the Unicode `Uppercase` property of a character.
pub uninterp spec fn char_uppercase(c: char) -> bool;

/// Name for the Unicode `Lowercase` property of a character.
pub uninterp spec fn char_lowercase(c: char) -> bool;

/// Relies on char::is_alphabetic; on ASCII it holds of the letters
/// exactly, and every alphabetic character is alphanumeric.
#[verifier::external_body]
pub fn is_alphabetic_char(c: char) -> (r: bool)
    ensures
        r == char_alphabetic(c),
        r ==> char_alphanumeric(c),
        ('a' <= c && c <= 'z') || ('A' <= c && c <= 'Z') ==> r,
        c < 128 as char && !(('a' <= c && c <= 'z') || ('A' <= c && c <= 'Z')) ==> !r,
{
    c.is_alphabetic()
}

/// Relies on char::is_alphanumeric; on ASCII it holds of letters and
/// digits exactly.
#[verifier::external_body]
pub fn is_alphanumeric_char(c: char) -> (r: bool)
    ensures
        r == char_alphanumeric(c),
        ('a' <= c && c <= 'z') || ('A' <= c && c <= 'Z') || ('0' <= c && c <= '9') ==> r,
        c < 128 as char && !(('a' <= c && c <= 'z') || ('A' <= c && c <= 'Z') || ('0' <= c && c
            <= '9')) ==> !r,
{
    c.is_alphanumeric()
}

/// Relies on char::is_uppercase; on ASCII it holds of 'A' to 'Z' exactly.
#[verifier::external_body]
pub fn is_uppercase_char(c: char) -> (r: bool)
    ensures
        r == char_uppercase(c),
        'A' <= c && c <= 'Z' ==> r,
        c < 128 as char && !('A' <= c && c <= 'Z') ==> !r,
{
    c.is_uppercase()
}

/// Relies on char::is_lowercase; on ASCII it holds of 'a' to 'z' exactly.
#[verifier::external_body]
pub fn is_lowercase_char(c: char) -> (r: bool)
    ensures
        r == char_lowercase(c),
        'a' <= c && c <= 'z' ==> r,
        c < 128 as char && !('a' <= c && c <= 'z') ==> !r,
{
    c.is_lowercase()
}

} // verus!
