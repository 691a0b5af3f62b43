//! Text primitives of the standard library that the crate builds on.

use vstd::prelude::*;

verus! {

/// `String::push` appends exactly the given character to the end of the
/// string. Assumed of the standard library, not proved.
pub assume_specification[ std::string::String::push ](s: &mut std::string::String, c: char)
    ensures
        final(s)@ == old(s)@.push(c),
;

/// `str`'s `==` holds exactly when both slices hold the same characters.
/// Assumed of the standard library, not proved.
pub assume_specification[ <str as PartialEq>::eq ](a: &str, b: &str) -> (same: bool)
    ensures
        same == (a@ == b@),
;

/// Whether two string slices hold the same characters.
pub fn same_text(a: &str, b: &str) -> (same: bool)
    ensures
        same == (a@ == b@),
{
    *a == *b
}

/// The value that a list of key and value pairs gives a key: that of the last
/// pair with this key, as if each pair had been written over the ones before.
pub open spec fn value_of(pairs: Seq<(String, String)>, key: Seq<char>) -> Option<Seq<char>>
    decreases pairs.len(),
{
    if pairs.len() == 0 {
        None
    } else if pairs.last().0@ == key {
        Some(pairs.last().1@)
    } else {
        value_of(pairs.drop_last(), key)
    }
}

/// Looks a key up in a list of key and value pairs.
pub fn find_value<'a>(pairs: &'a Vec<(String, String)>, key: &str) -> (value: Option<&'a String>)
    ensures
        match value {
            Some(text) => value_of(pairs@, key@) == Some(text@),
            None => value_of(pairs@, key@) is None,
        },
{
    let mut i: usize = pairs.len();
    assert(pairs@.take(i as int) =~= pairs@);
    while i > 0
        invariant
            i <= pairs@.len(),
            value_of(pairs@, key@) == value_of(pairs@.take(i as int), key@),
        decreases i,
    {
        i = i - 1;
        assert(pairs@.take(i + 1).drop_last() =~= pairs@.take(i as int));
        if same_text(pairs[i].0.as_str(), key) {
            return Some(&pairs[i].1);
        }
    }
    assert(pairs@.take(0) =~= Seq::<(String, String)>::empty());
    None
}

} // verus!
