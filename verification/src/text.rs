//! Moving between strings and sequences of characters.

use vstd::prelude::*;

verus! {

/// The characters of `line`, in order.
pub fn chars_of(line: &str) -> (chars: Vec<char>)
    ensures
        chars@ == line@,
{
    broadcast use vstd::string::group_string_axioms;
    let mut chars: Vec<char> = Vec::new();
    for c in rest: line.chars()
        invariant
            rest.seq() == line@,
            chars@ == line@.take(rest.index() as int),
    {
        chars.push(c);
    }
    chars
}

} // verus!
