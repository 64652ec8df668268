//! Rendering output data as text: the ReConf format and JSON.

use vstd::prelude::*;

use crate::text::chars_of;

pub mod data;
pub mod json;
pub mod reconf;

pub use data::DataValue;
pub use reconf::ReconfEmitter;

verus! {

broadcast use vstd::std_specs::vec::group_vec_axioms;

/// Appends the characters of `s`.
pub fn push_str(out: &mut Vec<char>, s: &str)
    ensures
        final(out)@ == old(out)@ + s@,
{
    let chars = chars_of(s);
    push_chars(out, &chars);
}

/// Appends the characters of `chars`.
pub fn push_chars(out: &mut Vec<char>, chars: &Vec<char>)
    ensures
        final(out)@ == old(out)@ + chars@,
{
    let ghost start = out@;
    let mut i: usize = 0;
    while i < chars.len()
        invariant
            i <= chars@.len(),
            out@ == start + chars@.take(i as int),
        decreases chars.len() - i,
    {
        out.push(chars[i]);
        i = i + 1;
        assert(chars@.take(i as int) =~= chars@.take(i - 1).push(chars@[i - 1]));
    }
    assert(chars@.take(i as int) =~= chars@);
}

} // verus!
