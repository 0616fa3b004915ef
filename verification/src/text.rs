use vstd::prelude::*;

verus! {

/// Calls `String::push`, which appends one character to the end of the
/// string; its documentation promises nothing more than that.
#[verifier::external_body]
pub(crate) fn push_char(s: &mut String, c: char)
    ensures
        final(s)@ == old(s)@.push(c),
{
    s.push(c)
}

} // verus!
