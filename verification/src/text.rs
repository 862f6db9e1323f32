//! Building text.
use vstd::prelude::*;

verus! {

/// `prefix` followed by `rest`, as a new string.
pub fn joined(prefix: &str, rest: &str) -> (r: String)
    ensures
        r@ == prefix@ + rest@,
{
    let mut s = prefix.to_owned();
    s.append(rest);
    s
}

} // verus!
