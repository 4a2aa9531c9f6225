//! The computing part of the ZooKeeper load test program.
use vstd::prelude::*;
use vstd::string::*;

verus! {

/// The two words with one space between them, as the load test's worker
/// threads report them.
pub fn test_thread(input: String, other: String) -> (r: String)
    ensures
        r@ == input@ + seq![' '] + other@,
{
    proof {
        reveal_strlit(" ");
    }
    let mut r = input;
    r.append(" ");
    r.append(other.as_str());
    assert(" "@ =~= seq![' ']);
    r
}

} // verus!
