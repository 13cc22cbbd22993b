//! Identity bookkeeping of agents merged in a consensus step.

use vstd::prelude::*;

verus! {

/// The identifier of the agent obtained by merging agent `a` with agent `b`:
/// the two identifiers joined by a `+`.
pub fn merged_agent_id(a: &str, b: &str) -> (id: String)
    ensures
        id@ == a@ + seq!['+'] + b@,
{
    let mut id = a.to_owned();
    id.append("+");
    id.append(b);
    proof {
        reveal_strlit("+");
    }
    id
}

} // verus!
