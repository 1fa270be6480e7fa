//! The terminal stage's transform: marks a plan as executed.

use vstd::prelude::*;
use vstd::string::StringExecFns;

verus! {

/// What execution produces: the plan prefixed by `Executed: `.
pub open spec fn execute_spec(plan: Seq<char>) -> Seq<char> {
    "Executed: "@ + plan
}

/// Execute a planned query, producing the (placeholder) result text.
pub fn execute(plan: &str) -> (r: String)
    ensures
        r@ == execute_spec(plan@),
{
    let mut s = String::from_str("Executed: ");
    s.append(plan);
    s
}

} // verus!
