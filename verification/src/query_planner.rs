//! The planner stage's transform: wraps a syntax tree in a `Plan(..)` marker.

use vstd::prelude::*;
use vstd::string::StringExecFns;

verus! {

/// What planning produces: the input bracketed by `Plan(` and `)`.
pub open spec fn plan_spec(ast: Seq<char>) -> Seq<char> {
    "Plan("@ + ast + ")"@
}

/// Plan a parsed query into its (placeholder) plan form.
pub fn plan(ast: &str) -> (r: String)
    ensures
        r@ == plan_spec(ast@),
{
    let mut s = String::from_str("Plan(");
    s.append(ast);
    s.append(")");
    proof {
        assert(s@ =~= plan_spec(ast@));
    }
    s
}

} // verus!
