//! The parser stage's transform: wraps a raw query in an `AST(..)` marker.

use vstd::prelude::*;
use vstd::string::StringExecFns;

verus! {

/// What parsing produces: the input bracketed by `AST(` and `)`.
pub open spec fn parse_spec(sql: Seq<char>) -> Seq<char> {
    "AST("@ + sql + ")"@
}

/// Parse a raw query into its (placeholder) syntax-tree form.
pub fn parse(sql: &str) -> (r: String)
    ensures
        r@ == parse_spec(sql@),
{
    let mut s = String::from_str("AST(");
    s.append(sql);
    s.append(")");
    proof {
        assert(s@ =~= parse_spec(sql@));
    }
    s
}

} // verus!
