//! Work-item types, one per pipeline position. The payload changes as an
//! item crosses each stage; the response ticket is carried unchanged and
//! identifies the one caller the eventual result belongs to.

use vstd::prelude::*;
use crate::query_executor::{execute, execute_spec};
use crate::query_parser::{parse, parse_spec};
use crate::query_planner::{plan, plan_spec};

verus! {

/// A caller's raw request, as it sits on the entry queue.
pub struct QueryRequest {
    pub raw_sql: String,
    pub ticket: u64,
}

/// The output of the parser stage, awaiting planning.
pub struct ParsedQuery {
    pub ast: String,
    pub ticket: u64,
}

/// The output of the planner stage, awaiting execution.
pub struct PlannedQuery {
    pub plan: String,
    pub ticket: u64,
}

/// The terminal value delivered to the original caller.
pub struct QueryResult {
    pub output: String,
}

impl QueryRequest {
    /// What the parser stage makes of this request: the parsed payload
    /// under the same ticket.
    pub fn parsed(self) -> (r: ParsedQuery)
        ensures
            r.ast@ == parse_spec(self.raw_sql@),
            r.ticket == self.ticket,
    {
        ParsedQuery { ast: parse(self.raw_sql.as_str()), ticket: self.ticket }
    }
}

impl ParsedQuery {
    /// What the planner stage makes of this item: the planned payload
    /// under the same ticket.
    pub fn planned(self) -> (r: PlannedQuery)
        ensures
            r.plan@ == plan_spec(self.ast@),
            r.ticket == self.ticket,
    {
        PlannedQuery { plan: plan(self.ast.as_str()), ticket: self.ticket }
    }
}

impl PlannedQuery {
    /// What a terminal worker makes of this item: the result owed to the
    /// caller holding this ticket.
    pub fn executed(&self) -> (r: QueryResult)
        ensures
            r.output@ == execute_spec(self.plan@),
    {
        QueryResult { output: execute(self.plan.as_str()) }
    }
}

} // verus!
