use qdb::types::{ParsedQuery, PlannedQuery, QueryRequest};

#[test]
fn request_crosses_the_stages_keeping_its_ticket() {
    let request = QueryRequest { raw_sql: String::from("SELECT 1"), ticket: 9 };
    let parsed = request.parsed();
    assert_eq!(parsed.ast, "AST(SELECT 1)");
    assert_eq!(parsed.ticket, 9);
    let planned = parsed.planned();
    assert_eq!(planned.plan, "Plan(AST(SELECT 1))");
    assert_eq!(planned.ticket, 9);
    let result = planned.executed();
    assert_eq!(result.output, "Executed: Plan(AST(SELECT 1))");
}

#[test]
fn executed_reads_the_plan_it_was_given() {
    let planned = PlannedQuery { plan: String::from("Plan(AST(x))"), ticket: 0 };
    assert_eq!(planned.executed().output, "Executed: Plan(AST(x))");
}

#[test]
fn parsed_query_planning_wraps_the_ast() {
    let parsed = ParsedQuery { ast: String::from("AST(y)"), ticket: 3 };
    assert_eq!(parsed.planned().plan, "Plan(AST(y))");
}
