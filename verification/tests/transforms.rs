use qdb::query_executor::execute;
use qdb::query_parser::parse;
use qdb::query_planner::plan;

#[test]
fn parse_wraps_raw_sql() {
    assert_eq!(parse("SELECT 1"), "AST(SELECT 1)");
}

#[test]
fn parse_of_empty_input() {
    assert_eq!(parse(""), "AST()");
}

#[test]
fn plan_wraps_ast() {
    assert_eq!(plan("AST(SELECT 1)"), "Plan(AST(SELECT 1))");
}

#[test]
fn execute_marks_plan() {
    assert_eq!(execute("Plan(AST(SELECT 1))"), "Executed: Plan(AST(SELECT 1))");
}

#[test]
fn stage_composition_matches_reference() {
    let raw = "SELECT name FROM users";
    let composed = execute(&plan(&parse(raw)));
    assert_eq!(composed, "Executed: Plan(AST(SELECT name FROM users))");
}
