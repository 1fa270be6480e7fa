use qdb::handle::resolve;
use qdb::types::QueryResult;

#[test]
fn resolution_delivers_to_a_live_caller() {
    let (tx, mut rx) = tokio::sync::oneshot::channel();
    let delivered = resolve(tx, QueryResult { output: String::from("Executed: Plan(AST(x))") });
    assert!(delivered);
    let received = rx.try_recv().unwrap();
    assert_eq!(received.output, "Executed: Plan(AST(x))");
}

#[test]
fn abandoned_handle_fails_silently() {
    let (tx, rx) = tokio::sync::oneshot::channel();
    // The caller gives up before resolution: the resolve attempt must
    // neither panic nor block, only report that nothing was delivered.
    drop(rx);
    let delivered = resolve(tx, QueryResult { output: String::from("late result") });
    assert!(!delivered);
}
