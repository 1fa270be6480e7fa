use qdb::pipeline::{Pipeline, StepOutcome};

#[test]
fn round_trip_reference_transforms() {
    let mut p = Pipeline::new(8);
    let result = p.run_query(String::from("SELECT 1")).unwrap();
    assert_eq!(result.output, "Executed: Plan(AST(SELECT 1))");
}

#[test]
fn round_trip_by_single_steps() {
    let mut p = Pipeline::new(4);
    let ticket = p.submit(String::from("SELECT 2")).unwrap();
    assert_eq!(p.in_flight(), 1);
    assert_eq!(p.parser_step(), StepOutcome::Advanced);
    assert_eq!(p.planner_step(), StepOutcome::Advanced);
    let (result, resolved_ticket) = p.worker_step().unwrap();
    assert_eq!(resolved_ticket, ticket);
    assert_eq!(result.output, "Executed: Plan(AST(SELECT 2))");
    assert_eq!(p.in_flight(), 0);
}

#[test]
fn no_cross_talk_each_ticket_gets_its_own_result() {
    let mut p = Pipeline::new(8);
    let mut tickets = Vec::new();
    for i in 0..6 {
        let payload = format!("SELECT {}", i);
        tickets.push((p.submit(payload).unwrap(), i));
    }
    p.drain();
    let resolved = p.resolved();
    assert_eq!(resolved.len(), 6);
    for (ticket, i) in tickets {
        let (output, _) = resolved
            .iter()
            .find(|entry| entry.1 == ticket)
            .expect("every submitted ticket must be resolved");
        assert_eq!(*output, format!("Executed: Plan(AST(SELECT {}))", i));
    }
}

#[test]
fn submission_backpressure_full_entry_rejects_then_accepts() {
    let mut p = Pipeline::new(1);
    assert!(p.submit(String::from("a")).is_ok());
    // The entry queue is at capacity: the payload comes back unchanged.
    let rejected = p.submit(String::from("b")).unwrap_err();
    assert_eq!(rejected, "b");
    // One parser turn frees the entry slot; the retry is accepted.
    assert_eq!(p.parser_step(), StepOutcome::Advanced);
    assert!(p.submit(rejected).is_ok());
    p.drain();
    assert_eq!(p.resolved().len(), 2);
}

#[test]
fn stage_holds_item_when_output_queue_is_full() {
    let mut p = Pipeline::new(1);
    assert!(p.submit(String::from("a")).is_ok());
    assert_eq!(p.parser_step(), StepOutcome::Advanced);
    assert!(p.submit(String::from("b")).is_ok());
    // The planner's input queue is full, so the parsed item is held.
    assert_eq!(p.parser_step(), StepOutcome::Held);
    // The planner drains its queue; the held item then advances.
    assert_eq!(p.planner_step(), StepOutcome::Advanced);
    assert_eq!(p.parser_step(), StepOutcome::Advanced);
    p.drain();
    assert_eq!(p.resolved().len(), 2);
}

#[test]
fn idle_steps_on_an_empty_pipeline() {
    let mut p = Pipeline::new(4);
    assert_eq!(p.parser_step(), StepOutcome::Idle);
    assert_eq!(p.planner_step(), StepOutcome::Idle);
    assert!(p.worker_step().is_none());
}

#[test]
fn no_loss_all_submissions_resolved_exactly_once() {
    let mut p = Pipeline::new(8);
    for i in 0..5 {
        p.submit(format!("q{}", i)).unwrap();
    }
    p.drain();
    let resolved = p.resolved();
    assert_eq!(resolved.len(), 5);
    for i in 0..5u64 {
        assert_eq!(resolved.iter().filter(|entry| entry.1 == i).count(), 1);
    }
}

#[test]
fn many_items_through_a_tiny_pipeline_all_complete() {
    // M items far above the capacity C: backpressure retries at the entry
    // carry every item through, whatever the capacity.
    let mut p = Pipeline::new(2);
    let total = 40;
    for i in 0..total {
        let mut payload = format!("SELECT {}", i);
        loop {
            match p.submit(payload) {
                Ok(_) => break,
                Err(back) => {
                    payload = back;
                    p.worker_step();
                    p.planner_step();
                    p.parser_step();
                },
            }
        }
    }
    p.drain();
    let resolved = p.resolved();
    assert_eq!(resolved.len(), total);
    for i in 0..total as u64 {
        let entry = resolved.iter().find(|entry| entry.1 == i).unwrap();
        assert_eq!(entry.0, format!("Executed: Plan(AST(SELECT {}))", i));
    }
}

#[test]
fn results_are_delivered_in_submission_order_of_this_sequential_run() {
    let mut p = Pipeline::new(8);
    for i in 0..3 {
        p.submit(format!("s{}", i)).unwrap();
    }
    p.drain();
    let tickets: Vec<u64> = p.resolved().iter().map(|entry| entry.1).collect();
    assert_eq!(tickets, vec![0, 1, 2]);
}
