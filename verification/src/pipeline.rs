//! The pipeline orchestrator: owns the three bounded queues, the two
//! intermediate stages' held items, and the record of resolved results.
//!
//! Data flows strictly forward: entry queue -> parser -> queue -> planner
//! -> queue -> executor -> resolution. Each step function is the decision
//! core of one stage's loop: pop one item, transform it, push it onward,
//! and hold it (backpressure) when the next queue is full. A runner —
//! concurrent or sequential — calls the steps and yields when a step
//! reports `Idle` or `Held`.
//!
//! Every work item carries a ticket; the ghost `origin` map remembers
//! which payload was submitted under which ticket, and well-formedness
//! ties every in-flight payload and every delivered result to the origin
//! of its own ticket. That is the response-correlation guarantee: a result
//! delivered under a ticket is the transform of that ticket's payload,
//! never another caller's.

use vstd::prelude::*;
use crate::queue::{BoundedQueue, MAX_CAPACITY};
use crate::query_parser::{parse, parse_spec};
use crate::query_planner::{plan, plan_spec};
use crate::query_executor::{execute, execute_spec};
use crate::types::QueryResult;

verus! {

/// What the whole pipeline makes of a raw payload: the three stage
/// transforms composed in pipeline order.
pub open spec fn pipeline_spec(raw: Seq<char>) -> Seq<char> {
    execute_spec(plan_spec(parse_spec(raw)))
}

/// What one call of a step function did.
#[derive(Clone, Copy, PartialEq, Eq, Structural, Debug)]
pub enum StepOutcome {
    /// An item moved forward one position.
    Advanced,
    /// The output queue is full; the item is held for a later retry.
    Held,
    /// There was nothing to do.
    Idle,
}

/// The staged pipeline: three bounded queues, the two intermediate
/// stages' held items, the resolved results, and the ticket counter.
pub struct Pipeline {
    parser_queue: BoundedQueue,
    planner_queue: BoundedQueue,
    executor_queue: BoundedQueue,
    parser_pending: Option<(String, u64)>,
    planner_pending: Option<(String, u64)>,
    delivered: Vec<(String, u64)>,
    next_ticket: u64,
    capacity: usize,
    origin: Ghost<Map<u64, Seq<char>>>,
}

impl Pipeline {
    /// The entry queue: raw payloads awaiting the parser.
    pub closed spec fn entry(self) -> Seq<(Seq<char>, u64)> {
        self.parser_queue.contents()
    }

    /// Parsed payloads awaiting the planner.
    pub closed spec fn parsed(self) -> Seq<(Seq<char>, u64)> {
        self.planner_queue.contents()
    }

    /// Planned payloads awaiting an executor worker.
    pub closed spec fn planned(self) -> Seq<(Seq<char>, u64)> {
        self.executor_queue.contents()
    }

    /// The parser's held item, if its push met a full queue.
    pub closed spec fn pending_parsed(self) -> Option<(Seq<char>, u64)> {
        match self.parser_pending {
            Some(j) => Some((j.0@, j.1)),
            None => None,
        }
    }

    /// The planner's held item, if its push met a full queue.
    pub closed spec fn pending_planned(self) -> Option<(Seq<char>, u64)> {
        match self.planner_pending {
            Some(j) => Some((j.0@, j.1)),
            None => None,
        }
    }

    /// Every resolved result, oldest first, as (result view, ticket).
    pub closed spec fn delivered_log(self) -> Seq<(Seq<char>, u64)> {
        self.delivered@.map_values(|j: (String, u64)| (j.0@, j.1))
    }

    /// Which payload was submitted under which ticket.
    pub closed spec fn origins(self) -> Map<u64, Seq<char>> {
        self.origin@
    }

    /// The ticket the next accepted submission will get.
    pub closed spec fn next_spec(self) -> u64 {
        self.next_ticket
    }

    /// The capacity each queue was constructed with.
    pub closed spec fn cap_spec(self) -> nat {
        self.capacity as nat
    }

    /// How many items sit between submission and resolution.
    pub closed spec fn in_flight_spec(self) -> int {
        self.entry().len() + opt_len(self.pending_parsed()) + self.parsed().len() + opt_len(
            self.pending_planned(),
        ) + self.planned().len()
    }

    /// The tickets of every item the pipeline has seen, oldest first:
    /// delivered results, then each queue and held slot in reverse flow
    /// order. Submission hands tickets out in increasing order and every
    /// position is first-in-first-out, so this chain strictly increases —
    /// which is why no ticket can ever be resolved twice.
    pub closed spec fn ticket_chain(self) -> Seq<u64> {
        tickets_of(self.delivered_log()) + tickets_of(self.planned()) + opt_ticket(
            self.pending_planned(),
        ) + tickets_of(self.parsed()) + opt_ticket(self.pending_parsed()) + tickets_of(
            self.entry(),
        )
    }

    /// A raw item is its own origin.
    spec fn raw_item_ok(self, item: (Seq<char>, u64)) -> bool {
        &&& self.origins().dom().contains(item.1)
        &&& item.0 == self.origins()[item.1]
        &&& item.1 < self.next_spec()
    }

    /// A parsed item is the parse of its origin.
    spec fn parsed_item_ok(self, item: (Seq<char>, u64)) -> bool {
        &&& self.origins().dom().contains(item.1)
        &&& item.0 == parse_spec(self.origins()[item.1])
        &&& item.1 < self.next_spec()
    }

    /// A planned item is the plan of the parse of its origin.
    spec fn planned_item_ok(self, item: (Seq<char>, u64)) -> bool {
        &&& self.origins().dom().contains(item.1)
        &&& item.0 == plan_spec(parse_spec(self.origins()[item.1]))
        &&& item.1 < self.next_spec()
    }

    /// A delivered result is the full pipeline transform of its origin.
    spec fn delivered_item_ok(self, item: (Seq<char>, u64)) -> bool {
        &&& self.origins().dom().contains(item.1)
        &&& item.0 == pipeline_spec(self.origins()[item.1])
        &&& item.1 < self.next_spec()
    }

    /// Well-formedness: the queues are well-formed and share one capacity,
    /// and every item — queued, held, or delivered — carries the transform
    /// its position owes to the payload submitted under its own ticket.
    pub closed spec fn wf(self) -> bool {
        &&& self.parser_queue.wf()
        &&& self.planner_queue.wf()
        &&& self.executor_queue.wf()
        &&& self.parser_queue.bound() == self.cap_spec()
        &&& self.planner_queue.bound() == self.cap_spec()
        &&& self.executor_queue.bound() == self.cap_spec()
        &&& 1 <= self.capacity <= MAX_CAPACITY
        &&& forall|i: int|
            0 <= i < self.entry().len() ==> self.raw_item_ok(#[trigger] self.entry()[i])
        &&& match self.pending_parsed() {
            Some(j) => self.parsed_item_ok(j),
            None => true,
        }
        &&& forall|i: int|
            0 <= i < self.parsed().len() ==> self.parsed_item_ok(#[trigger] self.parsed()[i])
        &&& match self.pending_planned() {
            Some(j) => self.planned_item_ok(j),
            None => true,
        }
        &&& forall|i: int|
            0 <= i < self.planned().len() ==> self.planned_item_ok(#[trigger] self.planned()[i])
        &&& forall|i: int|
            0 <= i < self.delivered_log().len() ==> self.delivered_item_ok(
                #[trigger] self.delivered_log()[i],
            )
        &&& forall|t: u64| #[trigger] self.origins().dom().contains(t) ==> t < self.next_spec()
        &&& increasing(self.ticket_chain())
    }

    /// Wire a pipeline: one empty queue per inter-stage edge, all of the
    /// given capacity, no held items, nothing delivered, no tickets used.
    pub fn new(capacity: usize) -> (p: Pipeline)
        requires
            1 <= capacity <= MAX_CAPACITY,
        ensures
            p.wf(),
            p.entry() == Seq::<(Seq<char>, u64)>::empty(),
            p.parsed() == Seq::<(Seq<char>, u64)>::empty(),
            p.planned() == Seq::<(Seq<char>, u64)>::empty(),
            p.pending_parsed() is None,
            p.pending_planned() is None,
            p.delivered_log() == Seq::<(Seq<char>, u64)>::empty(),
            p.next_spec() == 0,
            p.origins() == Map::<u64, Seq<char>>::empty(),
            p.cap_spec() == capacity as nat,
    {
        let p = Pipeline {
            parser_queue: BoundedQueue::new(capacity),
            planner_queue: BoundedQueue::new(capacity),
            executor_queue: BoundedQueue::new(capacity),
            parser_pending: None,
            planner_pending: None,
            delivered: Vec::new(),
            next_ticket: 0,
            capacity,
            origin: Ghost(Map::empty()),
        };
        proof {
            assert(p.delivered_log() =~= Seq::<(Seq<char>, u64)>::empty());
            assert(p.ticket_chain() =~= Seq::<u64>::empty());
        }
        p
    }

    /// Accept one caller request: a fresh ticket is drawn and the payload
    /// enters the entry queue under it. The submission is accepted exactly
    /// when the entry queue has room and a ticket is left; otherwise the
    /// payload comes back unchanged for the caller to retry — the same
    /// backpressure contract the inter-stage pushes follow.
    #[verifier::rlimit(60)]
    pub fn submit(&mut self, raw_sql: String) -> (r: Result<u64, String>)
        requires
            old(self).wf(),
        ensures
            final(self).wf(),
            final(self).cap_spec() == old(self).cap_spec(),
            final(self).parsed() == old(self).parsed(),
            final(self).planned() == old(self).planned(),
            final(self).pending_parsed() == old(self).pending_parsed(),
            final(self).pending_planned() == old(self).pending_planned(),
            final(self).delivered_log() == old(self).delivered_log(),
            r is Ok <==> (old(self).entry().len() < old(self).cap_spec() && old(self).next_spec()
                < u64::MAX),
            r matches Ok(t) ==> {
                &&& t == old(self).next_spec()
                &&& !old(self).origins().dom().contains(t)
                &&& final(self).entry() == old(self).entry().push((raw_sql@, t))
                &&& final(self).origins() == old(self).origins().insert(t, raw_sql@)
                &&& final(self).next_spec() == t + 1
            },
            r matches Err(s) ==> {
                &&& s@ == raw_sql@
                &&& final(self).entry() == old(self).entry()
                &&& final(self).origins() == old(self).origins()
                &&& final(self).next_spec() == old(self).next_spec()
            },
    {
        let ghost raw_view = raw_sql@;
        if self.next_ticket == u64::MAX {
            return Err(raw_sql);
        }
        let t = self.next_ticket;
        match self.parser_queue.try_push(raw_sql, t) {
            Ok(()) => {
                self.next_ticket = t + 1;
                self.origin = Ghost(self.origin@.insert(t, raw_view));
                proof {
                    // Tickets stay unique: everything already in the chain
                    // is below the fresh ticket appended at its end.
                    let pre = *old(self);
                    pre.lemma_chain_bounded();
                    assert(self.ticket_chain() =~= pre.ticket_chain().push(t));
                    assert forall|a: int, b: int|
                        0 <= a < b < self.ticket_chain().len() implies self.ticket_chain()[a]
                        < self.ticket_chain()[b] by {
                        if b < pre.ticket_chain().len() {
                            assert(pre.ticket_chain()[a] < pre.ticket_chain()[b]);
                        } else {
                            assert(self.ticket_chain()[b] == t);
                            assert(self.ticket_chain()[a] == pre.ticket_chain()[a]);
                            assert(pre.ticket_chain()[a] < pre.next_spec());
                        }
                    }
                    assert(increasing(self.ticket_chain()));
                    // The per-item facts carry over unchanged: the new
                    // origin entry is fresh, so no existing lookup moves.
                    assert forall|t2: u64| #[trigger]
                        self.origins().dom().contains(t2) implies t2 < self.next_spec() by {
                        if t2 != t {
                            assert(pre.origins().dom().contains(t2));
                        }
                    }
                    assert(match self.pending_parsed() {
                        Some(j) => self.parsed_item_ok(j),
                        None => true,
                    });
                    assert(match self.pending_planned() {
                        Some(j) => self.planned_item_ok(j),
                        None => true,
                    });
                    assert(forall|i: int|
                        0 <= i < pre.entry().len() ==> pre.raw_item_ok(#[trigger] pre.entry()[i]));
                    assert(forall|i: int|
                        0 <= i < self.entry().len() ==> self.raw_item_ok(
                            #[trigger] self.entry()[i],
                        ));
                    assert(forall|i: int|
                        0 <= i < pre.parsed().len() ==> pre.parsed_item_ok(
                            #[trigger] pre.parsed()[i],
                        ));
                    assert(forall|i: int|
                        0 <= i < self.parsed().len() ==> self.parsed_item_ok(
                            #[trigger] self.parsed()[i],
                        ));
                    assert(forall|i: int|
                        0 <= i < pre.planned().len() ==> pre.planned_item_ok(
                            #[trigger] pre.planned()[i],
                        ));
                    assert(forall|i: int|
                        0 <= i < self.planned().len() ==> self.planned_item_ok(
                            #[trigger] self.planned()[i],
                        ));
                    assert(forall|i: int|
                        0 <= i < pre.delivered_log().len() ==> pre.delivered_item_ok(
                            #[trigger] pre.delivered_log()[i],
                        ));
                    assert(forall|i: int|
                        0 <= i < self.delivered_log().len() ==> self.delivered_item_ok(
                            #[trigger] self.delivered_log()[i],
                        ));
                }
                Ok(t)
            },
            Err(item) => {
                proof {
                    assert(self.ticket_chain() =~= old(self).ticket_chain());
                    self.lemma_wf_transfer(*old(self));
                }
                Err(item.0)
            },
        }
    }

    /// One turn of the parser stage's loop: retry a held push first;
    /// otherwise pop one raw payload, parse it, and push the parsed item —
    /// carrying the same ticket — toward the planner, holding it when the
    /// planner's queue is full. No item is ever dropped.
    pub fn parser_step(&mut self) -> (o: StepOutcome)
        requires
            old(self).wf(),
        ensures
            final(self).wf(),
            final(self).cap_spec() == old(self).cap_spec(),
            final(self).next_spec() == old(self).next_spec(),
            final(self).origins() == old(self).origins(),
            final(self).planned() == old(self).planned(),
            final(self).pending_planned() == old(self).pending_planned(),
            final(self).delivered_log() == old(self).delivered_log(),
            old(self).pending_parsed() matches Some(j) ==> {
                &&& final(self).entry() == old(self).entry()
                &&& if old(self).parsed().len() < old(self).cap_spec() {
                    &&& o == StepOutcome::Advanced
                    &&& final(self).parsed() == old(self).parsed().push(j)
                    &&& final(self).pending_parsed() is None
                } else {
                    &&& o == StepOutcome::Held
                    &&& final(self).parsed() == old(self).parsed()
                    &&& final(self).pending_parsed() == old(self).pending_parsed()
                }
            },
            (old(self).pending_parsed() is None && old(self).entry().len() == 0) ==> {
                &&& o == StepOutcome::Idle
                &&& final(self).entry() == old(self).entry()
                &&& final(self).parsed() == old(self).parsed()
                &&& final(self).pending_parsed() is None
            },
            (old(self).pending_parsed() is None && old(self).entry().len() > 0) ==> {
                &&& final(self).entry() == old(self).entry().subrange(
                    1,
                    old(self).entry().len() as int,
                )
                &&& if old(self).parsed().len() < old(self).cap_spec() {
                    &&& o == StepOutcome::Advanced
                    &&& final(self).parsed() == old(self).parsed().push(
                        (parse_spec(old(self).entry()[0].0), old(self).entry()[0].1),
                    )
                    &&& final(self).pending_parsed() is None
                } else {
                    &&& o == StepOutcome::Held
                    &&& final(self).parsed() == old(self).parsed()
                    &&& final(self).pending_parsed() == Some(
                        (parse_spec(old(self).entry()[0].0), old(self).entry()[0].1),
                    )
                }
            },
    {
        let o: StepOutcome;
        match self.parser_pending.take() {
            Some(j) => {
                match self.planner_queue.try_push(j.0, j.1) {
                    Ok(()) => {
                        o = StepOutcome::Advanced;
                    },
                    Err(back) => {
                        self.parser_pending = Some(back);
                        o = StepOutcome::Held;
                    },
                }
            },
            None => {
                match self.parser_queue.try_pop() {
                    None => {
                        o = StepOutcome::Idle;
                    },
                    Some((raw, ticket)) => {
                        let ast = parse(raw.as_str());
                        match self.planner_queue.try_push(ast, ticket) {
                            Ok(()) => {
                                o = StepOutcome::Advanced;
                            },
                            Err(back) => {
                                self.parser_pending = Some(back);
                                o = StepOutcome::Held;
                            },
                        }
                    },
                }
            },
        }
        proof {
            assert(self.ticket_chain() =~= old(self).ticket_chain());
            self.lemma_wf_transfer(*old(self));
        }
        o
    }

    /// One turn of the planner stage's loop: the parser's mirror image,
    /// planning parsed items and pushing them toward the executor pool.
    pub fn planner_step(&mut self) -> (o: StepOutcome)
        requires
            old(self).wf(),
        ensures
            final(self).wf(),
            final(self).cap_spec() == old(self).cap_spec(),
            final(self).next_spec() == old(self).next_spec(),
            final(self).origins() == old(self).origins(),
            final(self).entry() == old(self).entry(),
            final(self).pending_parsed() == old(self).pending_parsed(),
            final(self).delivered_log() == old(self).delivered_log(),
            old(self).pending_planned() matches Some(j) ==> {
                &&& final(self).parsed() == old(self).parsed()
                &&& if old(self).planned().len() < old(self).cap_spec() {
                    &&& o == StepOutcome::Advanced
                    &&& final(self).planned() == old(self).planned().push(j)
                    &&& final(self).pending_planned() is None
                } else {
                    &&& o == StepOutcome::Held
                    &&& final(self).planned() == old(self).planned()
                    &&& final(self).pending_planned() == old(self).pending_planned()
                }
            },
            (old(self).pending_planned() is None && old(self).parsed().len() == 0) ==> {
                &&& o == StepOutcome::Idle
                &&& final(self).parsed() == old(self).parsed()
                &&& final(self).planned() == old(self).planned()
                &&& final(self).pending_planned() is None
            },
            (old(self).pending_planned() is None && old(self).parsed().len() > 0) ==> {
                &&& final(self).parsed() == old(self).parsed().subrange(
                    1,
                    old(self).parsed().len() as int,
                )
                &&& if old(self).planned().len() < old(self).cap_spec() {
                    &&& o == StepOutcome::Advanced
                    &&& final(self).planned() == old(self).planned().push(
                        (plan_spec(old(self).parsed()[0].0), old(self).parsed()[0].1),
                    )
                    &&& final(self).pending_planned() is None
                } else {
                    &&& o == StepOutcome::Held
                    &&& final(self).planned() == old(self).planned()
                    &&& final(self).pending_planned() == Some(
                        (plan_spec(old(self).parsed()[0].0), old(self).parsed()[0].1),
                    )
                }
            },
    {
        let o: StepOutcome;
        match self.planner_pending.take() {
            Some(j) => {
                match self.executor_queue.try_push(j.0, j.1) {
                    Ok(()) => {
                        o = StepOutcome::Advanced;
                    },
                    Err(back) => {
                        self.planner_pending = Some(back);
                        o = StepOutcome::Held;
                    },
                }
            },
            None => {
                match self.planner_queue.try_pop() {
                    None => {
                        o = StepOutcome::Idle;
                    },
                    Some((ast, ticket)) => {
                        let planned = plan(ast.as_str());
                        match self.executor_queue.try_push(planned, ticket) {
                            Ok(()) => {
                                o = StepOutcome::Advanced;
                            },
                            Err(back) => {
                                self.planner_pending = Some(back);
                                o = StepOutcome::Held;
                            },
                        }
                    },
                }
            },
        }
        proof {
            assert(self.ticket_chain() =~= old(self).ticket_chain());
            self.lemma_wf_transfer(*old(self));
        }
        o
    }

    /// One turn of a terminal worker's loop: pop one planned item, execute
    /// it, and resolve its ticket with the result of processing that very
    /// item. The resolution is recorded and also returned, so a runner can
    /// pass it to the caller's response handle. A worker never forwards
    /// the item anywhere else.
    pub fn worker_step(&mut self) -> (r: Option<(QueryResult, u64)>)
        requires
            old(self).wf(),
        ensures
            final(self).wf(),
            final(self).cap_spec() == old(self).cap_spec(),
            final(self).next_spec() == old(self).next_spec(),
            final(self).origins() == old(self).origins(),
            final(self).entry() == old(self).entry(),
            final(self).parsed() == old(self).parsed(),
            final(self).pending_parsed() == old(self).pending_parsed(),
            final(self).pending_planned() == old(self).pending_planned(),
            old(self).planned().len() == 0 ==> {
                &&& r is None
                &&& final(self).planned() == old(self).planned()
                &&& final(self).delivered_log() == old(self).delivered_log()
            },
            old(self).planned().len() > 0 ==> {
                &&& final(self).planned() == old(self).planned().subrange(
                    1,
                    old(self).planned().len() as int,
                )
                &&& final(self).delivered_log() == old(self).delivered_log().push(
                    (execute_spec(old(self).planned()[0].0), old(self).planned()[0].1),
                )
                &&& (r matches Some(v) && v.0.output@ == execute_spec(old(self).planned()[0].0)
                    && v.1 == old(self).planned()[0].1)
                &&& (r matches Some(v) && v.0.output@ == pipeline_spec(
                    old(self).origins()[old(self).planned()[0].1],
                ))
            },
    {
        let r: Option<(QueryResult, u64)>;
        match self.executor_queue.try_pop() {
            None => {
                r = None;
            },
            Some((planned, ticket)) => {
                let output = execute(planned.as_str());
                self.delivered.push((output.clone(), ticket));
                proof {
                    assert(self.delivered_log() =~= old(self).delivered_log().push(
                        (execute_spec(old(self).planned()[0].0), old(self).planned()[0].1),
                    ));
                    assert(old(self).planned_item_ok(old(self).planned()[0]));
                }
                r = Some((QueryResult { output }, ticket));
            },
        }
        proof {
            assert(self.ticket_chain() =~= old(self).ticket_chain());
            self.lemma_wf_transfer(*old(self));
        }
        r
    }

    /// How many items sit between submission and resolution right now.
    pub fn in_flight(&self) -> (n: usize)
        requires
            self.wf(),
        ensures
            n == self.in_flight_spec(),
    {
        let mut n = self.parser_queue.len();
        n = n + self.planner_queue.len();
        n = n + self.executor_queue.len();
        if self.parser_pending.is_some() {
            n = n + 1;
        }
        if self.planner_pending.is_some() {
            n = n + 1;
        }
        n
    }

    /// How much forward motion the in-flight items still owe: an item
    /// counts for as many turns as it has positions left to cross.
    spec fn work_left(self) -> int {
        5 * self.entry().len() + 4 * opt_len(self.pending_parsed()) + 3 * self.parsed().len() + 2
            * opt_len(self.pending_planned()) + self.planned().len()
    }

    /// Run the stages and the worker pool until nothing is in flight. With
    /// no new submissions, every accepted item is carried to resolution in
    /// finitely many turns, whatever the queue capacity: exactly as many
    /// results are delivered as there were items in flight, and results
    /// already delivered stay untouched.
    #[verifier::rlimit(60)]
    pub fn drain(&mut self)
        requires
            old(self).wf(),
        ensures
            final(self).wf(),
            final(self).in_flight_spec() == 0,
            final(self).next_spec() == old(self).next_spec(),
            final(self).origins() == old(self).origins(),
            final(self).cap_spec() == old(self).cap_spec(),
            final(self).delivered_log().len() == old(self).delivered_log().len() + old(
                self,
            ).in_flight_spec(),
            forall|i: int|
                0 <= i < old(self).delivered_log().len() ==> final(self).delivered_log()[i] == old(
                    self,
                ).delivered_log()[i],
            tickets_of(final(self).delivered_log()) == old(self).ticket_chain(),
    {
        let ghost orig = *self;
        while self.in_flight() > 0
            invariant
                self.wf(),
                self.next_spec() == orig.next_spec(),
                self.origins() == orig.origins(),
                self.cap_spec() == orig.cap_spec(),
                self.in_flight_spec() + self.delivered_log().len() == orig.in_flight_spec()
                    + orig.delivered_log().len(),
                orig.delivered_log().len() <= self.delivered_log().len(),
                forall|i: int|
                    0 <= i < orig.delivered_log().len() ==> self.delivered_log()[i] == orig.delivered_log()[i],
                self.ticket_chain() == orig.ticket_chain(),
            decreases self.work_left(),
        {
            let ghost before = *self;
            let _ = self.worker_step();
            let ghost after_worker = *self;
            proof {
                assert(after_worker.ticket_chain() =~= before.ticket_chain());
            }
            let _ = self.planner_step();
            let ghost after_planner = *self;
            proof {
                assert(after_planner.ticket_chain() =~= after_worker.ticket_chain());
            }
            let _ = self.parser_step();
            proof {
                assert(self.ticket_chain() =~= after_planner.ticket_chain());
            }
        }
        proof {
            assert(tickets_of(self.delivered_log()) =~= self.ticket_chain());
        }
    }

    /// Accept one payload and run the pipeline until its own result is
    /// resolved: the submission protocol end to end. The result handed
    /// back is the full pipeline transform of the submitted payload; the
    /// call fails only when every ticket has been used up, and then the
    /// payload comes back unchanged.
    pub fn run_query(&mut self, raw_sql: String) -> (r: Result<QueryResult, String>)
        requires
            old(self).wf(),
        ensures
            final(self).wf(),
            old(self).next_spec() < u64::MAX ==> (r matches Ok(res) && res.output@
                == pipeline_spec(raw_sql@)),
            old(self).next_spec() == u64::MAX ==> (r matches Err(s) && s@ == raw_sql@),
    {
        self.drain();
        match self.submit(raw_sql) {
            Err(s) => Err(s),
            Ok(_) => {
                let _ = self.parser_step();
                let _ = self.planner_step();
                match self.worker_step() {
                    Some((res, _)) => Ok(res),
                    None => {
                        proof {
                            assert(false);
                        }
                        Err(String::new())
                    },
                }
            },
        }
    }

    /// The results resolved so far, oldest first, each under the ticket
    /// of the submission it answers.
    pub fn resolved(&self) -> (r: &Vec<(String, u64)>)
        ensures
            r@.len() == self.delivered_log().len(),
            forall|i: int|
                0 <= i < r@.len() ==> ((#[trigger] r@[i]).0@, r@[i].1) == self.delivered_log()[i],
    {
        &self.delivered
    }

    /// Every ticket a well-formed pipeline holds anywhere is below the
    /// next ticket to be issued.
    proof fn lemma_chain_bounded(self)
        requires
            self.wf(),
        ensures
            forall|k: int|
                0 <= k < self.ticket_chain().len() ==> #[trigger] self.ticket_chain()[k]
                    < self.next_spec(),
    {
        assert(forall|i: int|
            0 <= i < self.entry().len() ==> self.raw_item_ok(#[trigger] self.entry()[i]));
        assert(forall|i: int|
            0 <= i < self.parsed().len() ==> self.parsed_item_ok(#[trigger] self.parsed()[i]));
        assert(forall|i: int|
            0 <= i < self.planned().len() ==> self.planned_item_ok(#[trigger] self.planned()[i]));
        assert(forall|i: int|
            0 <= i < self.delivered_log().len() ==> self.delivered_item_ok(
                #[trigger] self.delivered_log()[i],
            ));
        assert forall|k: int|
            0 <= k < self.ticket_chain().len() implies #[trigger] self.ticket_chain()[k]
            < self.next_spec() by {
            let dl = self.delivered_log().len() as int;
            let pl = self.planned().len() as int;
            let zl = opt_ticket(self.pending_planned()).len() as int;
            let pa = self.parsed().len() as int;
            let yl = opt_ticket(self.pending_parsed()).len() as int;
            if k < dl {
                assert(self.ticket_chain()[k] == self.delivered_log()[k].1);
            } else if k < dl + pl {
                assert(self.ticket_chain()[k] == self.planned()[k - dl].1);
            } else if k < dl + pl + zl {
                assert(self.ticket_chain()[k] == opt_ticket(self.pending_planned())[0]);
            } else if k < dl + pl + zl + pa {
                assert(self.ticket_chain()[k] == self.parsed()[k - dl - pl - zl].1);
            } else if k < dl + pl + zl + pa + yl {
                assert(self.ticket_chain()[k] == opt_ticket(self.pending_parsed())[0]);
            } else {
                assert(self.ticket_chain()[k] == self.entry()[k - dl - pl - zl - pa - yl].1);
            }
        }
    }

    /// A step moves at most one item one position forward, leaving tickets
    /// and origins alone: under those conditions, well-formedness carries
    /// over from the pre-state to the post-state.
    proof fn lemma_wf_transfer(&self, pre: Pipeline)
        requires
            pre.wf(),
            self.origins() == pre.origins(),
            self.next_spec() == pre.next_spec(),
            self.cap_spec() == pre.cap_spec(),
            self.parser_queue.wf(),
            self.planner_queue.wf(),
            self.executor_queue.wf(),
            self.parser_queue.bound() == self.cap_spec(),
            self.planner_queue.bound() == self.cap_spec(),
            self.executor_queue.bound() == self.cap_spec(),
            self.entry() == pre.entry() || (pre.entry().len() > 0 && self.entry()
                == pre.entry().subrange(1, pre.entry().len() as int)),
            self.parsed() == pre.parsed() || (pre.parsed().len() > 0 && self.parsed()
                == pre.parsed().subrange(1, pre.parsed().len() as int)) || (self.parsed().len() > 0
                && self.parsed() == pre.parsed().push(self.parsed().last()) && pre.parsed_item_ok(
                self.parsed().last(),
            )),
            self.planned() == pre.planned() || (pre.planned().len() > 0 && self.planned()
                == pre.planned().subrange(1, pre.planned().len() as int)) || (self.planned().len()
                > 0 && self.planned() == pre.planned().push(self.planned().last())
                && pre.planned_item_ok(self.planned().last())),
            self.delivered_log() == pre.delivered_log() || (self.delivered_log().len() > 0
                && self.delivered_log() == pre.delivered_log().push(self.delivered_log().last())
                && pre.delivered_item_ok(self.delivered_log().last())),
            match self.pending_parsed() {
                Some(j) => pre.parsed_item_ok(j),
                None => true,
            },
            match self.pending_planned() {
                Some(j) => pre.planned_item_ok(j),
                None => true,
            },
            increasing(self.ticket_chain()),
        ensures
            self.wf(),
    {
        assert(forall|i: int|
            0 <= i < pre.entry().len() ==> pre.raw_item_ok(#[trigger] pre.entry()[i]));
        assert(forall|i: int|
            0 <= i < pre.parsed().len() ==> pre.parsed_item_ok(#[trigger] pre.parsed()[i]));
        assert(forall|i: int|
            0 <= i < pre.planned().len() ==> pre.planned_item_ok(#[trigger] pre.planned()[i]));
        assert(forall|i: int|
            0 <= i < pre.delivered_log().len() ==> pre.delivered_item_ok(
                #[trigger] pre.delivered_log()[i],
            ));
        assert forall|i: int| 0 <= i < self.entry().len() implies self.raw_item_ok(
            #[trigger] self.entry()[i],
        ) by {
            if self.entry() == pre.entry() {
                assert(pre.raw_item_ok(pre.entry()[i]));
            } else {
                assert(self.entry()[i] == pre.entry()[i + 1]);
                assert(pre.raw_item_ok(pre.entry()[i + 1]));
            }
        }
        assert forall|i: int| 0 <= i < self.parsed().len() implies self.parsed_item_ok(
            #[trigger] self.parsed()[i],
        ) by {
            if self.parsed() == pre.parsed() {
                assert(pre.parsed_item_ok(pre.parsed()[i]));
            } else if pre.parsed().len() > 0 && self.parsed() == pre.parsed().subrange(
                1,
                pre.parsed().len() as int,
            ) {
                assert(self.parsed()[i] == pre.parsed()[i + 1]);
                assert(pre.parsed_item_ok(pre.parsed()[i + 1]));
            } else {
                if i < self.parsed().len() - 1 {
                    assert(self.parsed()[i] == pre.parsed()[i]);
                    assert(pre.parsed_item_ok(pre.parsed()[i]));
                } else {
                    assert(pre.parsed_item_ok(self.parsed().last()));
                }
            }
        }
        assert forall|i: int| 0 <= i < self.planned().len() implies self.planned_item_ok(
            #[trigger] self.planned()[i],
        ) by {
            if self.planned() == pre.planned() {
                assert(pre.planned_item_ok(pre.planned()[i]));
            } else if pre.planned().len() > 0 && self.planned() == pre.planned().subrange(
                1,
                pre.planned().len() as int,
            ) {
                assert(self.planned()[i] == pre.planned()[i + 1]);
                assert(pre.planned_item_ok(pre.planned()[i + 1]));
            } else {
                if i < self.planned().len() - 1 {
                    assert(self.planned()[i] == pre.planned()[i]);
                    assert(pre.planned_item_ok(pre.planned()[i]));
                } else {
                    assert(pre.planned_item_ok(self.planned().last()));
                }
            }
        }
        assert(forall|i: int|
            0 <= i < self.delivered_log().len() ==> self.delivered_item_ok(
                #[trigger] self.delivered_log()[i],
            ));
    }
}

/// Response correlation, the no-cross-talk law: in any well-formed
/// pipeline state, however many concurrent submissions and steps led to
/// it, every delivered entry pairs a ticket with the full pipeline
/// transform of the payload submitted under that very ticket — never
/// another caller's result.
pub proof fn lemma_response_correlation(p: Pipeline, i: int)
    requires
        p.wf(),
        0 <= i < p.delivered_log().len(),
    ensures
        p.origins().dom().contains(p.delivered_log()[i].1),
        p.delivered_log()[i].0 == pipeline_spec(p.origins()[p.delivered_log()[i].1]),
{
    assert(p.delivered_item_ok(p.delivered_log()[i]));
}

/// Exactly-once resolution: a ticket is never resolved twice — two
/// distinct delivered entries always carry distinct tickets.
pub proof fn lemma_resolved_exactly_once(p: Pipeline, i: int, j: int)
    requires
        p.wf(),
        0 <= i < j < p.delivered_log().len(),
    ensures
        p.delivered_log()[i].1 != p.delivered_log()[j].1,
{
    assert(p.ticket_chain()[i] == p.delivered_log()[i].1);
    assert(p.ticket_chain()[j] == p.delivered_log()[j].1);
}

/// How many items an optional held slot counts for.
pub open spec fn opt_len(o: Option<(Seq<char>, u64)>) -> int {
    match o {
        Some(_) => 1,
        None => 0,
    }
}

/// The tickets of a queue's items, in queue order.
pub open spec fn tickets_of(s: Seq<(Seq<char>, u64)>) -> Seq<u64> {
    s.map_values(|item: (Seq<char>, u64)| item.1)
}

/// The ticket of an optional held item, as a sequence of zero or one.
pub open spec fn opt_ticket(o: Option<(Seq<char>, u64)>) -> Seq<u64> {
    match o {
        Some(j) => seq![j.1],
        None => Seq::empty(),
    }
}

/// Strictly increasing, hence free of repetitions.
pub open spec fn increasing(s: Seq<u64>) -> bool {
    forall|i: int, j: int| 0 <= i < j < s.len() ==> s[i] < s[j]
}

} // verus!
