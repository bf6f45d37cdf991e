//! The trace engine.
//!
//! An engine follows the funds of a transaction backwards: it explores the
//! root, then the transactions that last touched the root's accounts, and so
//! on, down to a depth bound, never exploring a signature twice and never
//! more than a bounded number of signatures at once. It does not talk to the
//! ledger. Each method returns the requests to send, and the caller reports
//! each answer with `on_transaction` or `on_prior_signatures`.

use vstd::prelude::*;
use crate::error::{BranchFailure, BranchFailureView, TraceError, TraceErrorView};
use crate::graph_builder::{GraphBuilder, GraphSnapshot, exported, first_malformed};
use crate::record::{position_of, texts_of, TransactionRecord, TransactionView};
use crate::rpc_client::{
    signatures_of, LedgerRequest, SolanaRpcClient, DEFAULT_MAX_IN_FLIGHT,
};
use crate::signature::{decoded_signature, Signature};
use crate::trace_model::{
    accepted_accounts, active_signatures, awaiting, consistent, discovered, fetch, finished,
    first_index, initial, is_first_index, lemma_first_index, lemma_received_prior_signatures,
    lemma_received_transaction, lemma_schedule_next, lookup, lookups,
    received_prior_signatures, received_transaction, refusals, schedule, schedule_next, settled,
    step, valid_bounds, visit_signatures, EventView, ExplorationView, PhaseView, RequestView,
    TraceView, VisitView, LOOKUP_LIMIT, MAX_DEPTH, MAX_FANOUT, MIN_DEPTH, MIN_FANOUT,
};

verus! {

/// A signature together with the depth at which it was found.
struct Visit {
    signature: Signature,
    depth: usize,
}

impl View for Visit {
    type V = VisitView;

    closed spec fn view(&self) -> VisitView {
        VisitView { signature: self.signature@, depth: self.depth as nat }
    }
}

/// What an exploration waits for.
enum Phase {
    Transaction,
    Predecessors { outstanding: Vec<String> },
}

impl View for Phase {
    type V = PhaseView;

    closed spec fn view(&self) -> PhaseView {
        match *self {
            Phase::Transaction => PhaseView::Transaction,
            Phase::Predecessors { outstanding } => PhaseView::Predecessors {
                outstanding: texts_of(outstanding@),
            },
        }
    }
}

/// An exploration that holds a slot.
struct Exploration {
    signature: Signature,
    depth: usize,
    phase: Phase,
}

impl View for Exploration {
    type V = ExplorationView;

    closed spec fn view(&self) -> ExplorationView {
        ExplorationView {
            signature: self.signature@,
            depth: self.depth as nat,
            phase: self.phase@,
        }
    }
}

/// A request to send, with the signature of the exploration that makes it.
/// The answer is reported under that signature.
#[derive(Debug)]
pub struct TraceRequest {
    pub origin: Signature,
    pub request: LedgerRequest,
}

impl View for TraceRequest {
    type V = RequestView;

    open spec fn view(&self) -> RequestView {
        RequestView { origin: self.origin@, request: self.request@ }
    }
}

/// The requests of a list as mathematical values.
pub open spec fn requests_of(requests: Seq<TraceRequest>) -> Seq<RequestView> {
    Seq::new(requests.len(), |i: int| requests[i]@)
}

/// The failures of a list as mathematical values.
pub open spec fn failures_of(failures: Seq<BranchFailure>) -> Seq<BranchFailureView> {
    Seq::new(failures.len(), |i: int| failures[i]@)
}

/// An optional error as a mathematical value.
pub open spec fn error_of(error: Option<TraceError>) -> Option<TraceErrorView> {
    match error {
        Some(e) => Some(e@),
        None => None,
    }
}

/// The answer to a request for a transaction as a mathematical value.
pub open spec fn transaction_of(outcome: Result<TransactionRecord, TraceError>) -> Result<
    TransactionView,
    TraceErrorView,
> {
    match outcome {
        Ok(record) => Ok(record@),
        Err(error) => Err(error@),
    }
}

/// The answer to a request for prior signatures as a mathematical value.
pub open spec fn prior_signatures_of(outcome: Result<Vec<String>, TraceError>) -> Result<
    Seq<Seq<char>>,
    TraceErrorView,
> {
    match outcome {
        Ok(texts) => Ok(texts_of(texts@)),
        Err(error) => Err(error@),
    }
}

spec fn visits_of(visits: Seq<Visit>) -> Seq<VisitView> {
    Seq::new(visits.len(), |i: int| visits[i]@)
}

spec fn explorations_of(active: Seq<Exploration>) -> Seq<ExplorationView> {
    Seq::new(active.len(), |i: int| active[i]@)
}

/// The trace engine.
pub struct SolanaTracer {
    rpc_client: SolanaRpcClient,
    graph_builder: GraphBuilder,
    max_depth: usize,
    max_concurrency: usize,
    visited: Vec<Visit>,
    pending: Vec<Visit>,
    active: Vec<Exploration>,
    failures: Vec<BranchFailure>,
    root_error: Option<TraceError>,
}

impl View for SolanaTracer {
    type V = TraceView;

    closed spec fn view(&self) -> TraceView {
        TraceView {
            max_depth: self.max_depth as nat,
            max_fanout: self.max_concurrency as nat,
            graph: self.graph_builder@,
            visited: visits_of(self.visited@),
            pending: visits_of(self.pending@),
            active: explorations_of(self.active@),
            failures: failures_of(self.failures@),
            root_error: error_of(self.root_error),
        }
    }
}

impl SolanaTracer {
    /// The invariant of the engine: its graph is well formed, its state is
    /// consistent, and no exploration waits while a slot is free.
    pub closed spec fn wf(&self) -> bool {
        &&& self.graph_builder.wf()
        &&& consistent(self@)
        &&& settled(self@)
    }

    /// Whether the graph can take `transfers` more transfers.
    pub closed spec fn has_room(&self, transfers: nat) -> bool {
        self.graph_builder.has_room(transfers)
    }

    /// The ledger client that the engine builds its requests with. An
    /// engine keeps the client it was made with.
    pub closed spec fn ledger_client(&self) -> SolanaRpcClient {
        self.rpc_client
    }

    /// An engine with the given bounds, an empty graph, and a ledger client
    /// with the default number of requests in flight. The depth bound must
    /// be 1 to 10 and the fan-out bound 1 to 20.
    pub fn new(max_depth: usize, max_concurrency: usize) -> (result: Result<
        SolanaTracer,
        TraceError,
    >)
        ensures
            match result {
                Ok(tracer) => {
                    &&& valid_bounds(max_depth as nat, max_concurrency as nat)
                    &&& tracer.wf()
                    &&& tracer@ == initial(
                        max_depth as nat,
                        max_concurrency as nat,
                        crate::graph_builder::empty_graph(),
                    )
                    &&& tracer.ledger_client().max_in_flight() == DEFAULT_MAX_IN_FLIGHT
                },
                Err(error) => {
                    &&& !valid_bounds(max_depth as nat, max_concurrency as nat)
                    &&& error@ == TraceErrorView::InvalidConfiguration
                },
            },
    {
        if max_depth < MIN_DEPTH || max_depth > MAX_DEPTH {
            return Err(TraceError::InvalidConfiguration);
        }
        if max_concurrency < MIN_FANOUT || max_concurrency > MAX_FANOUT {
            return Err(TraceError::InvalidConfiguration);
        }
        let tracer = SolanaTracer {
            rpc_client: SolanaRpcClient::new(DEFAULT_MAX_IN_FLIGHT),
            graph_builder: GraphBuilder::new(),
            max_depth,
            max_concurrency,
            visited: Vec::new(),
            pending: Vec::new(),
            active: Vec::new(),
            failures: Vec::new(),
            root_error: None,
        };
        assert(tracer@.visited =~= Seq::empty());
        assert(tracer@.pending =~= Seq::empty());
        assert(tracer@.active =~= Seq::empty());
        assert(tracer@.failures =~= Seq::empty());
        Ok(tracer)
    }

    /// The depth bound.
    pub fn max_depth(&self) -> (bound: usize)
        ensures
            bound == self@.max_depth,
    {
        self.max_depth
    }

    /// The fan-out bound.
    pub fn max_concurrency(&self) -> (bound: usize)
        ensures
            bound == self@.max_fanout,
    {
        self.max_concurrency
    }

    /// The ledger client of the engine.
    pub fn rpc_client(&self) -> (client: &SolanaRpcClient)
        ensures
            *client == self.ledger_client(),
    {
        &self.rpc_client
    }

    /// Tells whether the graph can take `transfers` more transfers.
    pub fn has_room_for(&self, transfers: usize) -> (room: bool)
        requires
            self.wf(),
        ensures
            room == self.has_room(transfers as nat),
    {
        self.graph_builder.has_room_for(transfers)
    }

    /// Whether the run is over: no exploration holds a slot and none waits.
    pub fn is_finished(&self) -> (over: bool)
        ensures
            over == finished(self@),
    {
        self.active.len() == 0 && self.pending.len() == 0
    }

    /// The number of signatures visited in this run.
    pub fn visited_count(&self) -> (count: usize)
        ensures
            count == self@.visited.len(),
    {
        self.visited.len()
    }

    /// The number of explorations that hold a slot.
    pub fn active_count(&self) -> (count: usize)
        ensures
            count == self@.active.len(),
    {
        self.active.len()
    }

    /// The failures recorded in this run, oldest first.
    pub fn failures(&self) -> (failures: &Vec<BranchFailure>)
        ensures
            failures_of(failures@) == self@.failures,
    {
        &self.failures
    }

    /// Whether a signature was visited in this run.
    pub fn is_visited(&self, signature: &Signature) -> (visited: bool)
        ensures
            visited == visit_signatures(self@.visited).contains(signature@),
    {
        let mut i: usize = 0;
        while i < self.visited.len()
            invariant
                i <= self.visited@.len(),
                forall|j: int| 0 <= j < i ==> visit_signatures(self@.visited)[j] != signature@,
            decreases self.visited@.len() - i,
        {
            if self.visited[i].signature.same_as(signature) {
                assert(visit_signatures(self@.visited)[i as int] == signature@);
                return true;
            }
            i += 1;
        }
        false
    }

    /// The position of the exploration with the given signature among those
    /// that hold a slot.
    fn find_exploration(&self, signature: &Signature) -> (position: Option<usize>)
        ensures
            match position {
                Some(k) => first_index(active_signatures(self@.active), signature@) == Some(
                    k as int,
                ) && k < self.active@.len(),
                None => first_index(active_signatures(self@.active), signature@) is None,
            },
    {
        let ghost signatures = active_signatures(self@.active);
        proof {
            lemma_first_index(signatures, signature@);
        }
        let mut i: usize = 0;
        while i < self.active.len()
            invariant
                i <= self.active@.len(),
                signatures == active_signatures(self@.active),
                forall|j: int| 0 <= j < i ==> signatures[j] != signature@,
            decreases self.active@.len() - i,
        {
            if self.active[i].signature.same_as(signature) {
                assert(is_first_index(signatures, signature@, i as int));
                return Some(i);
            }
            i += 1;
        }
        assert(!signatures.contains(signature@));
        None
    }

    /// Hands free slots to the explorations that wait, first come first
    /// served, and appends the requests for their transactions.
    fn schedule(&mut self, requests: &mut Vec<TraceRequest>)
        requires
            old(self).graph_builder.wf(),
            consistent(old(self)@),
        ensures
            final(self).wf(),
            final(self)@ == schedule(old(self)@).0,
            requests_of(final(requests)@) == requests_of(old(requests)@) + schedule(
                old(self)@,
            ).1,
            forall|n: nat| final(self).has_room(n) == old(self).has_room(n),
            final(self).ledger_client() == old(self).ledger_client(),
    {
        let ghost start = self@;
        let ghost builder = self.graph_builder;
        let ghost client = self.rpc_client;
        let ghost base = requests_of(requests@);
        let ghost mut emitted: Seq<RequestView> = Seq::empty();
        assert(base + emitted =~= base);
        assert(emitted + schedule(self@).1 =~= schedule(self@).1);
        while self.pending.len() > 0 && self.active.len() < self.max_concurrency
            invariant
                self.graph_builder == builder,
                self.rpc_client == client,
                consistent(self@),
                requests_of(requests@) == base + emitted,
                schedule(start).0 == schedule(self@).0,
                schedule(start).1 == emitted + schedule(self@).1,
            decreases self.pending@.len(),
        {
            let ghost before = self@;
            let ghost sent = requests_of(requests@);
            let next = self.pending.remove(0);
            assert(self@.pending =~= before.pending.drop_first());
            assert(next@ == before.pending.first());
            let dropped = next.depth >= self.max_depth || self.is_visited(&next.signature);
            if !dropped {
                let request = self.rpc_client.get_transaction(&next.signature);
                requests.push(TraceRequest { origin: next.signature, request });
                self.active.push(
                    Exploration {
                        signature: next.signature,
                        depth: next.depth,
                        phase: Phase::Transaction,
                    },
                );
                self.visited.push(next);
                assert(self@.visited =~= before.visited.push(next@));
                assert(self@.active =~= before.active.push(
                    ExplorationView {
                        signature: next@.signature,
                        depth: next@.depth,
                        phase: PhaseView::Transaction,
                    },
                ));
                assert(requests_of(requests@) =~= sent + seq![fetch(next@.signature)]);
            } else {
                assert(requests_of(requests@) =~= sent + Seq::<RequestView>::empty());
            }
            proof {
                let (after, first) = schedule_next(before);
                assert(self@ == after);
                assert(requests_of(requests@) == sent + first);
                lemma_schedule_next(before);
                assert(base + (emitted + first) =~= (base + emitted) + first);
                assert(emitted + (first + schedule(after).1) =~= (emitted + first) + schedule(
                    after,
                ).1);
                emitted = emitted + first;
            }
        }
        assert(emitted + Seq::<RequestView>::empty() =~= emitted);
    }

    /// Starts a run from the transaction with the given signature, in
    /// base58. A text that is no signature is refused as invalid input and
    /// leaves the engine as it was. Else the run that was under way, if any,
    /// is dropped, the graph is kept, and the requests to send first are
    /// returned.
    pub fn trace_transaction(&mut self, signature: &str) -> (result: Result<
        Vec<TraceRequest>,
        TraceError,
    >)
        requires
            old(self).wf(),
        ensures
            final(self).wf(),
            forall|n: nat| final(self).has_room(n) == old(self).has_room(n),
            final(self).ledger_client() == old(self).ledger_client(),
            match result {
                Ok(requests) => {
                    &&& decoded_signature(signature@) is Some
                    &&& (final(self)@, requests_of(requests@)) == step(
                        old(self)@,
                        EventView::Start { root: decoded_signature(signature@)->0 },
                    )
                },
                Err(error) => {
                    &&& decoded_signature(signature@) is None
                    &&& error@ == TraceErrorView::InvalidInput
                    &&& final(self)@ == old(self)@
                },
            },
    {
        let root = match Signature::parse(signature) {
            Some(root) => root,
            None => {
                return Err(TraceError::InvalidInput);
            },
        };
        let ghost before = self@;
        self.visited = Vec::new();
        self.pending = Vec::new();
        self.pending.push(Visit { signature: root, depth: 0 });
        self.active = Vec::new();
        self.failures = Vec::new();
        self.root_error = None;
        proof {
            let fresh = TraceView {
                visited: Seq::empty(),
                pending: seq![VisitView { signature: root@, depth: 0 }],
                active: Seq::empty(),
                failures: Seq::empty(),
                root_error: None,
                ..before
            };
            assert(self@.visited =~= fresh.visited);
            assert(self@.pending =~= fresh.pending);
            assert(self@.active =~= fresh.active);
            assert(self@.failures =~= fresh.failures);
            assert(self@ == fresh);
            assert(visit_signatures(fresh.visited) =~= Seq::<Seq<u8>>::empty());
            assert(active_signatures(fresh.active) =~= Seq::<Seq<u8>>::empty());
        }
        let ghost fresh = self@;
        let mut requests: Vec<TraceRequest> = Vec::new();
        assert(requests_of(requests@) =~= Seq::<RequestView>::empty());
        self.schedule(&mut requests);
        assert(requests_of(requests@) =~= schedule(fresh).1);
        Ok(requests)
    }

    /// Reports the answer to the request for the transaction of `signature`.
    ///
    /// The answer is ignored unless an exploration waits for it. A failed
    /// fetch ends the exploration and is recorded; for the root it is what
    /// `finish` will report. A fetched transaction is ingested into the
    /// graph; if one of its transfers is malformed, that is recorded and the
    /// exploration ends. Else the prior signatures of its accounts are
    /// requested. Freed slots are handed on, and the requests to send next
    /// are returned.
    pub fn on_transaction(
        &mut self,
        signature: &Signature,
        outcome: Result<TransactionRecord, TraceError>,
    ) -> (requests: Vec<TraceRequest>)
        requires
            old(self).wf(),
            outcome matches Ok(record) ==> old(self).has_room(record@.instructions.len()),
        ensures
            final(self).wf(),
            final(self).ledger_client() == old(self).ledger_client(),
            (final(self)@, requests_of(requests@)) == step(
                old(self)@,
                EventView::Transaction { signature: signature@, outcome: transaction_of(outcome) },
            ),
    {
        let mut requests: Vec<TraceRequest> = Vec::new();
        assert(requests_of(requests@) =~= Seq::<RequestView>::empty());
        let k = match self.find_exploration(signature) {
            Some(k) => k,
            None => {
                return requests;
            },
        };
        match &self.active[k].phase {
            Phase::Transaction => {},
            Phase::Predecessors { .. } => {
                return requests;
            },
        }
        let depth = self.active[k].depth;
        let ghost before = self@;
        let ghost answer = transaction_of(outcome);
        proof {
            lemma_first_index(active_signatures(before.active), signature@);
            assert(before.active[k as int].signature == signature@);
        }
        match outcome {
            Err(error) => {
                if depth == 0 {
                    self.root_error = Some(error.clone());
                }
                self.failures.push(BranchFailure { signature: *signature, error });
                self.active.remove(k);
                assert(self@.failures =~= before.failures.push(
                    BranchFailureView { signature: signature@, error: answer->Err_0 },
                ));
                assert(self@.active =~= before.active.remove(k as int));
            },
            Ok(record) => {
                match self.graph_builder.process_transaction(&record) {
                    Err(error) => {
                        self.failures.push(BranchFailure { signature: *signature, error });
                        self.active.remove(k);
                        assert(self@.failures =~= before.failures.push(
                            BranchFailureView {
                                signature: signature@,
                                error: TraceErrorView::MalformedInstruction {
                                    signature: record@.signature,
                                    index: first_malformed(record@.instructions)->0,
                                },
                            },
                        ));
                        assert(self@.active =~= before.active.remove(k as int));
                    },
                    Ok(()) => {
                        let candidates = record.candidate_accounts();
                        let outstanding = request_lookups(
                            &self.rpc_client,
                            signature,
                            &candidates,
                            &mut requests,
                            &mut self.failures,
                        );
                        self.active.remove(k);
                        if outstanding.len() > 0 {
                            self.active.insert(
                                k,
                                Exploration {
                                    signature: *signature,
                                    depth,
                                    phase: Phase::Predecessors { outstanding },
                                },
                            );
                        }
                        assert(self@.active =~= awaiting(
                            before.active,
                            k as int,
                            accepted_accounts(texts_of(candidates@)),
                        ));
                        assert(requests_of(requests@) =~= lookups(
                            signature@,
                            accepted_accounts(texts_of(candidates@)),
                        ));
                    },
                }
            },
        }
        proof {
            assert(self@ == received_transaction(before, k as int, answer).0);
            assert(requests_of(requests@) =~= received_transaction(before, k as int, answer).1);
            lemma_received_transaction(before, k as int, answer);
        }
        self.schedule(&mut requests);
        requests
    }

    /// Reports the answer to the request for the prior signatures of
    /// `address`, made while exploring `origin`.
    ///
    /// The answer is ignored unless that exploration still waits for that
    /// address. A failed lookup is recorded. Of the signatures that came
    /// back, the first `LOOKUP_LIMIT` are decoded and queued one level
    /// deeper; where one of them is no signature, that is recorded and none
    /// is queued. Freed slots are handed on, and the requests to send next
    /// are returned.
    pub fn on_prior_signatures(
        &mut self,
        origin: &Signature,
        address: &str,
        outcome: Result<Vec<String>, TraceError>,
    ) -> (requests: Vec<TraceRequest>)
        requires
            old(self).wf(),
        ensures
            final(self).wf(),
            forall|n: nat| final(self).has_room(n) == old(self).has_room(n),
            final(self).ledger_client() == old(self).ledger_client(),
            (final(self)@, requests_of(requests@)) == step(
                old(self)@,
                EventView::PriorSignatures {
                    origin: origin@,
                    address: address@,
                    found: prior_signatures_of(outcome),
                },
            ),
    {
        let mut requests: Vec<TraceRequest> = Vec::new();
        assert(requests_of(requests@) =~= Seq::<RequestView>::empty());
        let k = match self.find_exploration(origin) {
            Some(k) => k,
            None => {
                return requests;
            },
        };
        let ghost before = self@;
        let ghost answer = prior_signatures_of(outcome);
        let j = match &self.active[k].phase {
            Phase::Transaction => {
                return requests;
            },
            Phase::Predecessors { outstanding } => {
                proof {
                    lemma_first_index(texts_of(outstanding@), address@);
                }
                match position_of(outstanding, address) {
                    Some(j) => {
                        assert(is_first_index(texts_of(outstanding@), address@, j as int));
                        j
                    },
                    None => {
                        return requests;
                    },
                }
            },
        };
        proof {
            lemma_first_index(active_signatures(before.active), origin@);
            assert(before.active[k as int].signature == origin@);
        }
        let depth = self.active[k].depth;
        let exploration = self.active.remove(k);
        let ghost waited = before.active[k as int].phase->outstanding;
        match exploration.phase {
            // Seen above to wait for prior signatures.
            Phase::Transaction => {},
            Phase::Predecessors { outstanding } => {
                let mut outstanding = outstanding;
                outstanding.remove(j);
                assert(texts_of(outstanding@) =~= waited.remove(j as int));
                if outstanding.len() > 0 {
                    self.active.insert(
                        k,
                        Exploration {
                            signature: exploration.signature,
                            depth,
                            phase: Phase::Predecessors { outstanding },
                        },
                    );
                }
            },
        }
        assert(self@.active =~= awaiting(before.active, k as int, waited.remove(j as int)));
        proof {
            lemma_explored_depth(before, k as int);
        }
        match outcome {
            Err(error) => {
                self.failures.push(BranchFailure { signature: *origin, error });
                assert(self@.failures =~= before.failures.push(
                    BranchFailureView { signature: origin@, error: answer->Err_0 },
                ));
            },
            Ok(texts) => {
                match self.rpc_client.decode_signatures(&texts, Some(LOOKUP_LIMIT)) {
                    Ok(signatures) => {
                        queue_discovered(&mut self.pending, &signatures, depth + 1);
                        assert(self@.pending =~= before.pending + discovered(
                            signatures_of(signatures@),
                            (depth + 1) as nat,
                        ));
                    },
                    Err(error) => {
                        self.failures.push(BranchFailure { signature: *origin, error });
                        assert(self@.failures =~= before.failures.push(
                            BranchFailureView {
                                signature: origin@,
                                error: TraceErrorView::InvalidInput,
                            },
                        ));
                    },
                }
            },
        }
        proof {
            assert(self@ == received_prior_signatures(before, k as int, j as int, answer));
            lemma_received_prior_signatures(before, k as int, j as int, answer);
        }
        self.schedule(&mut requests);
        requests
    }

    /// The graph as it stands, whether or not a run is under way.
    pub fn export_json(&self) -> (snapshot: GraphSnapshot)
        requires
            self.wf(),
        ensures
            snapshot@ == exported(self@.graph),
    {
        self.graph_builder.export_json()
    }

    /// The result of the run: the root's failure where the root could not be
    /// fetched, and else the graph, with whatever the branches that did not
    /// fail have contributed.
    pub fn finish(&self) -> (result: Result<GraphSnapshot, TraceError>)
        requires
            self.wf(),
        ensures
            match self@.root_error {
                Some(error) => result is Err && result->Err_0@ == error,
                None => result is Ok && result->Ok_0@ == exported(self@.graph),
            },
    {
        match &self.root_error {
            Some(error) => Err(error.clone()),
            None => Ok(self.graph_builder.export_json()),
        }
    }
}

impl SolanaTracer {
    /// Whatever has happened to an engine, its state is consistent and
    /// settled, so that all that is proved of such states holds of it.
    pub proof fn lemma_invariant(&self)
        requires
            self.wf(),
        ensures
            consistent(self@),
            settled(self@),
    {
    }

    /// No signature is explored at or beyond the depth bound: every visited
    /// signature, and every exploration that holds a slot, is at a depth
    /// below it.
    pub proof fn lemma_depth_bounded(&self)
        requires
            self.wf(),
        ensures
            forall|i: int|
                0 <= i < self@.visited.len() ==> (#[trigger] self@.visited[i]).depth
                    < self@.max_depth,
            forall|i: int|
                0 <= i < self@.active.len() ==> (#[trigger] self@.active[i]).depth
                    < self@.max_depth,
    {
        assert forall|i: int| 0 <= i < self@.active.len() implies (#[trigger] self@.active[i]).depth
            < self@.max_depth by {
            lemma_explored_depth(self@, i);
        }
    }

    /// No signature is visited twice, and no more explorations hold a slot
    /// than the fan-out bound allows.
    pub proof fn lemma_visited_once(&self)
        requires
            self.wf(),
        ensures
            visit_signatures(self@.visited).no_duplicates(),
            active_signatures(self@.active).no_duplicates(),
            self@.active.len() <= self@.max_fanout,
    {
    }
}

/// An exploration that holds a slot is at a depth below the depth bound.
proof fn lemma_explored_depth(state: TraceView, k: int)
    requires
        consistent(state),
        0 <= k < state.active.len(),
    ensures
        state.active[k].depth < state.max_depth <= MAX_DEPTH,
{
    let visit = VisitView { signature: state.active[k].signature, depth: state.active[k].depth };
    let at = choose|at: int| 0 <= at < state.visited.len() && state.visited[at] == visit;
    assert(state.visited[at].depth < state.max_depth);
}

/// Appends the given signatures to the queue, each at the given depth.
fn queue_discovered(pending: &mut Vec<Visit>, signatures: &Vec<Signature>, depth: usize)
    ensures
        visits_of(final(pending)@) == visits_of(old(pending)@) + discovered(
            signatures_of(signatures@),
            depth as nat,
        ),
{
    let ghost queue = visits_of(pending@);
    let mut i: usize = 0;
    assert(queue + discovered(signatures_of(signatures@).take(0), depth as nat) =~= queue);
    while i < signatures.len()
        invariant
            i <= signatures@.len(),
            visits_of(pending@) == queue + discovered(
                signatures_of(signatures@).take(i as int),
                depth as nat,
            ),
        decreases signatures@.len() - i,
    {
        let ghost waiting = visits_of(pending@);
        pending.push(Visit { signature: signatures[i], depth });
        assert(visits_of(pending@) =~= queue + discovered(
            signatures_of(signatures@).take(i + 1),
            depth as nat,
        )) by {
            assert(visits_of(pending@) =~= waiting.push(
                VisitView { signature: signatures@[i as int]@, depth: depth as nat },
            ));
        }
        i += 1;
    }
    assert(signatures_of(signatures@).take(i as int) =~= signatures_of(signatures@));
}

/// Asks for the prior signatures of each candidate account: a request for
/// each well-formed address, which is then outstanding, and a recorded
/// failure for each other account.
fn request_lookups(
    client: &SolanaRpcClient,
    origin: &Signature,
    candidates: &Vec<String>,
    requests: &mut Vec<TraceRequest>,
    failures: &mut Vec<BranchFailure>,
) -> (outstanding: Vec<String>)
    ensures
        texts_of(outstanding@) == accepted_accounts(texts_of(candidates@)),
        requests_of(final(requests)@) == requests_of(old(requests)@) + lookups(
            origin@,
            accepted_accounts(texts_of(candidates@)),
        ),
        failures_of(final(failures)@) == failures_of(old(failures)@) + refusals(
            origin@,
            texts_of(candidates@),
        ),
{
    let ghost accounts = texts_of(candidates@);
    let ghost sent = requests_of(requests@);
    let ghost recorded = failures_of(failures@);
    let mut outstanding: Vec<String> = Vec::new();
    let mut i: usize = 0;
    assert(accounts.take(0) =~= Seq::<Seq<char>>::empty());
    assert(sent + lookups(origin@, Seq::<Seq<char>>::empty()) =~= sent);
    assert(recorded + Seq::<BranchFailureView>::empty() =~= recorded);
    while i < candidates.len()
        invariant
            i <= candidates@.len(),
            accounts == texts_of(candidates@),
            texts_of(outstanding@) == accepted_accounts(accounts.take(i as int)),
            requests_of(requests@) == sent + lookups(origin@, accepted_accounts(accounts.take(i as int))),
            failures_of(failures@) == recorded + refusals(origin@, accounts.take(i as int)),
        decreases candidates@.len() - i,
    {
        let account = &candidates[i];
        let ghost seen = accounts.take(i as int);
        let ghost next = accounts.take(i + 1);
        assert(next.drop_last() =~= seen);
        assert(next.last() == account@);
        let ghost waiting = texts_of(outstanding@);
        let ghost asked = requests_of(requests@);
        let ghost failed = failures_of(failures@);
        match client.get_signatures_for_address(account.as_str(), Some(LOOKUP_LIMIT)) {
            Ok(request) => {
                outstanding.push(account.clone());
                requests.push(TraceRequest { origin: *origin, request });
                assert(accepted_accounts(next) == accepted_accounts(seen).push(account@));
                assert(refusals(origin@, next) == refusals(origin@, seen));
                assert(texts_of(outstanding@) =~= waiting.push(account@));
                assert(requests_of(requests@) =~= asked.push(lookup(origin@, account@)));
                assert(requests_of(requests@) =~= sent + lookups(
                    origin@,
                    accepted_accounts(next),
                ));
            },
            Err(error) => {
                failures.push(BranchFailure { signature: *origin, error });
                assert(accepted_accounts(next) == accepted_accounts(seen));
                assert(refusals(origin@, next) == refusals(origin@, seen).push(
                    BranchFailureView { signature: origin@, error: TraceErrorView::InvalidInput },
                ));
                assert(failures_of(failures@) =~= failed.push(
                    BranchFailureView { signature: origin@, error: TraceErrorView::InvalidInput },
                ));
                assert(failures_of(failures@) =~= recorded + refusals(origin@, next));
            },
        }
        i += 1;
    }
    assert(accounts.take(i as int) =~= accounts);
    outstanding
}

} // verus!
