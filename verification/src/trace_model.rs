//! The trace engine as a mathematical state machine.
//!
//! A state holds the graph, the signatures visited so far, the explorations
//! that wait for a slot and those that hold one. An event is the start of a
//! run or an answer of the ledger. `step` gives the state after an event and
//! the requests to send next. The engine's methods compute exactly `step`;
//! what holds of every run is proved here, of `step` alone.

use vstd::prelude::*;
use crate::error::{BranchFailureView, TraceErrorView};
use crate::graph_builder::{apply_instructions, first_malformed, GraphView};
use crate::record::{distinct_accounts, TransactionView};
use crate::rpc_client::{all_decodable, bounded, decoded_all, LedgerRequestView};
use crate::signature::address_accepted;

verus! {

/// The smallest and the largest depth bound of an engine.
pub const MIN_DEPTH: usize = 1;

pub const MAX_DEPTH: usize = 10;

/// The smallest and the largest fan-out bound of an engine.
pub const MIN_FANOUT: usize = 1;

pub const MAX_FANOUT: usize = 20;

/// How many prior signatures are asked for per account.
pub const LOOKUP_LIMIT: usize = 1;

/// A signature together with the depth at which it was found.
pub struct VisitView {
    pub signature: Seq<u8>,
    pub depth: nat,
}

/// What an exploration waits for: its transaction, or the prior signatures
/// of the accounts that are still outstanding.
pub enum PhaseView {
    Transaction,
    Predecessors { outstanding: Seq<Seq<char>> },
}

/// An exploration that holds a slot.
pub struct ExplorationView {
    pub signature: Seq<u8>,
    pub depth: nat,
    pub phase: PhaseView,
}

/// A request, with the signature of the exploration that makes it.
pub struct RequestView {
    pub origin: Seq<u8>,
    pub request: LedgerRequestView,
}

/// The state of an engine.
pub struct TraceView {
    pub max_depth: nat,
    pub max_fanout: nat,
    pub graph: GraphView,
    pub visited: Seq<VisitView>,
    pub pending: Seq<VisitView>,
    pub active: Seq<ExplorationView>,
    pub failures: Seq<BranchFailureView>,
    pub root_error: Option<TraceErrorView>,
}

/// What an engine reacts to.
pub enum EventView {
    /// A run starts from `root`.
    Start { root: Seq<u8> },
    /// The ledger's answer to the request for a transaction.
    Transaction { signature: Seq<u8>, outcome: Result<TransactionView, TraceErrorView> },
    /// The ledger's answer to the request for the prior signatures of
    /// `address`, made while exploring `origin`.
    PriorSignatures {
        origin: Seq<u8>,
        address: Seq<char>,
        found: Result<Seq<Seq<char>>, TraceErrorView>,
    },
}

/// The signatures of a list of visits.
pub open spec fn visit_signatures(visits: Seq<VisitView>) -> Seq<Seq<u8>> {
    Seq::new(visits.len(), |i: int| visits[i].signature)
}

/// The signatures of a list of explorations.
pub open spec fn active_signatures(active: Seq<ExplorationView>) -> Seq<Seq<u8>> {
    Seq::new(active.len(), |i: int| active[i].signature)
}

/// Whether `i` is the first position of `x` in `s`.
pub open spec fn is_first_index<A>(s: Seq<A>, x: A, i: int) -> bool {
    &&& 0 <= i < s.len()
    &&& s[i] == x
    &&& forall|j: int| 0 <= j < i ==> s[j] != x
}

/// The first position of `x` in `s`, or nothing where `s` lacks it.
pub open spec fn first_index<A>(s: Seq<A>, x: A) -> Option<int> {
    if exists|i: int| is_first_index(s, x, i) {
        Some(choose|i: int| is_first_index(s, x, i))
    } else {
        None
    }
}

/// The request for the transaction of an exploration.
pub open spec fn fetch(signature: Seq<u8>) -> RequestView {
    RequestView { origin: signature, request: LedgerRequestView::Transaction { signature } }
}

/// The request for the prior signatures of an account.
pub open spec fn lookup(origin: Seq<u8>, address: Seq<char>) -> RequestView {
    RequestView {
        origin,
        request: LedgerRequestView::PriorSignatures { address, limit: Some(LOOKUP_LIMIT as nat) },
    }
}

/// The requests for the prior signatures of a list of accounts.
pub open spec fn lookups(origin: Seq<u8>, accounts: Seq<Seq<char>>) -> Seq<RequestView> {
    Seq::new(accounts.len(), |i: int| lookup(origin, accounts[i]))
}

/// The accounts of a list that are well-formed addresses, in order.
pub open spec fn accepted_accounts(candidates: Seq<Seq<char>>) -> Seq<Seq<char>>
    decreases candidates.len(),
{
    if candidates.len() == 0 {
        Seq::empty()
    } else if address_accepted(candidates.last()) {
        accepted_accounts(candidates.drop_last()).push(candidates.last())
    } else {
        accepted_accounts(candidates.drop_last())
    }
}

/// One failure for each account of a list that is no well-formed address,
/// in order.
pub open spec fn refusals(origin: Seq<u8>, candidates: Seq<Seq<char>>) -> Seq<BranchFailureView>
    decreases candidates.len(),
{
    if candidates.len() == 0 {
        Seq::empty()
    } else if address_accepted(candidates.last()) {
        refusals(origin, candidates.drop_last())
    } else {
        refusals(origin, candidates.drop_last()).push(
            BranchFailureView { signature: origin, error: TraceErrorView::InvalidInput },
        )
    }
}

/// The signatures found behind an exploration, each at the given depth.
pub open spec fn discovered(signatures: Seq<Seq<u8>>, depth: nat) -> Seq<VisitView> {
    Seq::new(signatures.len(), |i: int| VisitView { signature: signatures[i], depth })
}

/// The first waiting exploration leaves the queue. It is dropped where its
/// depth has reached the bound or its signature was visited already. Else
/// its signature is marked visited, it takes a slot, and its transaction is
/// requested.
pub open spec fn schedule_next(state: TraceView) -> (TraceView, Seq<RequestView>)
    recommends
        state.pending.len() > 0,
{
    let next = state.pending.first();
    let rest = state.pending.drop_first();
    if next.depth >= state.max_depth || visit_signatures(state.visited).contains(next.signature) {
        (TraceView { pending: rest, ..state }, Seq::empty())
    } else {
        (
            TraceView {
                pending: rest,
                visited: state.visited.push(next),
                active: state.active.push(
                    ExplorationView {
                        signature: next.signature,
                        depth: next.depth,
                        phase: PhaseView::Transaction,
                    },
                ),
                ..state
            },
            seq![fetch(next.signature)],
        )
    }
}

/// Waiting explorations leave the queue, first come first served, for as
/// long as one waits and a slot is free.
pub open spec fn schedule(state: TraceView) -> (TraceView, Seq<RequestView>)
    decreases state.pending.len(),
{
    if state.pending.len() == 0 || state.active.len() >= state.max_fanout {
        (state, Seq::empty())
    } else {
        let (next, first) = schedule_next(state);
        let (last, more) = schedule(next);
        (last, first + more)
    }
}

/// A run starts: nothing is visited, nothing has failed, and the root waits
/// at depth zero. The graph stays as it is.
pub open spec fn after_start(state: TraceView, root: Seq<u8>) -> (TraceView, Seq<RequestView>) {
    schedule(
        TraceView {
            visited: Seq::empty(),
            pending: seq![VisitView { signature: root, depth: 0 }],
            active: Seq::empty(),
            failures: Seq::empty(),
            root_error: None,
            ..state
        },
    )
}

/// The list of explorations once the one at `k` has nothing outstanding but
/// `outstanding`: it gives up its slot where that is nothing at all.
pub open spec fn awaiting(
    active: Seq<ExplorationView>,
    k: int,
    outstanding: Seq<Seq<char>>,
) -> Seq<ExplorationView> {
    if outstanding.len() == 0 {
        active.remove(k)
    } else {
        active.update(
            k,
            ExplorationView { phase: PhaseView::Predecessors { outstanding }, ..active[k] },
        )
    }
}

/// An exploration receives the answer to the request for its transaction.
///
/// A failed fetch ends the exploration and is recorded; at depth zero it is
/// the root's failure. A fetched transaction is ingested. If one of its
/// transfers is malformed, that is recorded and the exploration ends. Else
/// the prior signatures of its accounts are requested: one request per
/// well-formed address, one recorded failure per other account.
pub open spec fn received_transaction(
    state: TraceView,
    k: int,
    outcome: Result<TransactionView, TraceErrorView>,
) -> (TraceView, Seq<RequestView>) {
    let signature = state.active[k].signature;
    match outcome {
        Err(error) => (
            TraceView {
                active: state.active.remove(k),
                failures: state.failures.push(BranchFailureView { signature, error }),
                root_error: if state.active[k].depth == 0 {
                    Some(error)
                } else {
                    state.root_error
                },
                ..state
            },
            Seq::empty(),
        ),
        Ok(transaction) => {
            let graph = apply_instructions(state.graph, transaction.instructions);
            match first_malformed(transaction.instructions) {
                Some(index) => (
                    TraceView {
                        graph,
                        active: state.active.remove(k),
                        failures: state.failures.push(
                            BranchFailureView {
                                signature,
                                error: TraceErrorView::MalformedInstruction {
                                    signature: transaction.signature,
                                    index,
                                },
                            },
                        ),
                        ..state
                    },
                    Seq::empty(),
                ),
                None => {
                    let candidates = distinct_accounts(transaction.balances);
                    let accepted = accepted_accounts(candidates);
                    (
                        TraceView {
                            graph,
                            active: awaiting(state.active, k, accepted),
                            failures: state.failures + refusals(signature, candidates),
                            ..state
                        },
                        lookups(signature, accepted),
                    )
                },
            }
        },
    }
}

/// The answer to the request for a transaction arrives. It is ignored
/// unless an exploration waits for it. Else the exploration receives it,
/// and freed slots are handed on.
pub open spec fn after_transaction(
    state: TraceView,
    signature: Seq<u8>,
    outcome: Result<TransactionView, TraceErrorView>,
) -> (TraceView, Seq<RequestView>) {
    match first_index(active_signatures(state.active), signature) {
        None => (state, Seq::empty()),
        Some(k) => if !(state.active[k].phase is Transaction) {
            (state, Seq::empty())
        } else {
            let (next, lookups) = received_transaction(state, k, outcome);
            let (last, fetches) = schedule(next);
            (last, lookups + fetches)
        },
    }
}

/// An exploration receives the answer to the request for the prior
/// signatures of its `j`-th outstanding address.
///
/// A failed lookup is recorded. Of the signatures that came back, the first
/// `LOOKUP_LIMIT` are decoded: they join the queue one level deeper, or,
/// where one of them is no signature, that is recorded and none joins. The
/// exploration ends with its last outstanding address.
pub open spec fn received_prior_signatures(
    state: TraceView,
    k: int,
    j: int,
    outcome: Result<Seq<Seq<char>>, TraceErrorView>,
) -> TraceView {
    let origin = state.active[k].signature;
    let active = awaiting(state.active, k, state.active[k].phase->outstanding.remove(j));
    match outcome {
        Err(error) => TraceView {
            active,
            failures: state.failures.push(BranchFailureView { signature: origin, error }),
            ..state
        },
        Ok(texts) => {
            let wanted = bounded(texts, Some(LOOKUP_LIMIT as nat));
            if all_decodable(wanted) {
                TraceView {
                    active,
                    pending: state.pending + discovered(
                        decoded_all(wanted),
                        state.active[k].depth + 1,
                    ),
                    ..state
                }
            } else {
                TraceView {
                    active,
                    failures: state.failures.push(
                        BranchFailureView {
                            signature: origin,
                            error: TraceErrorView::InvalidInput,
                        },
                    ),
                    ..state
                }
            }
        },
    }
}

/// The answer to a request for prior signatures arrives. It is ignored
/// unless the exploration `origin` still waits for that address. Else the
/// exploration receives it, and freed slots are handed on.
pub open spec fn after_prior_signatures(
    state: TraceView,
    origin: Seq<u8>,
    address: Seq<char>,
    outcome: Result<Seq<Seq<char>>, TraceErrorView>,
) -> (TraceView, Seq<RequestView>) {
    match first_index(active_signatures(state.active), origin) {
        None => (state, Seq::empty()),
        Some(k) => match state.active[k].phase {
            PhaseView::Transaction => (state, Seq::empty()),
            PhaseView::Predecessors { outstanding } => match first_index(outstanding, address) {
                None => (state, Seq::empty()),
                Some(j) => schedule(received_prior_signatures(state, k, j, outcome)),
            },
        },
    }
}

/// The state after an event, and the requests to send next.
pub open spec fn step(state: TraceView, event: EventView) -> (TraceView, Seq<RequestView>) {
    match event {
        EventView::Start { root } => after_start(state, root),
        EventView::Transaction { signature, outcome } => after_transaction(
            state,
            signature,
            outcome,
        ),
        EventView::PriorSignatures { origin, address, found } => after_prior_signatures(
            state,
            origin,
            address,
            found,
        ),
    }
}

/// The signatures whose transactions a list of requests asks for, in order.
pub open spec fn fetched(requests: Seq<RequestView>) -> Seq<Seq<u8>>
    decreases requests.len(),
{
    if requests.len() == 0 {
        Seq::empty()
    } else {
        match requests.last().request {
            LedgerRequestView::Transaction { signature } => fetched(requests.drop_last()).push(
                signature,
            ),
            LedgerRequestView::PriorSignatures { .. } => fetched(requests.drop_last()),
        }
    }
}

/// Whether the bounds of an engine are in range.
pub open spec fn valid_bounds(max_depth: nat, max_fanout: nat) -> bool {
    &&& MIN_DEPTH <= max_depth <= MAX_DEPTH
    &&& MIN_FANOUT <= max_fanout <= MAX_FANOUT
}

/// What holds of an engine at every moment.
///
/// The bounds are in range. Every visited signature was scheduled at a depth
/// below the depth bound, and no signature was visited twice. No more
/// explorations hold a slot than the fan-out bound allows; each of them was
/// visited at its depth, and no two of them have the same signature.
pub open spec fn consistent(state: TraceView) -> bool {
    &&& valid_bounds(state.max_depth, state.max_fanout)
    &&& forall|i: int| 0 <= i < state.visited.len() ==> (#[trigger] state.visited[i]).depth < state.max_depth
    &&& visit_signatures(state.visited).no_duplicates()
    &&& state.active.len() <= state.max_fanout
    &&& forall|i: int|
        0 <= i < state.active.len() ==> state.visited.contains(
            VisitView {
                signature: (#[trigger] state.active[i]).signature,
                depth: state.active[i].depth,
            },
        )
    &&& active_signatures(state.active).no_duplicates()
}

/// Whether no exploration waits while a slot is free.
pub open spec fn settled(state: TraceView) -> bool {
    state.pending.len() > 0 ==> state.active.len() == state.max_fanout
}

/// Whether a run is over: no exploration holds a slot and none waits.
pub open spec fn finished(state: TraceView) -> bool {
    state.active.len() == 0 && state.pending.len() == 0
}

/// The state of an engine that has not traced anything yet.
pub open spec fn initial(max_depth: nat, max_fanout: nat, graph: GraphView) -> TraceView {
    TraceView {
        max_depth,
        max_fanout,
        graph,
        visited: Seq::empty(),
        pending: Seq::empty(),
        active: Seq::empty(),
        failures: Seq::empty(),
        root_error: None,
    }
}

/// `first_index` finds the first position, and only that one.
pub proof fn lemma_first_index<A>(s: Seq<A>, x: A)
    ensures
        match first_index(s, x) {
            Some(i) => is_first_index(s, x, i),
            None => !s.contains(x),
        },
        forall|i: int| #[trigger] is_first_index(s, x, i) ==> first_index(s, x) == Some(i),
{
    assert forall|i: int| #[trigger] is_first_index(s, x, i) implies first_index(s, x) == Some(
        i,
    ) by {
        let chosen = choose|c: int| is_first_index(s, x, c);
        assert(is_first_index(s, x, chosen));
        if chosen < i {
            assert(s[chosen] != x);
        } else if i < chosen {
            assert(s[i] != x);
        }
    }
    if first_index(s, x) is None {
        lemma_no_first_index(s, x, s.len());
    }
}

/// Where no position is the first of `x`, `x` stands nowhere before `bound`.
proof fn lemma_no_first_index<A>(s: Seq<A>, x: A, bound: nat)
    requires
        bound <= s.len(),
        forall|i: int| !is_first_index(s, x, i),
    ensures
        forall|i: int| 0 <= i < bound ==> s[i] != x,
    decreases bound,
{
    if bound > 0 {
        lemma_no_first_index(s, x, (bound - 1) as nat);
        assert(!is_first_index(s, x, bound - 1));
    }
}

/// The transactions that two lists of requests ask for are those of the
/// first list, then those of the second.
pub proof fn lemma_fetched_concat(first: Seq<RequestView>, second: Seq<RequestView>)
    ensures
        fetched(first + second) == fetched(first) + fetched(second),
    decreases second.len(),
{
    if second.len() == 0 {
        assert(first + second =~= first);
        assert(fetched(first) + fetched(second) =~= fetched(first));
    } else {
        assert((first + second).drop_last() =~= first + second.drop_last());
        assert((first + second).last() == second.last());
        lemma_fetched_concat(first, second.drop_last());
        match second.last().request {
            LedgerRequestView::Transaction { signature } => {
                assert(fetched(first + second) =~= fetched(first) + fetched(second));
            },
            LedgerRequestView::PriorSignatures { .. } => {},
        }
    }
}

/// Requests for prior signatures ask for no transaction.
pub proof fn lemma_lookups_fetch_nothing(origin: Seq<u8>, accounts: Seq<Seq<char>>)
    ensures
        fetched(lookups(origin, accounts)) == Seq::<Seq<u8>>::empty(),
    decreases accounts.len(),
{
    if accounts.len() > 0 {
        assert(lookups(origin, accounts).drop_last() =~= lookups(origin, accounts.drop_last()));
        lemma_lookups_fetch_nothing(origin, accounts.drop_last());
    }
}

/// Ending the exploration at `k` keeps a state consistent, whatever becomes
/// of the graph, the queue and the recorded failures.
pub proof fn lemma_retire(state: TraceView, k: int, next: TraceView)
    requires
        consistent(state),
        0 <= k < state.active.len(),
        next.max_depth == state.max_depth,
        next.max_fanout == state.max_fanout,
        next.visited == state.visited,
        next.active == state.active.remove(k),
    ensures
        consistent(next),
{
    let active = state.active;
    let rest = active.remove(k);
    assert forall|i: int| 0 <= i < rest.len() implies next.visited.contains(
        VisitView { signature: (#[trigger] rest[i]).signature, depth: rest[i].depth },
    ) by {
        if i < k {
            assert(rest[i] == active[i]);
        } else {
            assert(rest[i] == active[i + 1]);
        }
    }
    let signatures = active_signatures(active);
    let remaining = active_signatures(rest);
    assert forall|i: int, j: int|
        0 <= i < remaining.len() && 0 <= j < remaining.len() && i != j implies remaining[i]
        != remaining[j] by {
        let a = if i < k {
            i
        } else {
            i + 1
        };
        let b = if j < k {
            j
        } else {
            j + 1
        };
        assert(remaining[i] == signatures[a]);
        assert(remaining[j] == signatures[b]);
    }
}

/// Changing what the exploration at `k` waits for keeps a state consistent,
/// whatever becomes of the graph, the queue and the recorded failures.
pub proof fn lemma_awaiting(
    state: TraceView,
    k: int,
    outstanding: Seq<Seq<char>>,
    next: TraceView,
)
    requires
        consistent(state),
        0 <= k < state.active.len(),
        next.max_depth == state.max_depth,
        next.max_fanout == state.max_fanout,
        next.visited == state.visited,
        next.active == awaiting(state.active, k, outstanding),
    ensures
        consistent(next),
{
    if outstanding.len() == 0 {
        lemma_retire(state, k, next);
    } else {
        let active = state.active;
        let changed = next.active;
        assert forall|i: int| 0 <= i < changed.len() implies next.visited.contains(
            VisitView { signature: (#[trigger] changed[i]).signature, depth: changed[i].depth },
        ) by {
            assert(changed[i].signature == active[i].signature);
            assert(changed[i].depth == active[i].depth);
        }
        assert(active_signatures(changed) =~= active_signatures(active));
    }
}

/// Handing out free slots keeps a state consistent and leaves it settled.
/// It touches neither the graph nor the recorded failures. The signatures
/// visited before stay where they are; those visited now are exactly the
/// ones whose transactions are requested, in that order, and nothing else
/// is requested.
pub proof fn lemma_schedule(state: TraceView)
    requires
        consistent(state),
    ensures
        consistent(schedule(state).0),
        settled(schedule(state).0),
        schedule(state).0.max_depth == state.max_depth,
        schedule(state).0.max_fanout == state.max_fanout,
        schedule(state).0.graph == state.graph,
        schedule(state).0.failures == state.failures,
        schedule(state).0.root_error == state.root_error,
        visit_signatures(schedule(state).0.visited) == visit_signatures(state.visited) + fetched(
            schedule(state).1,
        ),
        fetched(schedule(state).1).len() == schedule(state).1.len(),
    decreases state.pending.len(),
{
    if state.pending.len() == 0 || state.active.len() >= state.max_fanout {
        assert(visit_signatures(state.visited) + fetched(Seq::<RequestView>::empty())
            =~= visit_signatures(state.visited));
    } else {
        let (next, first) = schedule_next(state);
        let (last, more) = schedule(next);
        lemma_schedule_next(state);
        lemma_schedule(next);
        lemma_fetched_concat(first, more);
        assert(visit_signatures(last.visited) =~= visit_signatures(state.visited) + fetched(
            first + more,
        ));
    }
}

/// One exploration leaving the queue keeps a state consistent.
pub proof fn lemma_schedule_next(state: TraceView)
    requires
        consistent(state),
        state.pending.len() > 0,
        state.active.len() < state.max_fanout,
    ensures
        consistent(schedule_next(state).0),
        visit_signatures(schedule_next(state).0.visited) == visit_signatures(state.visited)
            + fetched(schedule_next(state).1),
        fetched(schedule_next(state).1).len() == schedule_next(state).1.len(),
{
    let candidate = state.pending.first();
    let (next, requests) = schedule_next(state);
    let seen = visit_signatures(state.visited);
    if candidate.depth >= state.max_depth || seen.contains(candidate.signature) {
        assert(seen + fetched(requests) =~= seen);
    } else {
        assert(requests.len() == 1 && requests[0] == fetch(candidate.signature));
        assert(requests.drop_last() =~= Seq::<RequestView>::empty());
        assert(fetched(requests.drop_last()) =~= Seq::<Seq<u8>>::empty());
        assert(fetched(requests) =~= seq![candidate.signature]);
        assert(visit_signatures(next.visited) =~= seen + fetched(requests));
        let grown = visit_signatures(next.visited);
        assert forall|i: int, j: int|
            0 <= i < grown.len() && 0 <= j < grown.len() && i != j implies grown[i]
            != grown[j] by {
            if i < seen.len() {
                assert(grown[i] == seen[i]);
            }
            if j < seen.len() {
                assert(grown[j] == seen[j]);
            }
        }
        assert forall|i: int| 0 <= i < next.visited.len() implies (#[trigger] next.visited[i]).depth
            < next.max_depth by {
            if i < state.visited.len() {
                assert(next.visited[i] == state.visited[i]);
            }
        }
        assert forall|i: int| 0 <= i < next.active.len() implies next.visited.contains(
            VisitView {
                signature: (#[trigger] next.active[i]).signature,
                depth: next.active[i].depth,
            },
        ) by {
            if i < state.active.len() {
                assert(next.active[i] == state.active[i]);
                let visit = VisitView {
                    signature: state.active[i].signature,
                    depth: state.active[i].depth,
                };
                let at = choose|at: int| 0 <= at < state.visited.len() && state.visited[at] == visit;
                assert(next.visited[at] == visit);
            } else {
                assert(next.visited[state.visited.len() as int] == candidate);
            }
        }
        let holders = active_signatures(next.active);
        assert forall|i: int, j: int|
            0 <= i < holders.len() && 0 <= j < holders.len() && i != j implies holders[i]
            != holders[j] by {
            lemma_active_is_visited(state, i);
            lemma_active_is_visited(state, j);
            if i < state.active.len() {
                assert(holders[i] == active_signatures(state.active)[i]);
            }
            if j < state.active.len() {
                assert(holders[j] == active_signatures(state.active)[j]);
            }
        }
    }
}

/// The signature of an exploration that holds a slot is among the visited.
pub proof fn lemma_active_is_visited(state: TraceView, i: int)
    requires
        consistent(state),
    ensures
        0 <= i < state.active.len() ==> visit_signatures(state.visited).contains(
            state.active[i].signature,
        ),
{
    if 0 <= i < state.active.len() {
        let visit = VisitView {
            signature: state.active[i].signature,
            depth: state.active[i].depth,
        };
        let at = choose|at: int| 0 <= at < state.visited.len() && state.visited[at] == visit;
        assert(visit_signatures(state.visited)[at] == state.active[i].signature);
    }
}

/// A run starts with the root alone: the root is visited at depth zero and
/// holds the only slot in use, nothing waits, and the one request is the
/// one for the root's transaction.
pub proof fn lemma_start(state: TraceView, root: Seq<u8>)
    requires
        valid_bounds(state.max_depth, state.max_fanout),
    ensures
        step(state, EventView::Start { root }).1 == seq![fetch(root)],
        step(state, EventView::Start { root }).0 == (TraceView {
            visited: seq![VisitView { signature: root, depth: 0 }],
            pending: Seq::empty(),
            active: seq![
                ExplorationView { signature: root, depth: 0, phase: PhaseView::Transaction },
            ],
            failures: Seq::empty(),
            root_error: None,
            ..state
        }),
{
    let fresh = TraceView {
        visited: Seq::empty(),
        pending: seq![VisitView { signature: root, depth: 0 }],
        active: Seq::empty(),
        failures: Seq::empty(),
        root_error: None,
        ..state
    };
    let (next, first) = schedule_next(fresh);
    assert(!visit_signatures(fresh.visited).contains(root));
    assert(next.pending =~= Seq::empty());
    assert(next.visited =~= seq![VisitView { signature: root, depth: 0 }]);
    assert(next.active =~= seq![
        ExplorationView { signature: root, depth: 0, phase: PhaseView::Transaction },
    ]);
    assert(schedule(next) == (next, Seq::<RequestView>::empty()));
    assert(first + Seq::<RequestView>::empty() =~= first);
    assert(schedule(fresh) == (next, first));
}

/// An exploration that receives its transaction leaves the state
/// consistent, visits nothing, and requests no transaction.
pub proof fn lemma_received_transaction(
    state: TraceView,
    k: int,
    outcome: Result<TransactionView, TraceErrorView>,
)
    requires
        consistent(state),
        0 <= k < state.active.len(),
    ensures
        consistent(received_transaction(state, k, outcome).0),
        received_transaction(state, k, outcome).0.visited == state.visited,
        received_transaction(state, k, outcome).0.max_depth == state.max_depth,
        received_transaction(state, k, outcome).0.max_fanout == state.max_fanout,
        fetched(received_transaction(state, k, outcome).1) == Seq::<Seq<u8>>::empty(),
{
    let (next, requests) = received_transaction(state, k, outcome);
    match outcome {
        Err(error) => {
            lemma_retire(state, k, next);
        },
        Ok(transaction) => {
            match first_malformed(transaction.instructions) {
                Some(index) => {
                    lemma_retire(state, k, next);
                },
                None => {
                    let accepted = accepted_accounts(distinct_accounts(transaction.balances));
                    lemma_awaiting(state, k, accepted, next);
                    lemma_lookups_fetch_nothing(state.active[k].signature, accepted);
                },
            }
        },
    }
}

/// An exploration that receives prior signatures leaves the state
/// consistent and visits nothing.
pub proof fn lemma_received_prior_signatures(
    state: TraceView,
    k: int,
    j: int,
    outcome: Result<Seq<Seq<char>>, TraceErrorView>,
)
    requires
        consistent(state),
        0 <= k < state.active.len(),
    ensures
        consistent(received_prior_signatures(state, k, j, outcome)),
        received_prior_signatures(state, k, j, outcome).visited == state.visited,
        received_prior_signatures(state, k, j, outcome).max_depth == state.max_depth,
        received_prior_signatures(state, k, j, outcome).max_fanout == state.max_fanout,
{
    let next = received_prior_signatures(state, k, j, outcome);
    lemma_awaiting(state, k, state.active[k].phase->outstanding.remove(j), next);
}

/// Every event leaves a consistent state consistent, with the bounds it
/// had. An event that starts a run leaves the state settled, and every
/// other event keeps it so.
pub proof fn lemma_step_consistent(state: TraceView, event: EventView)
    requires
        consistent(state),
    ensures
        consistent(step(state, event).0),
        event is Start || settled(state) ==> settled(step(state, event).0),
        step(state, event).0.max_depth == state.max_depth,
        step(state, event).0.max_fanout == state.max_fanout,
{
    lemma_step(state, event);
}

/// No signature is fetched twice. The signatures visited after an event are
/// those visited before it, or none where the event starts a run, followed
/// by the signatures whose transactions the event makes the engine request;
/// and no signature stands twice in that list. So a transaction is
/// requested only for a signature that was not visited before, and at most
/// once in all the requests of a run.
pub proof fn lemma_no_signature_fetched_twice(state: TraceView, event: EventView)
    requires
        consistent(state),
    ensures
        visit_signatures(step(state, event).0.visited) == (if event is Start {
            Seq::<Seq<u8>>::empty()
        } else {
            visit_signatures(state.visited)
        }) + fetched(step(state, event).1),
        visit_signatures(step(state, event).0.visited).no_duplicates(),
{
    lemma_step(state, event);
}

/// No signature is explored at or beyond the depth bound: after every
/// event, each visited signature was scheduled at a depth below the bound,
/// and so was each exploration that holds a slot.
pub proof fn lemma_explored_below_depth_bound(state: TraceView, event: EventView)
    requires
        consistent(state),
    ensures
        forall|i: int|
            0 <= i < step(state, event).0.visited.len() ==> (#[trigger] step(
                state,
                event,
            ).0.visited[i]).depth < state.max_depth,
        forall|i: int|
            0 <= i < step(state, event).0.active.len() ==> (#[trigger] step(
                state,
                event,
            ).0.active[i]).depth < state.max_depth,
{
    lemma_step(state, event);
    let next = step(state, event).0;
    assert forall|i: int| 0 <= i < next.active.len() implies (#[trigger] next.active[i]).depth
        < state.max_depth by {
        let visit = VisitView { signature: next.active[i].signature, depth: next.active[i].depth };
        let at = choose|at: int| 0 <= at < next.visited.len() && next.visited[at] == visit;
        assert(next.visited[at].depth < next.max_depth);
    }
}

/// What the laws above rest on, proved event by event.
proof fn lemma_step(state: TraceView, event: EventView)
    requires
        consistent(state),
    ensures
        consistent(step(state, event).0),
        event is Start || settled(state) ==> settled(step(state, event).0),
        step(state, event).0.max_depth == state.max_depth,
        step(state, event).0.max_fanout == state.max_fanout,
        visit_signatures(step(state, event).0.visited) == (if event is Start {
            Seq::<Seq<u8>>::empty()
        } else {
            visit_signatures(state.visited)
        }) + fetched(step(state, event).1),
{
    let seen = visit_signatures(state.visited);
    assert(seen + fetched(Seq::<RequestView>::empty()) =~= seen);
    match event {
        EventView::Start { root } => {
            let fresh = TraceView {
                visited: Seq::empty(),
                pending: seq![VisitView { signature: root, depth: 0 }],
                active: Seq::empty(),
                failures: Seq::empty(),
                root_error: None,
                ..state
            };
            assert(visit_signatures(fresh.visited) =~= Seq::<Seq<u8>>::empty());
            lemma_schedule(fresh);
        },
        EventView::Transaction { signature, outcome } => {
            lemma_first_index(active_signatures(state.active), signature);
            match first_index(active_signatures(state.active), signature) {
                None => {},
                Some(k) => if state.active[k].phase is Transaction {
                    let (next, lookups) = received_transaction(state, k, outcome);
                    lemma_received_transaction(state, k, outcome);
                    lemma_schedule(next);
                    lemma_fetched_concat(lookups, schedule(next).1);
                },
            }
        },
        EventView::PriorSignatures { origin, address, found } => {
            lemma_first_index(active_signatures(state.active), origin);
            match first_index(active_signatures(state.active), origin) {
                None => {},
                Some(k) => match state.active[k].phase {
                    PhaseView::Transaction => {},
                    PhaseView::Predecessors { outstanding } => {
                        lemma_first_index(outstanding, address);
                        match first_index(outstanding, address) {
                            None => {},
                            Some(j) => {
                                lemma_received_prior_signatures(state, k, j, found);
                                lemma_schedule(received_prior_signatures(state, k, j, found));
                            },
                        }
                    },
                },
            }
        },
    }
}

} // verus!
