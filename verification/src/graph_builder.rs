//! The graph accumulator: accounts as nodes, transfers as edges.
//!
//! An account becomes a node the first time it is seen and keeps that node
//! from then on. Every transfer becomes an edge of its own, so two accounts
//! may be joined by any number of edges.

use vstd::prelude::*;
use vstd::hash_map::StringHashMap;
use crate::digraph::{
    graph_add_edge, graph_add_node, graph_edge_count, graph_edge_endpoints, graph_edge_indices,
    graph_edge_weight, graph_edges, graph_new, graph_node_count, graph_node_indices,
    graph_node_weight, graph_nodes, TransferGraph,
};
use crate::error::{MalformedTransfer, TraceError, TraceErrorView};
use crate::record::{same_text, with_account, Instruction, InstructionView, TransactionRecord};

verus! {

/// What is transferred: the ledger's native currency, or a token.
#[derive(Clone, Copy, Debug, PartialEq, Eq, Structural)]
pub enum TransferKind {
    Native,
    Token,
}

/// One transfer: from `source` to `target`, of `amount`.
pub struct EdgeView {
    pub source: Seq<char>,
    pub target: Seq<char>,
    pub amount: u64,
    pub kind: TransferKind,
}

/// The accumulated graph: the accounts in the order in which they were first
/// seen, and the transfers in the order in which they were ingested.
pub struct GraphView {
    pub nodes: Seq<Seq<char>>,
    pub edges: Seq<EdgeView>,
}

/// The graph without accounts or transfers.
pub open spec fn empty_graph() -> GraphView {
    GraphView { nodes: Seq::empty(), edges: Seq::empty() }
}

/// A graph with one more transfer: its two accounts are added where they are
/// new, the source first, and the transfer is appended to the edges.
pub open spec fn with_transfer(
    graph: GraphView,
    source: Seq<char>,
    target: Seq<char>,
    amount: u64,
    kind: TransferKind,
) -> GraphView {
    GraphView {
        nodes: with_account(with_account(graph.nodes, source), target),
        edges: graph.edges.push(EdgeView { source, target, amount, kind }),
    }
}

/// Whether an instruction kind denotes a transfer, native or token.
pub open spec fn is_transfer_kind(kind: Seq<char>) -> bool {
    kind == "transfer"@ || kind == "transferChecked"@
}

/// What an instruction of a transfer kind transfers: `transfer` is taken as
/// native, `transferChecked` as a token transfer.
pub open spec fn transfer_kind(kind: Seq<char>) -> TransferKind {
    if kind == "transfer"@ {
        TransferKind::Native
    } else {
        TransferKind::Token
    }
}

/// The first field of an instruction that keeps it from being a transfer:
/// the source, then the destination, then the amount.
pub open spec fn malformation(instruction: InstructionView) -> Option<MalformedTransfer> {
    if instruction.source is None {
        Some(MalformedTransfer::Source)
    } else if instruction.destination is None {
        Some(MalformedTransfer::Destination)
    } else if instruction.amount is None {
        Some(MalformedTransfer::Amount)
    } else {
        None
    }
}

/// Whether an instruction is a transfer that cannot be decoded.
pub open spec fn is_malformed(instruction: InstructionView) -> bool {
    is_transfer_kind(instruction.kind) && malformation(instruction) is Some
}

/// A graph after one instruction: a well-formed transfer adds its edge,
/// anything else leaves the graph as it was.
pub open spec fn apply_instruction(graph: GraphView, instruction: InstructionView) -> GraphView {
    if is_transfer_kind(instruction.kind) && malformation(instruction) is None {
        with_transfer(
            graph,
            instruction.source->0,
            instruction.destination->0,
            instruction.amount->0,
            transfer_kind(instruction.kind),
        )
    } else {
        graph
    }
}

/// A graph after a sequence of instructions, applied in order.
pub open spec fn apply_instructions(
    graph: GraphView,
    instructions: Seq<InstructionView>,
) -> GraphView
    decreases instructions.len(),
{
    if instructions.len() == 0 {
        graph
    } else {
        apply_instruction(
            apply_instructions(graph, instructions.drop_last()),
            instructions.last(),
        )
    }
}

/// Whether `index` is the position of the first malformed transfer among the
/// instructions.
pub open spec fn is_first_malformed(instructions: Seq<InstructionView>, index: nat) -> bool {
    &&& index < instructions.len()
    &&& is_malformed(instructions[index as int])
    &&& forall|j: int| 0 <= j < index ==> !is_malformed(instructions[j])
}

/// The position of the first malformed transfer among the instructions, or
/// nothing where every transfer is well formed.
pub open spec fn first_malformed(instructions: Seq<InstructionView>) -> Option<nat> {
    if exists|k: nat| is_first_malformed(instructions, k) {
        Some(choose|k: nat| is_first_malformed(instructions, k))
    } else {
        None
    }
}

/// The first malformed transfer is where `first_malformed` says, and
/// nowhere else.
pub proof fn lemma_first_malformed(instructions: Seq<InstructionView>)
    ensures
        match first_malformed(instructions) {
            Some(index) => is_first_malformed(instructions, index),
            None => forall|k: int|
                0 <= k < instructions.len() ==> !is_malformed(#[trigger] instructions[k]),
        },
        forall|k: nat| #[trigger]
            is_first_malformed(instructions, k) ==> first_malformed(instructions) == Some(k),
{
    assert forall|k: nat| #[trigger] is_first_malformed(instructions, k) implies first_malformed(
        instructions,
    ) == Some(k) by {
        let chosen = choose|c: nat| is_first_malformed(instructions, c);
        assert(is_first_malformed(instructions, chosen));
        if chosen < k {
            assert(!is_malformed(instructions[chosen as int]));
        } else if k < chosen {
            assert(!is_malformed(instructions[k as int]));
        }
    }
    if first_malformed(instructions) is None {
        lemma_no_first_malformed(instructions, instructions.len());
    }
}

/// Where no position is the first malformed transfer, no transfer before
/// `bound` is malformed.
proof fn lemma_no_first_malformed(instructions: Seq<InstructionView>, bound: nat)
    requires
        bound <= instructions.len(),
        forall|k: nat| !is_first_malformed(instructions, k),
    ensures
        forall|k: int| 0 <= k < bound ==> !is_malformed(#[trigger] instructions[k]),
    decreases bound,
{
    if bound > 0 {
        lemma_no_first_malformed(instructions, (bound - 1) as nat);
        assert(!is_first_malformed(instructions, (bound - 1) as nat));
    }
}

/// Whether an account stands at exactly one position of a list.
pub open spec fn occurs_once(accounts: Seq<Seq<char>>, account: Seq<char>) -> bool {
    exists|i: int|
        {
            &&& 0 <= i < accounts.len()
            &&& #[trigger] accounts[i] == account
            &&& forall|j: int| 0 <= j < accounts.len() && accounts[j] == account ==> j == i
        }
}

/// A node of an exported graph.
#[derive(Debug, PartialEq, Eq)]
pub struct NodeRecord {
    pub id: String,
    pub label: String,
}

/// An edge of an exported graph. `amount` is the bit pattern of the 64-bit
/// floating-point amount.
#[derive(Debug, PartialEq, Eq)]
pub struct EdgeRecord {
    pub source: String,
    pub target: String,
    pub amount: u64,
    pub kind: TransferKind,
}

/// An exported graph: every node and every edge, in index order.
#[derive(Debug, PartialEq, Eq)]
pub struct GraphSnapshot {
    pub nodes: Vec<NodeRecord>,
    pub edges: Vec<EdgeRecord>,
}

/// A `NodeRecord` as a mathematical value.
pub struct NodeRecordView {
    pub id: Seq<char>,
    pub label: Seq<char>,
}

/// A `GraphSnapshot` as a mathematical value.
pub struct SnapshotView {
    pub nodes: Seq<NodeRecordView>,
    pub edges: Seq<EdgeView>,
}

impl View for NodeRecord {
    type V = NodeRecordView;

    open spec fn view(&self) -> NodeRecordView {
        NodeRecordView { id: self.id@, label: self.label@ }
    }
}

impl View for EdgeRecord {
    type V = EdgeView;

    open spec fn view(&self) -> EdgeView {
        EdgeView {
            source: self.source@,
            target: self.target@,
            amount: self.amount,
            kind: self.kind,
        }
    }
}

impl View for GraphSnapshot {
    type V = SnapshotView;

    open spec fn view(&self) -> SnapshotView {
        SnapshotView {
            nodes: Seq::new(self.nodes@.len(), |i: int| self.nodes@[i]@),
            edges: Seq::new(self.edges@.len(), |i: int| self.edges@[i]@),
        }
    }
}

/// What exporting a graph gives: one node per account, with the account as
/// both id and label, and the edges as they are.
pub open spec fn exported(graph: GraphView) -> SnapshotView {
    SnapshotView {
        nodes: Seq::new(
            graph.nodes.len(),
            |i: int| NodeRecordView { id: graph.nodes[i], label: graph.nodes[i] },
        ),
        edges: graph.edges,
    }
}

/// The ids of the nodes of a snapshot.
pub open spec fn node_ids(snapshot: SnapshotView) -> Seq<Seq<char>> {
    Seq::new(snapshot.nodes.len(), |i: int| snapshot.nodes[i].id)
}

/// The graph accumulator.
pub struct GraphBuilder {
    graph: TransferGraph,
    node_map: StringHashMap<usize>,
    kinds: Vec<TransferKind>,
}

impl View for GraphBuilder {
    type V = GraphView;

    closed spec fn view(&self) -> GraphView {
        let nodes = graph_nodes(self.graph);
        let edges = graph_edges(self.graph);
        GraphView {
            nodes,
            edges: Seq::new(
                edges.len(),
                |i: int|
                    EdgeView {
                        source: nodes[edges[i].0 as int],
                        target: nodes[edges[i].1 as int],
                        amount: edges[i].2,
                        kind: self.kinds@[i],
                    },
            ),
        }
    }
}

impl GraphBuilder {
    /// The invariant of the accumulator: every edge joins two nodes of the
    /// graph and has its kind on record, and the name index holds each
    /// account with the node that carries it, so that no account has two
    /// nodes.
    pub closed spec fn wf(&self) -> bool {
        let nodes = graph_nodes(self.graph);
        let edges = graph_edges(self.graph);
        &&& nodes.len() <= u32::MAX
        &&& edges.len() <= u32::MAX
        &&& self.kinds@.len() == edges.len()
        &&& forall|i: int|
            0 <= i < edges.len() ==> (#[trigger] edges[i]).0 < nodes.len() && edges[i].1
                < nodes.len()
        &&& forall|a: Seq<char>| #[trigger] self.node_map@.contains_key(a) <==> nodes.contains(a)
        &&& forall|i: int| 0 <= i < nodes.len() ==> self.node_map@[#[trigger] nodes[i]] == i
    }

    /// Whether the graph can take `transfers` more transfers: node and edge
    /// indices are 32 bits wide.
    pub open spec fn has_room(&self, transfers: nat) -> bool {
        &&& self@.nodes.len() + 2 * transfers <= u32::MAX
        &&& self@.edges.len() + transfers <= u32::MAX
    }

    /// An accumulator without accounts or transfers.
    pub fn new() -> (builder: GraphBuilder)
        ensures
            builder.wf(),
            builder@ == empty_graph(),
    {
        let builder = GraphBuilder {
            graph: graph_new(),
            node_map: StringHashMap::new(),
            kinds: Vec::new(),
        };
        assert(builder@.edges =~= Seq::empty());
        builder
    }

    /// Tells whether the graph can take `transfers` more transfers.
    pub fn has_room_for(&self, transfers: usize) -> (room: bool)
        requires
            self.wf(),
        ensures
            room == self.has_room(transfers as nat),
    {
        let nodes = graph_node_count(&self.graph);
        let edges = graph_edge_count(&self.graph);
        let limit: usize = 0xffff_ffff;
        transfers <= (limit - nodes) / 2 && transfers <= limit - edges
    }

    /// The number of accounts seen so far.
    pub fn node_count(&self) -> (count: usize)
        ensures
            count == self@.nodes.len(),
    {
        graph_node_count(&self.graph)
    }

    /// The number of transfers ingested so far.
    pub fn edge_count(&self) -> (count: usize)
        ensures
            count == self@.edges.len(),
    {
        graph_edge_count(&self.graph)
    }

    /// The node of an account, made on first sight and found again after.
    pub fn add_node(&mut self, account: &str) -> (index: usize)
        requires
            old(self).wf(),
            old(self)@.nodes.contains(account@) || old(self)@.nodes.len() < u32::MAX,
        ensures
            final(self).wf(),
            final(self)@.nodes == with_account(old(self)@.nodes, account@),
            final(self)@.edges == old(self)@.edges,
            index < final(self)@.nodes.len(),
            final(self)@.nodes[index as int] == account@,
    {
        let found = match self.node_map.get(account) {
            Some(index) => Some(*index),
            None => None,
        };
        match found {
            Some(index) => {
                proof {
                    let nodes = graph_nodes(self.graph);
                    let at = choose|i: int| 0 <= i < nodes.len() && nodes[i] == account@;
                    assert(self.node_map@[nodes[at]] == at);
                }
                index
            },
            None => {
                let ghost nodes = graph_nodes(self.graph);
                let ghost before = self@;
                let index = graph_add_node(&mut self.graph, account.to_owned());
                self.node_map.insert(account.to_owned(), index);
                proof {
                    let extended = graph_nodes(self.graph);
                    assert(extended == nodes.push(account@));
                    assert forall|a: Seq<char>| #[trigger]
                        self.node_map@.contains_key(a) <==> extended.contains(a) by {
                        if nodes.contains(a) {
                            let i = choose|i: int| 0 <= i < nodes.len() && nodes[i] == a;
                            assert(extended[i] == a);
                        }
                        if a == account@ {
                            assert(extended[nodes.len() as int] == a);
                        }
                    }
                    assert forall|i: int| 0 <= i < extended.len() implies self.node_map@[#[trigger] extended[i]]
                        == i by {
                        if i < nodes.len() {
                            assert(nodes[i] == extended[i]);
                            assert(nodes.contains(nodes[i]));
                        }
                    }
                    assert(self@.edges =~= before.edges);
                }
                index
            },
        }
    }

    /// Adds the edge of one transfer, with the nodes of its two accounts.
    fn add_transfer(&mut self, source: &str, target: &str, amount: u64, kind: TransferKind)
        requires
            old(self).wf(),
            old(self).has_room(1),
        ensures
            final(self).wf(),
            final(self)@ == with_transfer(old(self)@, source@, target@, amount, kind),
    {
        let ghost before = self@;
        let source_node = self.add_node(source);
        let ghost between = self@;
        let target_node = self.add_node(target);
        let ghost nodes = graph_nodes(self.graph);
        let ghost edges = graph_edges(self.graph);
        proof {
            assert(between.nodes[source_node as int] == source@);
            if !between.nodes.contains(target@) {
                assert(nodes[source_node as int] == between.nodes[source_node as int]);
            }
        }
        graph_add_edge(&mut self.graph, source_node, target_node, amount);
        self.kinds.push(kind);
        proof {
            let grown = graph_edges(self.graph);
            assert(grown == edges.push((source_node as nat, target_node as nat, amount)));
            assert forall|i: int| 0 <= i < grown.len() implies (#[trigger] grown[i]).0 < nodes.len()
                && grown[i].1 < nodes.len() by {
                if i < edges.len() {
                    assert(grown[i] == edges[i]);
                }
            }
            assert(self@.edges =~= before.edges.push(
                EdgeView { source: source@, target: target@, amount, kind },
            )) by {
                assert forall|i: int| 0 <= i < grown.len() implies self@.edges[i] == before.edges.push(
                    EdgeView { source: source@, target: target@, amount, kind },
                )[i] by {
                    if i < edges.len() {
                        assert(grown[i] == edges[i]);
                    }
                }
            }
        }
    }

    /// Ingests one instruction that is known to be a transfer, native or
    /// token: a well-formed one adds its edge, a malformed one changes
    /// nothing and is reported by its first unusable field.
    fn ingest_transfer(&mut self, instruction: &Instruction, kind: TransferKind) -> (result:
        Result<(), MalformedTransfer>)
        requires
            old(self).wf(),
            old(self).has_room(1),
        ensures
            final(self).wf(),
            match result {
                Ok(()) => {
                    &&& malformation(instruction@) is None
                    &&& final(self)@ == with_transfer(
                        old(self)@,
                        instruction@.source->0,
                        instruction@.destination->0,
                        instruction@.amount->0,
                        kind,
                    )
                },
                Err(field) => {
                    &&& malformation(instruction@) == Some(field)
                    &&& final(self)@ == old(self)@
                },
            },
    {
        let source = match &instruction.source {
            Some(source) => source,
            None => {
                return Err(MalformedTransfer::Source);
            },
        };
        let destination = match &instruction.destination {
            Some(destination) => destination,
            None => {
                return Err(MalformedTransfer::Destination);
            },
        };
        let amount = match instruction.amount {
            Some(amount) => amount,
            None => {
                return Err(MalformedTransfer::Amount);
            },
        };
        self.add_transfer(source.as_str(), destination.as_str(), amount, kind);
        Ok(())
    }

    /// Ingests a native transfer. The two balances are those of the paying
    /// account before and after the transaction; the edge does not depend on
    /// them.
    pub fn process_transfer(
        &mut self,
        instruction: &Instruction,
        pre_balance: &u64,
        post_balance: &u64,
    ) -> (result: Result<(), MalformedTransfer>)
        requires
            old(self).wf(),
            old(self).has_room(1),
        ensures
            final(self).wf(),
            match result {
                Ok(()) => {
                    &&& malformation(instruction@) is None
                    &&& final(self)@ == with_transfer(
                        old(self)@,
                        instruction@.source->0,
                        instruction@.destination->0,
                        instruction@.amount->0,
                        TransferKind::Native,
                    )
                },
                Err(field) => {
                    &&& malformation(instruction@) == Some(field)
                    &&& final(self)@ == old(self)@
                },
            },
    {
        self.ingest_transfer(instruction, TransferKind::Native)
    }

    /// Ingests a token transfer.
    pub fn process_spl_transfer(&mut self, instruction: &Instruction) -> (result: Result<
        (),
        MalformedTransfer,
    >)
        requires
            old(self).wf(),
            old(self).has_room(1),
        ensures
            final(self).wf(),
            match result {
                Ok(()) => {
                    &&& malformation(instruction@) is None
                    &&& final(self)@ == with_transfer(
                        old(self)@,
                        instruction@.source->0,
                        instruction@.destination->0,
                        instruction@.amount->0,
                        TransferKind::Token,
                    )
                },
                Err(field) => {
                    &&& malformation(instruction@) == Some(field)
                    &&& final(self)@ == old(self)@
                },
            },
    {
        self.ingest_transfer(instruction, TransferKind::Token)
    }

    /// Ingests one instruction of any kind. Transfers are ingested; every
    /// other kind is passed over without error.
    pub fn process_parsed_instruction(
        &mut self,
        instruction: &Instruction,
        pre_balance: &u64,
        post_balance: &u64,
    ) -> (result: Result<(), MalformedTransfer>)
        requires
            old(self).wf(),
            old(self).has_room(1),
        ensures
            final(self).wf(),
            final(self)@ == apply_instruction(old(self)@, instruction@),
            match result {
                Ok(()) => !is_malformed(instruction@),
                Err(field) => is_transfer_kind(instruction@.kind) && malformation(instruction@)
                    == Some(field),
            },
    {
        if same_text(instruction.kind.as_str(), "transfer") {
            self.process_transfer(instruction, pre_balance, post_balance)
        } else if same_text(instruction.kind.as_str(), "transferChecked") {
            self.process_spl_transfer(instruction)
        } else {
            Ok(())
        }
    }

    /// Ingests a transaction, instruction by instruction. A malformed
    /// transfer is skipped and the rest of the transaction is still ingested;
    /// the result then names the first malformed transfer.
    pub fn process_transaction(&mut self, transaction: &TransactionRecord) -> (result: Result<
        (),
        TraceError,
    >)
        requires
            old(self).wf(),
            old(self).has_room(transaction@.instructions.len()),
        ensures
            final(self).wf(),
            final(self)@ == apply_instructions(old(self)@, transaction@.instructions),
            match first_malformed(transaction@.instructions) {
                None => result is Ok,
                Some(index) => result is Err && result->Err_0@ == (
                TraceErrorView::MalformedInstruction {
                    signature: transaction@.signature,
                    index,
                }),
            },
    {
        let (pre_balance, post_balance) = if transaction.balances.len() > 0 {
            (transaction.balances[0].pre_balance, transaction.balances[0].post_balance)
        } else {
            (0, 0)
        };
        let ghost instructions = transaction@.instructions;
        let ghost start = self@;
        let count = transaction.instructions.len();
        let mut first_bad: Option<usize> = None;
        let mut i: usize = 0;
        assert(instructions.take(0) =~= Seq::empty());
        while i < count
            invariant
                i <= count,
                count == transaction.instructions@.len(),
                instructions == transaction@.instructions,
                self.wf(),
                self.has_room((count - i) as nat),
                self@ == apply_instructions(start, instructions.take(i as int)),
                match first_bad {
                    Some(k) => k < i && is_first_malformed(instructions, k as nat),
                    None => forall|j: int| 0 <= j < i ==> !is_malformed(#[trigger] instructions[j]),
                },
            decreases count - i,
        {
            let instruction = &transaction.instructions[i];
            proof {
                let next = instructions.take(i + 1);
                assert(next.drop_last() =~= instructions.take(i as int));
                assert(next.last() == instruction@);
            }
            let ghost before = self@;
            let outcome = self.process_parsed_instruction(instruction, &pre_balance, &post_balance);
            proof {
                lemma_apply_instruction_grows(before, instruction@);
            }
            if outcome.is_err() && first_bad.is_none() {
                first_bad = Some(i);
            }
            i += 1;
        }
        assert(instructions.take(i as int) =~= instructions);
        proof {
            lemma_first_malformed(instructions);
        }
        match first_bad {
            Some(index) => Err(
                TraceError::MalformedInstruction { signature: transaction.signature, index },
            ),
            None => Ok(()),
        }
    }

    /// Exports the graph: every node with its account as id and as label,
    /// and every edge with the accounts of its two ends and its amount.
    pub fn export_json(&self) -> (snapshot: GraphSnapshot)
        requires
            self.wf(),
        ensures
            snapshot@ == exported(self@),
    {
        let ghost node_names = graph_nodes(self.graph);
        let ghost edge_list = graph_edges(self.graph);
        let mut nodes: Vec<NodeRecord> = Vec::new();
        let node_indices = graph_node_indices(&self.graph);
        let mut i: usize = 0;
        while i < node_indices.len()
            invariant
                i <= node_indices@.len(),
                node_indices@ == Seq::new(node_names.len(), |k: int| k as usize),
                node_names == graph_nodes(self.graph),
                node_names.len() <= u32::MAX,
                nodes@.len() == i,
                forall|k: int|
                    0 <= k < i ==> (#[trigger] nodes@[k])@ == (NodeRecordView {
                        id: node_names[k],
                        label: node_names[k],
                    }),
            decreases node_indices@.len() - i,
        {
            let node = node_indices[i];
            let name = graph_node_weight(&self.graph, node);
            nodes.push(NodeRecord { id: name.clone(), label: name.clone() });
            i += 1;
        }
        let mut edges: Vec<EdgeRecord> = Vec::new();
        let edge_indices = graph_edge_indices(&self.graph);
        let mut e: usize = 0;
        while e < edge_indices.len()
            invariant
                e <= edge_indices@.len(),
                edge_indices@ == Seq::new(edge_list.len(), |k: int| k as usize),
                self.wf(),
                node_names == graph_nodes(self.graph),
                edge_list == graph_edges(self.graph),
                edges@.len() == e,
                forall|k: int| 0 <= k < e ==> (#[trigger] edges@[k])@ == self@.edges[k],
            decreases edge_indices@.len() - e,
        {
            let edge = edge_indices[e];
            if let Some((source, target)) = graph_edge_endpoints(&self.graph, edge) {
                assert(edge_list[edge as int].0 < node_names.len());
                let record = EdgeRecord {
                    source: graph_node_weight(&self.graph, source).clone(),
                    target: graph_node_weight(&self.graph, target).clone(),
                    amount: graph_edge_weight(&self.graph, edge),
                    kind: self.kinds[edge],
                };
                edges.push(record);
            }
            e += 1;
        }
        let snapshot = GraphSnapshot { nodes, edges };
        assert(snapshot@.nodes =~= exported(self@).nodes);
        assert(snapshot@.edges =~= exported(self@).edges);
        snapshot
    }
}

impl GraphBuilder {
    /// No account has two nodes.
    pub proof fn lemma_accounts_distinct(&self)
        requires
            self.wf(),
        ensures
            self@.nodes.no_duplicates(),
    {
        let nodes = graph_nodes(self.graph);
        assert forall|i: int, j: int|
            0 <= i < nodes.len() && 0 <= j < nodes.len() && i != j implies nodes[i] != nodes[j] by {
            assert(self.node_map@[nodes[i]] == i);
            assert(self.node_map@[nodes[j]] == j);
        }
    }

    /// Both accounts of every edge are nodes of the graph.
    pub proof fn lemma_edge_accounts_are_nodes(&self)
        requires
            self.wf(),
        ensures
            forall|e: int|
                0 <= e < self@.edges.len() ==> self@.nodes.contains((#[trigger] self@.edges[e]).source)
                    && self@.nodes.contains(self@.edges[e].target),
    {
        let nodes = graph_nodes(self.graph);
        let edges = graph_edges(self.graph);
        assert forall|e: int| 0 <= e < self@.edges.len() implies self@.nodes.contains(
            (#[trigger] self@.edges[e]).source,
        ) && self@.nodes.contains(self@.edges[e].target) by {
            assert(edges[e].0 < nodes.len());
            assert(nodes[edges[e].0 as int] == self@.edges[e].source);
            assert(nodes[edges[e].1 as int] == self@.edges[e].target);
        }
    }

    /// Exporting twice with nothing ingested in between gives the same
    /// content: whatever two exports of one accumulator return is equal.
    pub proof fn lemma_export_repeatable(&self, first: GraphSnapshot, second: GraphSnapshot)
        requires
            first@ == exported(self@),
            second@ == exported(self@),
        ensures
            first@ == second@,
    {
    }

    /// Every account that an exported edge refers to, as source or as
    /// target, stands exactly once in the exported node list.
    pub proof fn lemma_exported_accounts_listed_once(&self)
        requires
            self.wf(),
        ensures
            forall|e: int|
                0 <= e < exported(self@).edges.len() ==> occurs_once(
                    node_ids(exported(self@)),
                    (#[trigger] exported(self@).edges[e]).source,
                ) && occurs_once(node_ids(exported(self@)), exported(self@).edges[e].target),
    {
        self.lemma_accounts_distinct();
        self.lemma_edge_accounts_are_nodes();
        let ids = node_ids(exported(self@));
        assert(ids =~= self@.nodes);
        assert forall|e: int| 0 <= e < exported(self@).edges.len() implies occurs_once(
            ids,
            (#[trigger] exported(self@).edges[e]).source,
        ) && occurs_once(ids, exported(self@).edges[e].target) by {
            let edge = self@.edges[e];
            lemma_listed_once(ids, edge.source);
            lemma_listed_once(ids, edge.target);
        }
    }
}

/// An account of a list without repetitions stands at exactly one position.
pub proof fn lemma_listed_once(accounts: Seq<Seq<char>>, account: Seq<char>)
    requires
        accounts.no_duplicates(),
        accounts.contains(account),
    ensures
        occurs_once(accounts, account),
{
    let i = choose|i: int| 0 <= i < accounts.len() && accounts[i] == account;
    assert(accounts[i] == account);
}

/// One instruction adds at most two accounts and at most one transfer, and
/// takes nothing away.
pub proof fn lemma_apply_instruction_grows(graph: GraphView, instruction: InstructionView)
    ensures
        graph.nodes.len() <= apply_instruction(graph, instruction).nodes.len() <= graph.nodes.len()
            + 2,
        graph.edges.len() <= apply_instruction(graph, instruction).edges.len() <= graph.edges.len()
            + 1,
{
}

} // verus!

