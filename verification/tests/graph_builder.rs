use solana_tracer::error::{MalformedTransfer, TraceError};
use solana_tracer::graph_builder::{GraphBuilder, TransferKind};
use solana_tracer::record::{BalanceEntry, Instruction, TransactionRecord};
use solana_tracer::signature::Signature;

fn amount(text: &str) -> Option<u64> {
    text.parse::<f64>().ok().map(f64::to_bits)
}

fn transfer(kind: &str, source: &str, destination: &str, text: &str) -> Instruction {
    Instruction {
        kind: kind.to_string(),
        source: Some(source.to_string()),
        destination: Some(destination.to_string()),
        amount: amount(text),
    }
}

fn record(instructions: Vec<Instruction>) -> TransactionRecord {
    TransactionRecord {
        signature: Signature::from_bytes([7u8; 64]),
        instructions,
        balances: vec![BalanceEntry {
            account: "payer".to_string(),
            pre_balance: 1000,
            post_balance: 0,
        }],
    }
}

#[test]
fn test_add_node() {
    let mut builder = GraphBuilder::new();
    let node1 = builder.add_node("account1");
    let node2 = builder.add_node("account2");
    let node1_again = builder.add_node("account1");

    assert_ne!(node1, node2);
    assert_eq!(node1, node1_again);
}

#[test]
fn test_process_transfer() {
    let mut builder = GraphBuilder::new();
    let instruction = Instruction {
        kind: "transfer".to_string(),
        source: Some("source_account".to_string()),
        destination: Some("dest_account".to_string()),
        amount: amount("1000"),
    };
    builder.process_transfer(&instruction, &1000, &0).unwrap();

    let graph = builder.export_json();

    assert_eq!(graph.nodes.len(), 2);
    assert_eq!(graph.edges.len(), 1);
}

#[test]
fn new_builder_is_empty() {
    let builder = GraphBuilder::new();
    assert_eq!(builder.node_count(), 0);
    assert_eq!(builder.edge_count(), 0);
    let graph = builder.export_json();
    assert!(graph.nodes.is_empty());
    assert!(graph.edges.is_empty());
}

#[test]
fn add_node_numbers_accounts_in_order_of_first_sight() {
    let mut builder = GraphBuilder::new();
    assert_eq!(builder.add_node("a"), 0);
    assert_eq!(builder.add_node("b"), 1);
    assert_eq!(builder.add_node("a"), 0);
    assert_eq!(builder.add_node("c"), 2);
    assert_eq!(builder.node_count(), 3);
    assert_eq!(builder.edge_count(), 0);
}

#[test]
fn exported_transfer_names_both_accounts_and_the_amount() {
    let mut builder = GraphBuilder::new();
    builder.process_transfer(&transfer("transfer", "X", "Y", "1000"), &0, &0).unwrap();
    let graph = builder.export_json();
    assert_eq!(graph.nodes.len(), 2);
    assert_eq!(graph.nodes[0].id, "X");
    assert_eq!(graph.nodes[0].label, "X");
    assert_eq!(graph.nodes[1].id, "Y");
    assert_eq!(graph.nodes[1].label, "Y");
    assert_eq!(graph.edges.len(), 1);
    assert_eq!(graph.edges[0].source, "X");
    assert_eq!(graph.edges[0].target, "Y");
    assert_eq!(f64::from_bits(graph.edges[0].amount), 1000.0);
}

#[test]
fn parallel_transfers_are_all_kept() {
    let mut builder = GraphBuilder::new();
    builder.process_transfer(&transfer("transfer", "X", "Y", "1"), &0, &0).unwrap();
    builder.process_transfer(&transfer("transfer", "X", "Y", "1"), &0, &0).unwrap();
    builder.process_spl_transfer(&transfer("transferChecked", "Y", "X", "2.5")).unwrap();
    let graph = builder.export_json();
    assert_eq!(graph.nodes.len(), 2);
    assert_eq!(graph.edges.len(), 3);
    assert_eq!(graph.edges[2].source, "Y");
    assert_eq!(graph.edges[2].target, "X");
    assert_eq!(f64::from_bits(graph.edges[2].amount), 2.5);
}

#[test]
fn native_and_token_transfers_are_told_apart() {
    let mut builder = GraphBuilder::new();
    builder.process_transfer(&transfer("transfer", "X", "Y", "1"), &0, &0).unwrap();
    builder.process_spl_transfer(&transfer("transferChecked", "X", "Y", "1")).unwrap();
    let by_kind = record(vec![
        transfer("transferChecked", "X", "Y", "1"),
        transfer("transfer", "X", "Y", "1"),
    ]);
    builder.process_transaction(&by_kind).unwrap();
    let graph = builder.export_json();
    let kinds: Vec<TransferKind> = graph.edges.iter().map(|edge| edge.kind).collect();
    assert_eq!(
        kinds,
        vec![
            TransferKind::Native,
            TransferKind::Token,
            TransferKind::Token,
            TransferKind::Native
        ]
    );
}

#[test]
fn transfer_to_oneself_makes_one_node() {
    let mut builder = GraphBuilder::new();
    builder.process_transfer(&transfer("transfer", "X", "X", "3"), &0, &0).unwrap();
    let graph = builder.export_json();
    assert_eq!(graph.nodes.len(), 1);
    assert_eq!(graph.edges.len(), 1);
    assert_eq!(graph.edges[0].source, "X");
    assert_eq!(graph.edges[0].target, "X");
}

#[test]
fn missing_source_is_reported_and_changes_nothing() {
    let mut builder = GraphBuilder::new();
    let mut instruction = transfer("transfer", "X", "Y", "1");
    instruction.source = None;
    assert_eq!(
        builder.process_transfer(&instruction, &0, &0),
        Err(MalformedTransfer::Source)
    );
    assert_eq!(builder.node_count(), 0);
    assert_eq!(builder.edge_count(), 0);
}

#[test]
fn missing_destination_is_reported_and_changes_nothing() {
    let mut builder = GraphBuilder::new();
    let mut instruction = transfer("transfer", "X", "Y", "1");
    instruction.destination = None;
    assert_eq!(
        builder.process_transfer(&instruction, &0, &0),
        Err(MalformedTransfer::Destination)
    );
    assert_eq!(builder.node_count(), 0);
}

#[test]
fn amount_that_is_no_number_is_reported_and_changes_nothing() {
    let mut builder = GraphBuilder::new();
    let instruction = transfer("transferChecked", "X", "Y", "a thousand");
    assert_eq!(instruction.amount, None);
    assert_eq!(
        builder.process_spl_transfer(&instruction),
        Err(MalformedTransfer::Amount)
    );
    assert_eq!(builder.node_count(), 0);
    assert_eq!(builder.edge_count(), 0);
}

#[test]
fn source_is_reported_before_the_other_fields() {
    let mut builder = GraphBuilder::new();
    let instruction = Instruction {
        kind: "transfer".to_string(),
        source: None,
        destination: None,
        amount: None,
    };
    assert_eq!(
        builder.process_transfer(&instruction, &0, &0),
        Err(MalformedTransfer::Source)
    );
}

#[test]
fn other_instruction_kinds_are_passed_over() {
    let mut builder = GraphBuilder::new();
    let instruction = Instruction {
        kind: "createAccount".to_string(),
        source: None,
        destination: None,
        amount: None,
    };
    assert_eq!(builder.process_parsed_instruction(&instruction, &0, &0), Ok(()));
    let kept = transfer("mintTo", "X", "Y", "5");
    assert_eq!(builder.process_parsed_instruction(&kept, &0, &0), Ok(()));
    assert_eq!(builder.node_count(), 0);
    assert_eq!(builder.edge_count(), 0);
}

#[test]
fn both_transfer_kinds_are_ingested() {
    let mut builder = GraphBuilder::new();
    let native = transfer("transfer", "A", "B", "1");
    let token = transfer("transferChecked", "B", "C", "2");
    assert_eq!(builder.process_parsed_instruction(&native, &0, &0), Ok(()));
    assert_eq!(builder.process_parsed_instruction(&token, &0, &0), Ok(()));
    assert_eq!(builder.node_count(), 3);
    assert_eq!(builder.edge_count(), 2);
}

#[test]
fn transaction_without_instructions_changes_nothing() {
    let mut builder = GraphBuilder::new();
    assert!(builder.process_transaction(&record(vec![])).is_ok());
    assert_eq!(builder.node_count(), 0);
    assert_eq!(builder.edge_count(), 0);
}

#[test]
fn transaction_without_balances_is_ingested() {
    let mut builder = GraphBuilder::new();
    let transaction = TransactionRecord {
        signature: Signature::from_bytes([1u8; 64]),
        instructions: vec![transfer("transfer", "X", "Y", "1")],
        balances: vec![],
    };
    assert!(builder.process_transaction(&transaction).is_ok());
    assert_eq!(builder.edge_count(), 1);
}

#[test]
fn malformed_transfer_is_skipped_and_the_rest_is_ingested() {
    let mut builder = GraphBuilder::new();
    let mut bad = transfer("transfer", "P", "Q", "1");
    bad.destination = None;
    let transaction = record(vec![
        transfer("transfer", "A", "B", "1"),
        bad,
        transfer("createAccount", "C", "D", "2"),
        transfer("transferChecked", "B", "C", "3"),
    ]);
    match builder.process_transaction(&transaction) {
        Err(TraceError::MalformedInstruction { signature, index }) => {
            assert_eq!(signature.to_bytes(), [7u8; 64]);
            assert_eq!(index, 1);
        }
        other => panic!("unexpected result: {:?}", other),
    }
    let graph = builder.export_json();
    let ids: Vec<&str> = graph.nodes.iter().map(|node| node.id.as_str()).collect();
    assert_eq!(ids, vec!["A", "B", "C"]);
    assert_eq!(graph.edges.len(), 2);
    assert_eq!(graph.edges[1].source, "B");
    assert_eq!(graph.edges[1].target, "C");
}

#[test]
fn first_of_two_malformed_transfers_is_named() {
    let mut builder = GraphBuilder::new();
    let mut first = transfer("transfer", "A", "B", "1");
    first.amount = None;
    let mut second = transfer("transfer", "A", "B", "1");
    second.source = None;
    let transaction = record(vec![
        transfer("other", "A", "B", "1"),
        transfer("transfer", "A", "B", "1"),
        first,
        second,
    ]);
    match builder.process_transaction(&transaction) {
        Err(TraceError::MalformedInstruction { index, .. }) => assert_eq!(index, 2),
        other => panic!("unexpected result: {:?}", other),
    }
    assert_eq!(builder.edge_count(), 1);
}

#[test]
fn export_twice_gives_the_same_content() {
    let mut builder = GraphBuilder::new();
    builder.process_transfer(&transfer("transfer", "X", "Y", "1000"), &0, &0).unwrap();
    builder.process_transfer(&transfer("transfer", "Y", "Z", "0.5"), &0, &0).unwrap();
    let first = builder.export_json();
    let second = builder.export_json();
    assert_eq!(first, second);
}

#[test]
fn every_account_of_an_edge_is_listed_once() {
    let mut builder = GraphBuilder::new();
    let transaction = record(vec![
        transfer("transfer", "A", "B", "1"),
        transfer("transfer", "B", "A", "2"),
        transfer("transferChecked", "A", "C", "3"),
        transfer("transfer", "C", "C", "4"),
        transfer("transfer", "A", "B", "5"),
    ]);
    builder.process_transaction(&transaction).unwrap();
    let graph = builder.export_json();
    assert_eq!(graph.nodes.len(), 3);
    assert_eq!(graph.edges.len(), 5);
    for edge in &graph.edges {
        for account in [&edge.source, &edge.target] {
            let count = graph.nodes.iter().filter(|node| &node.id == account).count();
            assert_eq!(count, 1);
        }
    }
}

#[test]
fn small_graph_has_room() {
    let mut builder = GraphBuilder::new();
    assert!(builder.has_room_for(0));
    assert!(builder.has_room_for(1_000_000));
    assert!(builder.has_room_for(2_147_483_647));
    assert!(!builder.has_room_for(2_147_483_648));
    builder.process_transfer(&transfer("transfer", "X", "Y", "1"), &0, &0).unwrap();
    assert!(builder.has_room_for(2_147_483_646));
    assert!(!builder.has_room_for(2_147_483_647));
}
