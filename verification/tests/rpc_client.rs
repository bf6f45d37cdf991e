use solana_sdk::pubkey::Pubkey;
use solana_tracer::error::TraceError;
use solana_tracer::rpc_client::{
    AttemptOutcome, LedgerRequest, RetryDecision, RetryState, SolanaRpcClient, BASE_DELAY_MS,
    DEFAULT_MAX_IN_FLIGHT, MAX_ATTEMPTS, MAX_DELAY_MS,
};
use solana_tracer::signature::Signature;

fn failure(cause: &str) -> AttemptOutcome {
    AttemptOutcome::Failure {
        cause: cause.to_string(),
    }
}

fn text_of(bytes: [u8; 64]) -> String {
    solana_sdk::signature::Signature::from(bytes).to_string()
}

#[test]
fn limits_are_as_documented() {
    assert_eq!(MAX_ATTEMPTS, 5);
    assert_eq!(BASE_DELAY_MS, 100);
    assert_eq!(MAX_DELAY_MS, 5000);
    assert_eq!(DEFAULT_MAX_IN_FLIGHT, 10);
}

#[test]
fn client_keeps_its_limit() {
    assert_eq!(SolanaRpcClient::new(10).max_in_flight(), 10);
    assert_eq!(SolanaRpcClient::new(3).max_in_flight(), 3);
}

#[test]
fn success_is_delivered() {
    let mut state = RetryState::new();
    assert!(matches!(
        state.decide(AttemptOutcome::Success),
        RetryDecision::Deliver
    ));
}

#[test]
fn pauses_double_from_the_base_delay() {
    let mut state = RetryState::new();
    let mut pauses = Vec::new();
    loop {
        match state.decide(failure("timeout")) {
            RetryDecision::Retry { delay_ms } => pauses.push(delay_ms),
            RetryDecision::Fail { .. } => break,
            RetryDecision::Deliver => panic!("a failure is not delivered"),
        }
    }
    assert_eq!(pauses, vec![100, 200, 400, 800]);
}

#[test]
fn fifth_failure_is_remote_unavailable_with_the_last_cause() {
    let mut state = RetryState::new();
    for attempt in 1..5 {
        let cause = format!("cause {}", attempt);
        assert!(matches!(
            state.decide(failure(&cause)),
            RetryDecision::Retry { .. }
        ));
    }
    match state.decide(failure("cause 5")) {
        RetryDecision::Fail {
            error: TraceError::RemoteUnavailable { cause },
        } => assert_eq!(cause, "cause 5"),
        other => panic!("unexpected decision: {:?}", other),
    }
}

#[test]
fn spent_budget_stays_spent() {
    let mut state = RetryState::new();
    for _ in 0..5 {
        state.decide(failure("down"));
    }
    assert!(matches!(
        state.decide(failure("down")),
        RetryDecision::Fail {
            error: TraceError::RemoteUnavailable { .. }
        }
    ));
}

#[test]
fn success_after_failures_is_delivered() {
    let mut state = RetryState::new();
    state.decide(failure("down"));
    state.decide(failure("down"));
    assert!(matches!(
        state.decide(AttemptOutcome::Success),
        RetryDecision::Deliver
    ));
}

#[test]
fn malformed_request_fails_at_once() {
    let mut state = RetryState::new();
    assert!(matches!(
        state.decide(AttemptOutcome::Malformed),
        RetryDecision::Fail {
            error: TraceError::InvalidInput
        }
    ));
}

#[test]
fn malformed_request_takes_nothing_from_the_budget() {
    let mut state = RetryState::new();
    state.decide(AttemptOutcome::Malformed);
    state.decide(AttemptOutcome::Malformed);
    let mut pauses = Vec::new();
    while let RetryDecision::Retry { delay_ms } = state.decide(failure("down")) {
        pauses.push(delay_ms);
    }
    assert_eq!(pauses, vec![100, 200, 400, 800]);
}

#[test]
fn transaction_request_carries_the_signature() {
    let client = SolanaRpcClient::new(10);
    let signature = Signature::from_bytes([9u8; 64]);
    match client.get_transaction(&signature) {
        LedgerRequest::Transaction { signature } => {
            assert_eq!(signature.to_bytes(), [9u8; 64])
        }
        other => panic!("unexpected request: {:?}", other),
    }
}

#[test]
fn address_request_carries_the_address_and_the_limit() {
    let client = SolanaRpcClient::new(10);
    let address = Pubkey::new_from_array([3u8; 32]).to_string();
    match client.get_signatures_for_address(&address, Some(1)) {
        Ok(LedgerRequest::PriorSignatures {
            address: asked,
            limit,
        }) => {
            assert_eq!(asked, address);
            assert_eq!(limit, Some(1));
        }
        other => panic!("unexpected result: {:?}", other),
    }
    match client.get_signatures_for_address(&address, None) {
        Ok(LedgerRequest::PriorSignatures { limit, .. }) => assert_eq!(limit, None),
        other => panic!("unexpected result: {:?}", other),
    }
}

#[test]
fn text_that_is_no_address_is_invalid_input() {
    let client = SolanaRpcClient::new(10);
    for text in ["", "1000000", "not an address", "0OIl"] {
        assert!(matches!(
            client.get_signatures_for_address(text, Some(1)),
            Err(TraceError::InvalidInput)
        ));
    }
}

#[test]
fn signature_text_is_no_address() {
    let client = SolanaRpcClient::new(10);
    let text = text_of([5u8; 64]);
    assert!(matches!(
        client.get_signatures_for_address(&text, Some(1)),
        Err(TraceError::InvalidInput)
    ));
}

#[test]
fn answer_is_decoded_in_order() {
    let client = SolanaRpcClient::new(10);
    let texts = vec![text_of([1u8; 64]), text_of([2u8; 64]), text_of([3u8; 64])];
    let signatures = client.decode_signatures(&texts, None).unwrap();
    let bytes: Vec<[u8; 64]> = signatures.iter().map(|s| s.to_bytes()).collect();
    assert_eq!(bytes, vec![[1u8; 64], [2u8; 64], [3u8; 64]]);
}

#[test]
fn answer_is_cut_at_the_limit() {
    let client = SolanaRpcClient::new(10);
    let texts = vec![text_of([1u8; 64]), text_of([2u8; 64]), text_of([3u8; 64])];
    let one = client.decode_signatures(&texts, Some(1)).unwrap();
    assert_eq!(one.len(), 1);
    assert_eq!(one[0].to_bytes(), [1u8; 64]);
    let two = client.decode_signatures(&texts, Some(2)).unwrap();
    assert_eq!(two.len(), 2);
    let all = client.decode_signatures(&texts, Some(7)).unwrap();
    assert_eq!(all.len(), 3);
    let none = client.decode_signatures(&texts, Some(0)).unwrap();
    assert!(none.is_empty());
}

#[test]
fn empty_answer_decodes_to_nothing() {
    let client = SolanaRpcClient::new(10);
    assert!(client.decode_signatures(&vec![], Some(1)).unwrap().is_empty());
}

#[test]
fn one_bad_text_spoils_the_answer() {
    let client = SolanaRpcClient::new(10);
    let texts = vec![text_of([1u8; 64]), "???".to_string()];
    assert!(matches!(
        client.decode_signatures(&texts, None),
        Err(TraceError::InvalidInput)
    ));
}

#[test]
fn bad_text_beyond_the_limit_is_not_looked_at() {
    let client = SolanaRpcClient::new(10);
    let texts = vec![text_of([1u8; 64]), "???".to_string()];
    let signatures = client.decode_signatures(&texts, Some(1)).unwrap();
    assert_eq!(signatures.len(), 1);
}
