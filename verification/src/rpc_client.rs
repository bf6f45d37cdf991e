//! The ledger client, without the network.
//!
//! The client says which requests may be sent and what to do after each
//! attempt; sending them, waiting and sleeping are the caller's part.

use vstd::prelude::*;
use crate::error::{TraceError, TraceErrorView};
use crate::record::texts_of;
use crate::signature::{address_accepted, decode_address, decoded_signature, Signature};

verus! {

/// How many attempts one request gets.
pub const MAX_ATTEMPTS: u32 = 5;

/// The pause after the first failed attempt, in milliseconds.
pub const BASE_DELAY_MS: u64 = 100;

/// The longest pause between two attempts, in milliseconds.
pub const MAX_DELAY_MS: u64 = 5000;

/// How many requests a client sends at once unless told otherwise.
pub const DEFAULT_MAX_IN_FLIGHT: usize = 10;

/// A request to the ledger.
#[derive(Debug)]
pub enum LedgerRequest {
    /// The transaction with this signature.
    Transaction { signature: Signature },
    /// The most recent signatures that touch this address, newest first, at
    /// most `limit` of them.
    PriorSignatures { address: String, limit: Option<usize> },
}

/// A `LedgerRequest` as a mathematical value.
pub enum LedgerRequestView {
    Transaction { signature: Seq<u8> },
    PriorSignatures { address: Seq<char>, limit: Option<nat> },
}

/// A limit as a mathematical value.
pub open spec fn limit_of(limit: Option<usize>) -> Option<nat> {
    match limit {
        Some(n) => Some(n as nat),
        None => None,
    }
}

impl View for LedgerRequest {
    type V = LedgerRequestView;

    open spec fn view(&self) -> LedgerRequestView {
        match *self {
            LedgerRequest::Transaction { signature } => LedgerRequestView::Transaction {
                signature: signature@,
            },
            LedgerRequest::PriorSignatures { address, limit } => {
                LedgerRequestView::PriorSignatures { address: address@, limit: limit_of(limit) }
            },
        }
    }
}

/// The first `limit` texts of a list, or all of them without a limit.
pub open spec fn bounded(texts: Seq<Seq<char>>, limit: Option<nat>) -> Seq<Seq<char>> {
    match limit {
        Some(n) => if n < texts.len() {
            texts.take(n as int)
        } else {
            texts
        },
        None => texts,
    }
}

/// Whether every text of a list decodes to a signature.
pub open spec fn all_decodable(texts: Seq<Seq<char>>) -> bool {
    forall|i: int| 0 <= i < texts.len() ==> decoded_signature(#[trigger] texts[i]) is Some
}

/// The signatures that the texts of a list decode to.
pub open spec fn decoded_all(texts: Seq<Seq<char>>) -> Seq<Seq<u8>> {
    Seq::new(texts.len(), |i: int| decoded_signature(texts[i])->0)
}

/// The bytes of each signature of a list.
pub open spec fn signatures_of(signatures: Seq<Signature>) -> Seq<Seq<u8>> {
    Seq::new(signatures.len(), |i: int| signatures[i]@)
}

/// The pause after the given number of failed attempts in a row: the base
/// delay after the first, doubled after each further one, and never above
/// the ceiling.
pub open spec fn backoff_ms(failures: nat) -> nat
    decreases failures,
{
    if failures <= 1 {
        BASE_DELAY_MS as nat
    } else if 2 * backoff_ms((failures - 1) as nat) > MAX_DELAY_MS {
        MAX_DELAY_MS as nat
    } else {
        2 * backoff_ms((failures - 1) as nat)
    }
}

/// What one attempt at a request came to.
#[derive(Debug)]
pub enum AttemptOutcome {
    /// The ledger answered.
    Success,
    /// The attempt failed in a way that may pass: `cause` says how.
    Failure { cause: String },
    /// The request itself is malformed, and no attempt can succeed.
    Malformed,
}

/// An `AttemptOutcome` as a mathematical value.
pub enum AttemptOutcomeView {
    Success,
    Failure { cause: Seq<char> },
    Malformed,
}

impl View for AttemptOutcome {
    type V = AttemptOutcomeView;

    open spec fn view(&self) -> AttemptOutcomeView {
        match *self {
            AttemptOutcome::Success => AttemptOutcomeView::Success,
            AttemptOutcome::Failure { cause } => AttemptOutcomeView::Failure { cause: cause@ },
            AttemptOutcome::Malformed => AttemptOutcomeView::Malformed,
        }
    }
}

/// What to do after an attempt.
#[derive(Debug)]
pub enum RetryDecision {
    /// Hand the answer to whoever asked.
    Deliver,
    /// Wait for `delay_ms` milliseconds, then try again.
    Retry { delay_ms: u64 },
    /// Stop, and report `error`.
    Fail { error: TraceError },
}

/// A `RetryDecision` as a mathematical value.
pub enum RetryDecisionView {
    Deliver,
    Retry { delay_ms: nat },
    Fail { error: TraceErrorView },
}

impl View for RetryDecision {
    type V = RetryDecisionView;

    open spec fn view(&self) -> RetryDecisionView {
        match *self {
            RetryDecision::Deliver => RetryDecisionView::Deliver,
            RetryDecision::Retry { delay_ms } => RetryDecisionView::Retry {
                delay_ms: delay_ms as nat,
            },
            RetryDecision::Fail { error } => RetryDecisionView::Fail { error: error@ },
        }
    }
}

/// The number of failed attempts after one more attempt. Only a failure that
/// may pass counts, and the count stops at the budget.
pub open spec fn failures_after(failures: nat, outcome: AttemptOutcomeView) -> nat {
    if outcome is Failure && failures < MAX_ATTEMPTS {
        failures + 1
    } else {
        failures
    }
}

/// The decision after an attempt that followed `failures` failed ones. A
/// success is delivered. A malformed request fails at once as invalid input.
/// A failure is retried after the backoff pause until the budget is spent,
/// and then fails as remote unavailable with the last cause.
pub open spec fn decision_after(failures: nat, outcome: AttemptOutcomeView) -> RetryDecisionView {
    match outcome {
        AttemptOutcomeView::Success => RetryDecisionView::Deliver,
        AttemptOutcomeView::Malformed => RetryDecisionView::Fail {
            error: TraceErrorView::InvalidInput,
        },
        AttemptOutcomeView::Failure { cause } => if failures_after(failures, outcome)
            >= MAX_ATTEMPTS {
            RetryDecisionView::Fail { error: TraceErrorView::RemoteUnavailable { cause } }
        } else {
            RetryDecisionView::Retry { delay_ms: backoff_ms(failures_after(failures, outcome)) }
        },
    }
}

/// The retry budget of one request.
#[derive(Debug)]
pub struct RetryState {
    failures: u32,
    delay_ms: u64,
}

impl View for RetryState {
    type V = nat;

    /// The number of attempts that have failed so far.
    closed spec fn view(&self) -> nat {
        self.failures as nat
    }
}

impl RetryState {
    /// The invariant of the budget: the count is within the budget, and the
    /// pause held ready is the one that the next failure calls for.
    pub closed spec fn wf(&self) -> bool {
        &&& self.failures <= MAX_ATTEMPTS
        &&& self.delay_ms == backoff_ms((self.failures + 1) as nat)
    }

    /// The budget of a request that has not been tried yet.
    pub fn new() -> (state: RetryState)
        ensures
            state.wf(),
            state@ == 0,
    {
        RetryState { failures: 0, delay_ms: BASE_DELAY_MS }
    }

    /// Takes note of one attempt and says what to do next.
    pub fn decide(&mut self, outcome: AttemptOutcome) -> (decision: RetryDecision)
        requires
            old(self).wf(),
        ensures
            final(self).wf(),
            final(self)@ == failures_after(old(self)@, outcome@),
            decision@ == decision_after(old(self)@, outcome@),
    {
        match outcome {
            AttemptOutcome::Success => RetryDecision::Deliver,
            AttemptOutcome::Malformed => RetryDecision::Fail { error: TraceError::InvalidInput },
            AttemptOutcome::Failure { cause } => {
                let delay_ms = self.delay_ms;
                if self.failures < MAX_ATTEMPTS {
                    self.failures = self.failures + 1;
                    proof {
                        lemma_backoff_bounds(self.failures as nat);
                    }
                    self.delay_ms = if 2 * delay_ms > MAX_DELAY_MS {
                        MAX_DELAY_MS
                    } else {
                        2 * delay_ms
                    };
                }
                if self.failures >= MAX_ATTEMPTS {
                    RetryDecision::Fail { error: TraceError::RemoteUnavailable { cause } }
                } else {
                    RetryDecision::Retry { delay_ms }
                }
            },
        }
    }
}

/// No pause is shorter than the base delay or longer than the ceiling.
pub proof fn lemma_backoff_bounds(failures: nat)
    ensures
        BASE_DELAY_MS <= backoff_ms(failures) <= MAX_DELAY_MS,
    decreases failures,
{
    if failures > 1 {
        lemma_backoff_bounds((failures - 1) as nat);
    }
}

/// A request is tried at most `MAX_ATTEMPTS` times: an attempt is followed by
/// another only while fewer than that many have failed, and a success or a
/// malformed request is never followed by one.
pub proof fn lemma_retry_budget(failures: nat, outcome: AttemptOutcomeView)
    ensures
        decision_after(failures, outcome) is Retry ==> outcome is Failure && failures_after(
            failures,
            outcome,
        ) == failures + 1 && failures + 1 < MAX_ATTEMPTS,
        failures >= MAX_ATTEMPTS - 1 ==> !(decision_after(failures, outcome) is Retry),
{
}

/// The ledger client: which requests it would send, and how many at once.
#[derive(Debug)]
pub struct SolanaRpcClient {
    max_in_flight: usize,
}

impl SolanaRpcClient {
    /// A client that keeps at most `max_in_flight` requests in flight.
    pub fn new(max_in_flight: usize) -> (client: SolanaRpcClient)
        ensures
            client.max_in_flight_spec() == max_in_flight,
    {
        SolanaRpcClient { max_in_flight }
    }

    /// The number of requests that may be in flight at once.
    pub closed spec fn max_in_flight_spec(&self) -> usize {
        self.max_in_flight
    }

    /// The number of requests that may be in flight at once.
    #[verifier::when_used_as_spec(max_in_flight_spec)]
    pub fn max_in_flight(&self) -> (limit: usize)
        ensures
            limit == self.max_in_flight_spec(),
    {
        self.max_in_flight
    }

    /// The request for the transaction with the given signature.
    pub fn get_transaction(&self, signature: &Signature) -> (request: LedgerRequest)
        ensures
            request@ == (LedgerRequestView::Transaction { signature: signature@ }),
    {
        LedgerRequest::Transaction { signature: *signature }
    }

    /// The request for the most recent signatures that touch an address. A
    /// text that is no address is refused as invalid input, and nothing is
    /// to be sent for it.
    pub fn get_signatures_for_address(&self, address: &str, limit: Option<usize>) -> (result:
        Result<LedgerRequest, TraceError>)
        ensures
            match result {
                Ok(request) => address_accepted(address@) && request@ == (
                LedgerRequestView::PriorSignatures { address: address@, limit: limit_of(limit) }),
                Err(error) => !address_accepted(address@) && error@
                    == TraceErrorView::InvalidInput,
            },
    {
        if decode_address(address) {
            Ok(LedgerRequest::PriorSignatures { address: address.to_owned(), limit })
        } else {
            Err(TraceError::InvalidInput)
        }
    }

    /// Decodes the answer to a request for prior signatures: the first
    /// `limit` texts, all of them or none. One text that is no signature
    /// makes the whole answer invalid input.
    pub fn decode_signatures(&self, texts: &Vec<String>, limit: Option<usize>) -> (result: Result<
        Vec<Signature>,
        TraceError,
    >)
        ensures
            match result {
                Ok(signatures) => {
                    &&& all_decodable(bounded(texts_of(texts@), limit_of(limit)))
                    &&& signatures_of(signatures@) == decoded_all(
                        bounded(texts_of(texts@), limit_of(limit)),
                    )
                },
                Err(error) => {
                    &&& !all_decodable(bounded(texts_of(texts@), limit_of(limit)))
                    &&& error@ == TraceErrorView::InvalidInput
                },
            },
    {
        let count = match limit {
            Some(n) => if n < texts.len() {
                n
            } else {
                texts.len()
            },
            None => texts.len(),
        };
        let ghost wanted = bounded(texts_of(texts@), limit_of(limit));
        assert(wanted.len() == count);
        assert(forall|i: int| 0 <= i < count ==> wanted[i] == texts@[i]@);
        let mut signatures: Vec<Signature> = Vec::new();
        let mut i: usize = 0;
        while i < count
            invariant
                i <= count,
                count <= texts@.len(),
                wanted == bounded(texts_of(texts@), limit_of(limit)),
                wanted.len() == count,
                forall|k: int| 0 <= k < count ==> wanted[k] == texts@[k]@,
                signatures@.len() == i,
                forall|k: int| 0 <= k < i ==> decoded_signature(wanted[k]) == Some(signatures@[k]@),
            decreases count - i,
        {
            match Signature::parse(texts[i].as_str()) {
                Some(signature) => {
                    signatures.push(signature);
                },
                None => {
                    assert(decoded_signature(wanted[i as int]) is None);
                    return Err(TraceError::InvalidInput);
                },
            }
            i += 1;
        }
        assert(signatures_of(signatures@) =~= decoded_all(wanted));
        Ok(signatures)
    }
}

} // verus!
