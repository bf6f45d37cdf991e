//! The decoded form of one ledger transaction.

use vstd::prelude::*;
use crate::signature::Signature;

verus! {

/// One parsed instruction of a transaction.
///
/// `amount` is the bit pattern of the 64-bit floating-point value that the
/// instruction's amount text denotes; it is `None` where the instruction has
/// no amount or its text is not a number.
#[derive(Debug)]
pub struct Instruction {
    pub kind: String,
    pub source: Option<String>,
    pub destination: Option<String>,
    pub amount: Option<u64>,
}

/// An `Instruction` as a mathematical value.
pub struct InstructionView {
    pub kind: Seq<char>,
    pub source: Option<Seq<char>>,
    pub destination: Option<Seq<char>>,
    pub amount: Option<u64>,
}

/// The characters of an optional text.
pub open spec fn text_of(text: Option<String>) -> Option<Seq<char>> {
    match text {
        Some(t) => Some(t@),
        None => None,
    }
}

impl View for Instruction {
    type V = InstructionView;

    open spec fn view(&self) -> InstructionView {
        InstructionView {
            kind: self.kind@,
            source: text_of(self.source),
            destination: text_of(self.destination),
            amount: self.amount,
        }
    }
}

/// The balance of one account before and after a transaction.
#[derive(Debug)]
pub struct BalanceEntry {
    pub account: String,
    pub pre_balance: u64,
    pub post_balance: u64,
}

/// A `BalanceEntry` as a mathematical value.
pub struct BalanceEntryView {
    pub account: Seq<char>,
    pub pre_balance: u64,
    pub post_balance: u64,
}

impl View for BalanceEntry {
    type V = BalanceEntryView;

    open spec fn view(&self) -> BalanceEntryView {
        BalanceEntryView {
            account: self.account@,
            pre_balance: self.pre_balance,
            post_balance: self.post_balance,
        }
    }
}

/// One transaction: its signature, its instructions in order, and the
/// balance snapshot of the accounts it touched.
#[derive(Debug)]
pub struct TransactionRecord {
    pub signature: Signature,
    pub instructions: Vec<Instruction>,
    pub balances: Vec<BalanceEntry>,
}

/// A `TransactionRecord` as a mathematical value.
pub struct TransactionView {
    pub signature: Seq<u8>,
    pub instructions: Seq<InstructionView>,
    pub balances: Seq<BalanceEntryView>,
}

impl View for TransactionRecord {
    type V = TransactionView;

    open spec fn view(&self) -> TransactionView {
        TransactionView {
            signature: self.signature@,
            instructions: Seq::new(self.instructions@.len(), |i: int| self.instructions@[i]@),
            balances: Seq::new(self.balances@.len(), |i: int| self.balances@[i]@),
        }
    }
}

/// The characters of each text of a list.
pub open spec fn texts_of(texts: Seq<String>) -> Seq<Seq<char>> {
    Seq::new(texts.len(), |i: int| texts[i]@)
}

/// A list of accounts with one more account seen: appended where it is new,
/// unchanged where the list has it already.
pub open spec fn with_account(accounts: Seq<Seq<char>>, account: Seq<char>) -> Seq<Seq<char>> {
    if accounts.contains(account) {
        accounts
    } else {
        accounts.push(account)
    }
}

/// The accounts of a balance snapshot, each once, in order of first
/// appearance.
pub open spec fn distinct_accounts(balances: Seq<BalanceEntryView>) -> Seq<Seq<char>>
    decreases balances.len(),
{
    if balances.len() == 0 {
        Seq::empty()
    } else {
        with_account(distinct_accounts(balances.drop_last()), balances.last().account)
    }
}

/// Adding an account to a list without repetitions leaves it without
/// repetitions.
pub proof fn lemma_with_account_no_duplicates(accounts: Seq<Seq<char>>, account: Seq<char>)
    requires
        accounts.no_duplicates(),
    ensures
        with_account(accounts, account).no_duplicates(),
        with_account(accounts, account).contains(account),
        forall|a: Seq<char>| accounts.contains(a) ==> with_account(accounts, account).contains(a),
{
    let extended = with_account(accounts, account);
    if !accounts.contains(account) {
        assert(extended[accounts.len() as int] == account);
        assert forall|a: Seq<char>| accounts.contains(a) implies extended.contains(a) by {
            let i = choose|i: int| 0 <= i < accounts.len() && accounts[i] == a;
            assert(extended[i] == a);
        }
    }
}

/// The accounts of a balance snapshot are listed without repetitions.
pub proof fn lemma_distinct_accounts_no_duplicates(balances: Seq<BalanceEntryView>)
    ensures
        distinct_accounts(balances).no_duplicates(),
    decreases balances.len(),
{
    if balances.len() > 0 {
        lemma_distinct_accounts_no_duplicates(balances.drop_last());
        lemma_with_account_no_duplicates(
            distinct_accounts(balances.drop_last()),
            balances.last().account,
        );
    }
}

/// Whether two texts have the same characters.
pub fn same_text(a: &str, b: &str) -> (same: bool)
    ensures
        same == (a@ == b@),
{
    let a = a.to_owned();
    let b = b.to_owned();
    a == b
}

/// The position of a text in a list, or nothing where the list lacks it.
pub fn position_of(texts: &Vec<String>, text: &str) -> (position: Option<usize>)
    ensures
        match position {
            Some(i) => i < texts@.len() && texts@[i as int]@ == text@ && forall|j: int|
                0 <= j < i ==> texts@[j]@ != text@,
            None => !texts_of(texts@).contains(text@),
        },
{
    let mut i: usize = 0;
    while i < texts.len()
        invariant
            i <= texts@.len(),
            forall|j: int| 0 <= j < i ==> texts@[j]@ != text@,
        decreases texts@.len() - i,
    {
        if same_text(texts[i].as_str(), text) {
            return Some(i);
        }
        i += 1;
    }
    None
}

impl TransactionRecord {
    /// The accounts whose earlier transactions may have funded this one: the
    /// accounts of the balance snapshot, each once, in order of first
    /// appearance.
    pub fn candidate_accounts(&self) -> (accounts: Vec<String>)
        ensures
            texts_of(accounts@) == distinct_accounts(self@.balances),
            texts_of(accounts@).no_duplicates(),
    {
        let mut accounts: Vec<String> = Vec::new();
        let mut i: usize = 0;
        assert(self@.balances.take(0) =~= Seq::empty());
        while i < self.balances.len()
            invariant
                i <= self.balances@.len(),
                texts_of(accounts@) == distinct_accounts(self@.balances.take(i as int)),
            decreases self.balances@.len() - i,
        {
            let account = &self.balances[i].account;
            proof {
                let next = self@.balances.take(i + 1);
                assert(next.drop_last() =~= self@.balances.take(i as int));
                assert(next.last().account == account@);
            }
            match position_of(&accounts, account.as_str()) {
                Some(at) => {
                    assert(texts_of(accounts@)[at as int] == account@);
                },
                None => {
                    let ghost before = accounts@;
                    accounts.push(account.clone());
                    assert(texts_of(accounts@) =~= texts_of(before).push(account@));
                },
            }
            i += 1;
        }
        assert(self@.balances.take(i as int) =~= self@.balances);
        proof {
            lemma_distinct_accounts_no_duplicates(self@.balances);
        }
        accounts
    }
}

} // verus!
