//! A small engine for client account bookkeeping over an ordered
//! stream of transaction records: deposits, withdrawals, and the
//! dispute / resolve / chargeback flow. A registry routes each record
//! to its client's account, every account shares one ledger of
//! disputable transactions, and the comma-separated record format is
//! read and written here as well. Amounts are fixed-point integers
//! carrying four decimal places.

use vstd::prelude::*;

mod client;
mod codec;
mod parse;
mod registry;
mod transaction;

pub use client::{
    AccountView, ClientAccount, ClientAccountInfo, LedgerView, amount_fits,
    lemma_dispute_resolve_round_trip, lemma_second_dispute_fails,
    lemma_spec_process_lock_monotonic, lemma_spec_process_wf, spec_apply, spec_chargeback,
    spec_deposit, spec_dispute, spec_process, spec_resolve, spec_validate, spec_withdrawal,
    step_taken,
};
pub use codec::{
    push_amount, push_row, render_report, spec_digits, spec_frac_digits, spec_header,
    spec_render_amount, spec_render_bool, spec_render_magnitude, spec_render_report,
    spec_render_row, spec_trim_zeros,
};
pub use parse::{
    all_digits, is_digit, is_space, parse_amount, parse_kind, parse_record, parse_uint,
    spec_amount_from_parts, spec_find, spec_frac_scaled, spec_lower, spec_parse_amount,
    spec_parse_kind, spec_parse_record, spec_parse_uint, spec_split, spec_trim, spec_trim_back,
    spec_trim_front, spec_uint_value, split, subvec, trim,
};
pub use registry::{
    AccountRegistry, RegistryView, fresh_id, ids_disjoint, info_matches,
    lemma_registry_process_ids_disjoint, spec_register, spec_registry_process,
};
pub use transaction::{Amount, ClientID, Transaction, TransactionID, TransactionType};

verus! {

broadcast use vstd::std_specs::hash::group_hash_axioms;

/// The per-transaction outcome when a record cannot be applied.
#[derive(Debug, Clone, Copy, PartialEq, Eq)]
pub enum Error {
    /// The record was routed to an account whose id differs from the record's.
    WrongAccount,
    /// A withdrawal asked for more than the available funds.
    NoSufficientFunds { client: ClientID, available: Amount, withdrawal: Amount },
    /// The account was locked by an earlier chargeback.
    AccountLocked { client: ClientID },
    /// A dispute, resolve or chargeback referenced a transaction id
    /// that is not in the state it expects.
    NotFoundTransaction { client: ClientID, tx: TransactionID },
    /// A deposit or withdrawal without an amount, or with a negative one.
    InvalidTransaction {
        client: ClientID,
        tx: TransactionID,
        t_type: TransactionType,
        amount: Option<Amount>,
    },
    /// Applying the record would move a balance outside the fixed-point range.
    AmountOverflow { client: ClientID, tx: TransactionID },
}

/// The record of transactions that are eligible for a future dispute.
/// It keeps the pair of (TransactionID, (ClientID, Amount)); a
/// withdrawal is stored with a negative amount, a deposit with a
/// positive one.
pub struct TransactionHashmapDB {
    transactions: std::collections::HashMap<TransactionID, (ClientID, Amount)>,
}

impl View for TransactionHashmapDB {
    type V = Map<TransactionID, (ClientID, Amount)>;

    closed spec fn view(&self) -> Map<TransactionID, (ClientID, Amount)> {
        self.transactions@
    }
}

/// What `TransactionHashmapDB::add_transaction` does to the stored map:
/// deposits are entered with their amount, withdrawals with its negation,
/// and every other kind leaves the map unchanged.
pub open spec fn spec_add_transaction(
    m: Map<TransactionID, (ClientID, Amount)>,
    t: Transaction,
) -> Map<TransactionID, (ClientID, Amount)> {
    match t.t_type() {
        TransactionType::Deposit => match t.amount() {
            Some(amount) => m.insert(t.id(), (t.client_id(), amount)),
            None => m,
        },
        TransactionType::Withdrawal => match t.amount() {
            Some(amount) => m.insert(t.id(), (t.client_id(), (-amount) as Amount)),
            None => m,
        },
        _ => m,
    }
}

impl TransactionHashmapDB {
    pub fn new() -> (db: Self)
        ensures
            db@ == Map::<TransactionID, (ClientID, Amount)>::empty(),
    {
        Self { transactions: std::collections::HashMap::new() }
    }

    /// Add a deposit or withdrawal into the record; any prior entry
    /// with the same id is overwritten.
    pub fn add_transaction(&mut self, transaction: &Transaction)
        requires
            transaction.amount() matches Some(a) ==> a != i64::MIN,
        ensures
            final(self)@ == spec_add_transaction(old(self)@, *transaction),
    {
        match transaction.t_type() {
            TransactionType::Deposit => {
                if let Some(amount) = transaction.amount() {
                    self.transactions.insert(
                        transaction.id(),
                        (transaction.client_id(), amount),
                    );
                }
            },
            TransactionType::Withdrawal => {
                if let Some(amount) = transaction.amount() {
                    self.transactions.insert(
                        transaction.id(),
                        (transaction.client_id(), -amount),
                    );
                }
            },
            _ => {},
        }
    }

    /// Remove and return the entry for a transaction id, or `None` if absent.
    pub fn pop_transaction(&mut self, transaction_id: &TransactionID) -> (r: Option<
        (TransactionID, (ClientID, Amount)),
    >)
        ensures
            final(self)@ == old(self)@.remove(*transaction_id),
            r == if old(self)@.contains_key(*transaction_id) {
                Some((*transaction_id, old(self)@[*transaction_id]))
            } else {
                None::<(TransactionID, (ClientID, Amount))>
            },
    {
        match self.transactions.remove(transaction_id) {
            Some(entry) => Some((*transaction_id, entry)),
            None => None,
        }
    }

    /// Reinsert a formerly disputed entry, making it disputable again.
    pub fn recover_transaction(
        &mut self,
        transaction_id: TransactionID,
        client_id: ClientID,
        amount: Amount,
    )
        ensures
            final(self)@ == old(self)@.insert(transaction_id, (client_id, amount)),
    {
        self.transactions.insert(transaction_id, (client_id, amount));
    }
}

} // verus!
