use vstd::prelude::*;

verus! {

/// Identifier of a client account.
pub type ClientID = u16;

/// Identifier of a deposit or withdrawal record.
pub type TransactionID = u32;

/// A money amount in fixed-point form: one unit is 1/10_000 of the
/// currency, so four decimal places are carried exactly.
pub type Amount = i64;

/// The closed set of input record kinds.
#[derive(Debug, Clone, Copy, PartialEq, Eq, Structural)]
pub enum TransactionType {
    Deposit,
    Withdrawal,
    Dispute,
    Resolve,
    Chargeback,
}

/// One immutable input event: a kind, the owning client, the
/// transaction id it carries or references, and, for deposits and
/// withdrawals, the moved amount.
#[derive(Debug, Clone, Copy)]
pub struct Transaction {
    t_type: TransactionType,
    client: ClientID,
    tx: TransactionID,
    amount: Option<Amount>,
}

impl Transaction {
    pub closed spec fn spec_t_type(&self) -> TransactionType {
        self.t_type
    }

    pub closed spec fn spec_client_id(&self) -> ClientID {
        self.client
    }

    pub closed spec fn spec_id(&self) -> TransactionID {
        self.tx
    }

    pub closed spec fn spec_amount(&self) -> Option<Amount> {
        self.amount
    }

    pub fn new(
        t_type: TransactionType,
        client: ClientID,
        tx: TransactionID,
        amount: Option<Amount>,
    ) -> (t: Self)
        ensures
            t.spec_t_type() == t_type,
            t.spec_client_id() == client,
            t.spec_id() == tx,
            t.spec_amount() == amount,
    {
        Self { t_type, client, tx, amount }
    }

    #[verifier::when_used_as_spec(spec_t_type)]
    pub fn t_type(&self) -> (k: TransactionType)
        ensures
            k == self.spec_t_type(),
    {
        self.t_type
    }

    #[verifier::when_used_as_spec(spec_client_id)]
    pub fn client_id(&self) -> (c: ClientID)
        ensures
            c == self.spec_client_id(),
    {
        self.client
    }

    #[verifier::when_used_as_spec(spec_id)]
    pub fn id(&self) -> (i: TransactionID)
        ensures
            i == self.spec_id(),
    {
        self.tx
    }

    #[verifier::when_used_as_spec(spec_amount)]
    pub fn amount(&self) -> (a: Option<Amount>)
        ensures
            a == self.spec_amount(),
    {
        self.amount
    }
}

} // verus!
