use vstd::prelude::*;

use crate::{
    Amount, ClientID, Error, Transaction, TransactionHashmapDB, TransactionID, TransactionType,
};

verus! {

broadcast use vstd::std_specs::hash::group_hash_axioms;

/// The ledger of disputable transactions, as contracts see it.
pub type LedgerView = Map<TransactionID, (ClientID, Amount)>;

/// The balances of one client account.
#[derive(Debug, Clone, Copy)]
pub struct ClientAccountInfo {
    pub client: ClientID,
    /// The funds that are available for withdrawal.
    pub available: Amount,
    /// The funds that are held for dispute.
    pub held: Amount,
    /// The funds that are available or held.
    pub total: Amount,
    /// The account is locked once a chargeback occurs.
    pub is_locked: bool,
}

impl ClientAccountInfo {
    pub fn new(client: ClientID) -> (info: Self)
        ensures
            info == (ClientAccountInfo {
                client,
                available: 0,
                held: 0,
                total: 0,
                is_locked: false,
            }),
    {
        Self { client, available: 0, held: 0, total: 0, is_locked: false }
    }
}

/// The state of one client account as contracts see it: the balance
/// fields and the map from disputed transaction ids to the amounts
/// moved into `held` for them.
#[verifier::ext_equal]
pub ghost struct AccountView {
    pub client: ClientID,
    pub available: Amount,
    pub held: Amount,
    pub total: Amount,
    pub locked: bool,
    pub disputed: Map<TransactionID, Amount>,
}

impl AccountView {
    /// The balance invariant: the total is the available and the held
    /// funds together.
    pub open spec fn wf(self) -> bool {
        self.total == self.available + self.held
    }

    /// The state of a freshly created account.
    pub open spec fn initial(client: ClientID) -> AccountView {
        AccountView {
            client,
            available: 0,
            held: 0,
            total: 0,
            locked: false,
            disputed: Map::empty(),
        }
    }
}

/// The account of a client; it processes all transactions belonging to
/// the account against a shared transaction ledger.
pub struct ClientAccount {
    pub info: ClientAccountInfo,
    /// The transactions that are in dispute, with the amount each one
    /// moved into held funds.
    pub dispute_transactions: std::collections::HashMap<TransactionID, Amount>,
}

impl View for ClientAccount {
    type V = AccountView;

    open spec fn view(&self) -> AccountView {
        AccountView {
            client: self.info.client,
            available: self.info.available,
            held: self.info.held,
            total: self.info.total,
            locked: self.info.is_locked,
            disputed: self.dispute_transactions@,
        }
    }
}

/// Whether a mathematical amount stays inside the fixed-point range.
pub open spec fn amount_fits(x: int) -> bool {
    i64::MIN <= x <= i64::MAX
}

/// The validation step of `process_transaction`: the failure it
/// reports, or `None` when the record may be applied. A locked account
/// refuses everything; the record must belong to this account; a
/// deposit or withdrawal must carry a non-negative amount.
pub open spec fn spec_validate(a: AccountView, t: Transaction) -> Option<Error> {
    if a.locked {
        Some(Error::AccountLocked { client: a.client })
    } else if t.client_id() != a.client {
        Some(Error::WrongAccount)
    } else {
        match t.t_type() {
            TransactionType::Deposit | TransactionType::Withdrawal => match t.amount() {
                None => Some(Error::InvalidTransaction {
                    client: a.client,
                    tx: t.id(),
                    t_type: t.t_type(),
                    amount: t.amount(),
                }),
                Some(amount) => if amount < 0 {
                    Some(Error::InvalidTransaction {
                        client: a.client,
                        tx: t.id(),
                        t_type: t.t_type(),
                        amount: t.amount(),
                    })
                } else {
                    None
                },
            },
            _ => None,
        }
    }
}

/// What a validated deposit does: both available and total grow by the
/// amount and the transaction is recorded in the ledger, unless a
/// balance would leave the fixed-point range.
pub open spec fn spec_deposit(a: AccountView, led: LedgerView, t: Transaction) -> Result<
    (AccountView, LedgerView),
    Error,
> {
    match t.amount() {
        Some(amount) => if !amount_fits(a.available + amount) || !amount_fits(
            a.total + amount,
        ) {
            Err(Error::AmountOverflow { client: a.client, tx: t.id() })
        } else {
            Ok((
                AccountView {
                    available: (a.available + amount) as Amount,
                    total: (a.total + amount) as Amount,
                    ..a
                },
                led.insert(t.id(), (a.client, amount)),
            ))
        },
        None => Ok((a, led)),
    }
}

/// What a validated withdrawal does: it fails when the available (or,
/// defensively, the total) funds are short; otherwise both available
/// and total shrink by the amount and the transaction is recorded in
/// the ledger with a negative amount.
pub open spec fn spec_withdrawal(a: AccountView, led: LedgerView, t: Transaction) -> Result<
    (AccountView, LedgerView),
    Error,
> {
    match t.amount() {
        Some(amount) => if a.total < amount || a.available < amount {
            Err(Error::NoSufficientFunds {
                client: a.client,
                available: a.available,
                withdrawal: amount,
            })
        } else {
            Ok((
                AccountView {
                    available: (a.available - amount) as Amount,
                    total: (a.total - amount) as Amount,
                    ..a
                },
                led.insert(t.id(), (a.client, (-amount) as Amount)),
            ))
        },
        None => Ok((a, led)),
    }
}

/// What a dispute does: the referenced entry leaves the ledger, its
/// amount moves from available to held, and the id is tracked as
/// disputed. It fails when the id is not in the ledger, or when the
/// entry belongs to another client. A disputed withdrawal carries a
/// negative amount, so it raises available and lowers held.
pub open spec fn spec_dispute(a: AccountView, led: LedgerView, t: Transaction) -> Result<
    (AccountView, LedgerView),
    Error,
> {
    if !led.contains_key(t.id()) {
        Err(Error::NotFoundTransaction { client: a.client, tx: t.id() })
    } else {
        let (owner, amount) = led[t.id()];
        if owner != a.client {
            Err(Error::NotFoundTransaction { client: a.client, tx: t.id() })
        } else if !amount_fits(a.available - amount) || !amount_fits(a.held + amount) {
            Err(Error::AmountOverflow { client: a.client, tx: t.id() })
        } else {
            Ok((
                AccountView {
                    available: (a.available - amount) as Amount,
                    held: (a.held + amount) as Amount,
                    disputed: a.disputed.insert(t.id(), amount),
                    ..a
                },
                led.remove(t.id()),
            ))
        }
    }
}

/// What a resolve does: the disputed amount moves back from held to
/// available and the transaction returns to the ledger, disputable
/// again. It fails when the id is not currently disputed.
pub open spec fn spec_resolve(a: AccountView, led: LedgerView, t: Transaction) -> Result<
    (AccountView, LedgerView),
    Error,
> {
    if !a.disputed.contains_key(t.id()) {
        Err(Error::NotFoundTransaction { client: a.client, tx: t.id() })
    } else {
        let amount = a.disputed[t.id()];
        if !amount_fits(a.held - amount) || !amount_fits(a.available + amount) {
            Err(Error::AmountOverflow { client: a.client, tx: t.id() })
        } else {
            Ok((
                AccountView {
                    available: (a.available + amount) as Amount,
                    held: (a.held - amount) as Amount,
                    disputed: a.disputed.remove(t.id()),
                    ..a
                },
                led.insert(t.id(), (a.client, amount)),
            ))
        }
    }
}

/// What a chargeback does: the disputed amount leaves both held and
/// total, the account locks permanently, and the transaction never
/// returns to the ledger. It fails when the id is not currently
/// disputed.
pub open spec fn spec_chargeback(a: AccountView, led: LedgerView, t: Transaction) -> Result<
    (AccountView, LedgerView),
    Error,
> {
    if !a.disputed.contains_key(t.id()) {
        Err(Error::NotFoundTransaction { client: a.client, tx: t.id() })
    } else {
        let amount = a.disputed[t.id()];
        if !amount_fits(a.held - amount) || !amount_fits(a.total - amount) {
            Err(Error::AmountOverflow { client: a.client, tx: t.id() })
        } else {
            Ok((
                AccountView {
                    held: (a.held - amount) as Amount,
                    total: (a.total - amount) as Amount,
                    locked: true,
                    disputed: a.disputed.remove(t.id()),
                    ..a
                },
                led,
            ))
        }
    }
}

/// The dispatch step of `process_transaction`, after validation.
pub open spec fn spec_apply(a: AccountView, led: LedgerView, t: Transaction) -> Result<
    (AccountView, LedgerView),
    Error,
> {
    match t.t_type() {
        TransactionType::Deposit => spec_deposit(a, led, t),
        TransactionType::Withdrawal => spec_withdrawal(a, led, t),
        TransactionType::Dispute => spec_dispute(a, led, t),
        TransactionType::Resolve => spec_resolve(a, led, t),
        TransactionType::Chargeback => spec_chargeback(a, led, t),
    }
}

/// Everything one call of `process_transaction` does to an account and
/// the shared ledger: validate, then apply by kind. On an error,
/// account and ledger are unchanged.
pub open spec fn spec_process(a: AccountView, led: LedgerView, t: Transaction) -> Result<
    (AccountView, LedgerView),
    Error,
> {
    match spec_validate(a, t) {
        Some(e) => Err(e),
        None => spec_apply(a, led, t),
    }
}

impl ClientAccount {
    pub fn new(client_id: ClientID) -> (account: Self)
        ensures
            account@ == AccountView::initial(client_id),
    {
        let account = Self {
            info: ClientAccountInfo::new(client_id),
            dispute_transactions: std::collections::HashMap::new(),
        };
        proof {
            assert(account@ =~= AccountView::initial(client_id));
        }
        account
    }

    /// Check that this account may apply the record at all: it reports
    /// exactly the failure `spec_validate` names, if any.
    fn validate_transaction(&self, transaction: &Transaction) -> (r: Result<(), Error>)
        ensures
            r == match spec_validate(self@, *transaction) {
                Some(e) => Err::<(), Error>(e),
                None => Ok::<(), Error>(()),
            },
    {
        if self.info.is_locked {
            return Err(Error::AccountLocked { client: self.info.client });
        }
        if transaction.client_id() != self.info.client {
            return Err(Error::WrongAccount);
        }
        match transaction.t_type() {
            TransactionType::Deposit | TransactionType::Withdrawal => {
                match transaction.amount() {
                    None => Err(Error::InvalidTransaction {
                        client: self.info.client,
                        tx: transaction.id(),
                        t_type: transaction.t_type(),
                        amount: transaction.amount(),
                    }),
                    Some(amount) => if amount < 0 {
                        Err(Error::InvalidTransaction {
                            client: self.info.client,
                            tx: transaction.id(),
                            t_type: transaction.t_type(),
                            amount: transaction.amount(),
                        })
                    } else {
                        Ok(())
                    },
                }
            },
            _ => Ok(()),
        }
    }

    /// Deposit the record's amount into the account and record the
    /// transaction in the ledger.
    fn deposit(&mut self, db: &mut TransactionHashmapDB, transaction: &Transaction) -> (r:
        Result<(), Error>)
        requires
            spec_validate(old(self)@, *transaction) is None,
            transaction.t_type() == TransactionType::Deposit,
        ensures
            step_taken(
                old(self)@,
                old(db)@,
                final(self)@,
                final(db)@,
                spec_deposit(old(self)@, old(db)@, *transaction),
                r,
            ),
    {
        if let Some(amount) = transaction.amount() {
            let new_available = match self.info.available.checked_add(amount) {
                Some(v) => v,
                None => {
                    return Err(Error::AmountOverflow {
                        client: self.info.client,
                        tx: transaction.id(),
                    });
                },
            };
            let new_total = match self.info.total.checked_add(amount) {
                Some(v) => v,
                None => {
                    return Err(Error::AmountOverflow {
                        client: self.info.client,
                        tx: transaction.id(),
                    });
                },
            };
            self.info.available = new_available;
            self.info.total = new_total;
            db.add_transaction(transaction);
        }
        Ok(())
    }

    /// Withdraw the record's amount from the account, when the
    /// available funds cover it, and record the transaction in the
    /// ledger with a negative amount.
    pub fn withdrawal(&mut self, db: &mut TransactionHashmapDB, transaction: &Transaction) -> (r:
        Result<(), Error>)
        requires
            spec_validate(old(self)@, *transaction) is None,
            transaction.t_type() == TransactionType::Withdrawal,
        ensures
            step_taken(
                old(self)@,
                old(db)@,
                final(self)@,
                final(db)@,
                spec_withdrawal(old(self)@, old(db)@, *transaction),
                r,
            ),
    {
        if let Some(amount) = transaction.amount() {
            if self.info.total < amount || self.info.available < amount {
                return Err(Error::NoSufficientFunds {
                    client: self.info.client,
                    available: self.info.available,
                    withdrawal: amount,
                });
            }
            self.info.available = self.info.available - amount;
            self.info.total = self.info.total - amount;
            db.add_transaction(transaction);
        }
        Ok(())
    }

    /// Open a dispute against a previous deposit or withdrawal: the
    /// entry leaves the ledger and its amount moves into held funds.
    pub fn dispute(&mut self, db: &mut TransactionHashmapDB, transaction: &Transaction) -> (r:
        Result<(), Error>)
        requires
            spec_validate(old(self)@, *transaction) is None,
            transaction.t_type() == TransactionType::Dispute,
        ensures
            step_taken(
                old(self)@,
                old(db)@,
                final(self)@,
                final(db)@,
                spec_dispute(old(self)@, old(db)@, *transaction),
                r,
            ),
    {
        let tx_id = transaction.id();
        match db.pop_transaction(&tx_id) {
            Some((_, (client_id, tx_amount))) => {
                proof {
                    assert(old(db)@.remove(tx_id).insert(tx_id, (client_id, tx_amount)) =~= old(
                        db,
                    )@);
                }
                if client_id != self.info.client {
                    db.recover_transaction(tx_id, client_id, tx_amount);
                    return Err(Error::NotFoundTransaction {
                        client: self.info.client,
                        tx: tx_id,
                    });
                }
                let new_available = match self.info.available.checked_sub(tx_amount) {
                    Some(v) => v,
                    None => {
                        db.recover_transaction(tx_id, client_id, tx_amount);
                        return Err(Error::AmountOverflow {
                            client: self.info.client,
                            tx: tx_id,
                        });
                    },
                };
                let new_held = match self.info.held.checked_add(tx_amount) {
                    Some(v) => v,
                    None => {
                        db.recover_transaction(tx_id, client_id, tx_amount);
                        return Err(Error::AmountOverflow {
                            client: self.info.client,
                            tx: tx_id,
                        });
                    },
                };
                self.dispute_transactions.insert(tx_id, tx_amount);
                self.info.available = new_available;
                self.info.held = new_held;
                Ok(())
            },
            None => {
                proof {
                    assert(old(db)@.remove(tx_id) =~= old(db)@);
                }
                Err(Error::NotFoundTransaction { client: self.info.client, tx: tx_id })
            },
        }
    }

    /// Resolve a previous dispute: the held amount returns to
    /// available and the transaction returns to the ledger.
    pub fn resolve(&mut self, db: &mut TransactionHashmapDB, transaction: &Transaction) -> (r:
        Result<(), Error>)
        requires
            spec_validate(old(self)@, *transaction) is None,
            transaction.t_type() == TransactionType::Resolve,
        ensures
            step_taken(
                old(self)@,
                old(db)@,
                final(self)@,
                final(db)@,
                spec_resolve(old(self)@, old(db)@, *transaction),
                r,
            ),
    {
        let tx_id = transaction.id();
        let amount = match self.dispute_transactions.get(&tx_id) {
            Some(amount) => *amount,
            None => {
                return Err(Error::NotFoundTransaction {
                    client: self.info.client,
                    tx: tx_id,
                });
            },
        };
        let new_held = match self.info.held.checked_sub(amount) {
            Some(v) => v,
            None => {
                return Err(Error::AmountOverflow { client: self.info.client, tx: tx_id });
            },
        };
        let new_available = match self.info.available.checked_add(amount) {
            Some(v) => v,
            None => {
                return Err(Error::AmountOverflow { client: self.info.client, tx: tx_id });
            },
        };
        self.dispute_transactions.remove(&tx_id);
        self.info.held = new_held;
        self.info.available = new_available;
        db.recover_transaction(tx_id, self.info.client, amount);
        Ok(())
    }

    /// Settle a dispute against the client: the held amount leaves the
    /// account for good and the account locks permanently.
    pub fn chargeback(&mut self, db: &mut TransactionHashmapDB, transaction: &Transaction) -> (r:
        Result<(), Error>)
        requires
            spec_validate(old(self)@, *transaction) is None,
            transaction.t_type() == TransactionType::Chargeback,
        ensures
            step_taken(
                old(self)@,
                old(db)@,
                final(self)@,
                final(db)@,
                spec_chargeback(old(self)@, old(db)@, *transaction),
                r,
            ),
    {
        let tx_id = transaction.id();
        let amount = match self.dispute_transactions.get(&tx_id) {
            Some(amount) => *amount,
            None => {
                return Err(Error::NotFoundTransaction {
                    client: self.info.client,
                    tx: tx_id,
                });
            },
        };
        let new_held = match self.info.held.checked_sub(amount) {
            Some(v) => v,
            None => {
                return Err(Error::AmountOverflow { client: self.info.client, tx: tx_id });
            },
        };
        let new_total = match self.info.total.checked_sub(amount) {
            Some(v) => v,
            None => {
                return Err(Error::AmountOverflow { client: self.info.client, tx: tx_id });
            },
        };
        self.dispute_transactions.remove(&tx_id);
        self.info.held = new_held;
        self.info.total = new_total;
        self.info.is_locked = true;
        Ok(())
    }

    /// Apply one input record to this account and the shared ledger:
    /// validation first, then the mutation of its kind. A failure is
    /// returned and leaves both exactly as they were.
    pub fn process_transaction(
        &mut self,
        db: &mut TransactionHashmapDB,
        transaction: &Transaction,
    ) -> (r: Result<(), Error>)
        ensures
            step_taken(
                old(self)@,
                old(db)@,
                final(self)@,
                final(db)@,
                spec_process(old(self)@, old(db)@, *transaction),
                r,
            ),
            old(self)@.wf() ==> final(self)@.wf(),
            old(self)@.locked ==> final(self)@.locked,
    {
        if let Err(e) = self.validate_transaction(transaction) {
            return Err(e);
        }
        let r = match transaction.t_type() {
            TransactionType::Deposit => self.deposit(db, transaction),
            TransactionType::Withdrawal => self.withdrawal(db, transaction),
            TransactionType::Dispute => self.dispute(db, transaction),
            TransactionType::Resolve => self.resolve(db, transaction),
            TransactionType::Chargeback => self.chargeback(db, transaction),
        };
        proof {
            if old(self)@.wf() {
                lemma_spec_process_wf(old(self)@, old(db)@, *transaction);
            }
            if old(self)@.locked {
                lemma_spec_process_lock_monotonic(old(self)@, old(db)@, *transaction);
            }
        }
        r
    }

    /// The amount currently held for a disputed transaction id, or
    /// `None` when that id is not under dispute here.
    pub fn disputed_amount(&self, tx_id: TransactionID) -> (r: Option<Amount>)
        ensures
            r == if self@.disputed.contains_key(tx_id) {
                Some(self@.disputed[tx_id])
            } else {
                None::<Amount>
            },
    {
        match self.dispute_transactions.get(&tx_id) {
            Some(amount) => Some(*amount),
            None => None,
        }
    }

    /// Whether no dispute is currently open on this account.
    pub fn disputed_is_empty(&self) -> (r: bool)
        ensures
            r == (self@.disputed == Map::<TransactionID, Amount>::empty()),
    {
        let r = self.dispute_transactions.is_empty();
        proof {
            if self@.disputed.dom().is_empty() {
                assert(self@.disputed =~= Map::<TransactionID, Amount>::empty());
            }
        }
        r
    }
}

/// How an executed step relates to its specification: on success the
/// new account and ledger are the specified ones; on failure the
/// specified error comes back and nothing has changed.
pub open spec fn step_taken(
    a0: AccountView,
    l0: LedgerView,
    a1: AccountView,
    l1: LedgerView,
    step: Result<(AccountView, LedgerView), Error>,
    r: Result<(), Error>,
) -> bool {
    match r {
        Ok(()) => step matches Ok(s) && a1 == s.0 && l1 == s.1,
        Err(e) => step == Err::<(AccountView, LedgerView), Error>(e) && a1 == a0 && l1 == l0,
    }
}

/// Round trip: after a successful dispute, a resolve of the same
/// transaction id by the same client succeeds, restores the account to
/// its pre-dispute state — the available/held split included — and puts
/// the entry back into the ledger unchanged, so a second dispute of
/// that id succeeds again.
pub proof fn lemma_dispute_resolve_round_trip(
    a: AccountView,
    led: LedgerView,
    d: Transaction,
    rs: Transaction,
)
    requires
        d.t_type() == TransactionType::Dispute,
        rs.t_type() == TransactionType::Resolve,
        rs.client_id() == d.client_id(),
        rs.id() == d.id(),
        !a.disputed.contains_key(d.id()),
        spec_process(a, led, d) is Ok,
    ensures
        ({
            let (a1, l1) = spec_process(a, led, d)->Ok_0;
            spec_process(a1, l1, rs) == Ok::<(AccountView, LedgerView), Error>((a, led))
        }),
        ({
            let (a1, l1) = spec_process(a, led, d)->Ok_0;
            spec_process(a1, l1, rs) matches Ok(s) ==> spec_process(s.0, s.1, d) is Ok
        }),
{
    let (a1, l1) = spec_process(a, led, d)->Ok_0;
    let amount = led[d.id()].1;
    assert(a1.disputed.remove(d.id()) =~= a.disputed);
    assert(l1.insert(d.id(), (a.client, amount)) =~= led);
    let (a2, l2) = spec_process(a1, l1, rs)->Ok_0;
    assert(a2 =~= a);
}

/// Idempotence breaking: while a transaction id is disputed and not
/// yet resolved, a second dispute of the same id fails with
/// `NotFoundTransaction`, because the entry has left the ledger.
pub proof fn lemma_second_dispute_fails(a: AccountView, led: LedgerView, d: Transaction)
    requires
        d.t_type() == TransactionType::Dispute,
        spec_process(a, led, d) is Ok,
    ensures
        ({
            let (a1, l1) = spec_process(a, led, d)->Ok_0;
            spec_process(a1, l1, d) == Err::<(AccountView, LedgerView), Error>(
                Error::NotFoundTransaction { client: a.client, tx: d.id() },
            )
        }),
{
}

/// The balance invariant `total == available + held` is preserved by
/// every processed transaction, whatever its outcome.
pub proof fn lemma_spec_process_wf(a: AccountView, led: LedgerView, t: Transaction)
    requires
        a.wf(),
    ensures
        match spec_process(a, led, t) {
            Ok((a1, l1)) => a1.wf(),
            Err(_) => true,
        },
{
}

/// A locked account never unlocks: every processed transaction keeps
/// the lock.
pub proof fn lemma_spec_process_lock_monotonic(a: AccountView, led: LedgerView, t: Transaction)
    requires
        a.locked,
    ensures
        match spec_process(a, led, t) {
            Ok((a1, l1)) => a1.locked,
            Err(_) => true,
        },
{
}

} // verus!
