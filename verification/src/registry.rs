use vstd::prelude::*;

use crate::client::{AccountView, LedgerView, spec_process};
use crate::{Amount, ClientAccount, ClientAccountInfo, ClientID, Error, Transaction,
    TransactionHashmapDB, TransactionID, TransactionType};

verus! {

broadcast use vstd::std_specs::hash::group_hash_axioms;

/// The registry as contracts see it: the per-client account states and
/// the shared ledger of disputable transactions.
#[verifier::ext_equal]
pub ghost struct RegistryView {
    pub accounts: Map<ClientID, AccountView>,
    pub ledger: LedgerView,
}

/// Lazy creation: the account of a client, freshly created with a zero
/// balance when no transaction has referenced the client before.
pub open spec fn spec_register(r: RegistryView, client: ClientID) -> RegistryView {
    if r.accounts.contains_key(client) {
        r
    } else {
        RegistryView {
            accounts: r.accounts.insert(client, AccountView::initial(client)),
            ledger: r.ledger,
        }
    }
}

/// Everything one call of `AccountRegistry::process` does: route the
/// record to its client's account, creating the account first if need
/// be, and apply the record there. A failure is reported, but the
/// created account stays.
pub open spec fn spec_registry_process(r: RegistryView, t: Transaction) -> (
    RegistryView,
    Result<(), Error>,
) {
    let r1 = spec_register(r, t.client_id());
    match spec_process(r1.accounts[t.client_id()], r1.ledger, t) {
        Ok((a, led)) => (
            RegistryView { accounts: r1.accounts.insert(t.client_id(), a), ledger: led },
            Ok(()),
        ),
        Err(e) => (r1, Err(e)),
    }
}

/// A transaction id is in play at most once: ids in the ledger are in
/// no account's disputed map, and no two accounts dispute the same id.
pub open spec fn ids_disjoint(r: RegistryView) -> bool {
    &&& forall|c: ClientID, id: TransactionID|
        r.accounts.contains_key(c) && #[trigger] r.accounts[c].disputed.contains_key(id)
            ==> !r.ledger.contains_key(id)
    &&& forall|c1: ClientID, c2: ClientID, id: TransactionID|
        c1 != c2 && r.accounts.contains_key(c1) && r.accounts.contains_key(c2) && (#[trigger] r
            .accounts[c1].disputed.contains_key(id)) ==> !(#[trigger] r.accounts[c2].disputed
            .contains_key(id))
}

/// A transaction id that no ledger entry and no open dispute carries.
pub open spec fn fresh_id(r: RegistryView, id: TransactionID) -> bool {
    &&& !r.ledger.contains_key(id)
    &&& forall|c: ClientID|
        r.accounts.contains_key(c) ==> !(#[trigger] r.accounts[c].disputed.contains_key(id))
}

/// The disjointness invariant is preserved by every processed record,
/// provided a deposit or withdrawal carries an id not already in play
/// (input ids are expected unique; a reused id is not guarded against).
pub proof fn lemma_registry_process_ids_disjoint(r: RegistryView, t: Transaction)
    requires
        ids_disjoint(r),
        t.t_type() == TransactionType::Deposit || t.t_type() == TransactionType::Withdrawal
            ==> fresh_id(r, t.id()),
    ensures
        ids_disjoint(spec_registry_process(r, t).0),
{
    let r1 = spec_register(r, t.client_id());
    assert(ids_disjoint(r1));
    let client = t.client_id();
    match spec_process(r1.accounts[client], r1.ledger, t) {
        Ok((a, led)) => {
            let r2 = spec_registry_process(r, t).0;
            let a0 = r1.accounts[client];
            match t.t_type() {
                TransactionType::Deposit | TransactionType::Withdrawal => {
                    assert forall|c: ClientID, id: TransactionID|
                        r2.accounts.contains_key(c) && #[trigger] r2.accounts[c]
                            .disputed.contains_key(id) implies !r2.ledger.contains_key(id) by {
                        assert(r1.accounts.contains_key(c));
                        assert(r1.accounts[c].disputed.contains_key(id));
                    }
                },
                TransactionType::Dispute => {
                    assert forall|c: ClientID, id: TransactionID|
                        r2.accounts.contains_key(c) && #[trigger] r2.accounts[c]
                            .disputed.contains_key(id) implies !r2.ledger.contains_key(id) by {
                        if c == client && id == t.id() {
                        } else {
                            assert(r1.accounts.contains_key(c));
                            assert(r1.accounts[c].disputed.contains_key(id));
                        }
                    }
                    assert forall|c1: ClientID, c2: ClientID, id: TransactionID|
                        c1 != c2 && r2.accounts.contains_key(c1) && r2.accounts.contains_key(c2)
                            && (#[trigger] r2.accounts[c1].disputed.contains_key(
                            id,
                        )) implies !(#[trigger] r2.accounts[c2].disputed.contains_key(id)) by {
                        if c1 == client && id == t.id() {
                            assert(r1.ledger.contains_key(id));
                            assert(r1.accounts.contains_key(c2));
                        } else {
                            assert(r1.accounts[c1].disputed.contains_key(id));
                        }
                    }
                },
                TransactionType::Resolve => {
                    assert forall|c: ClientID, id: TransactionID|
                        r2.accounts.contains_key(c) && #[trigger] r2.accounts[c]
                            .disputed.contains_key(id) implies !r2.ledger.contains_key(id) by {
                        assert(r1.accounts.contains_key(c));
                        assert(r1.accounts[c].disputed.contains_key(id));
                        if id == t.id() {
                            if c == client {
                            } else {
                                assert(a0.disputed.contains_key(t.id()));
                            }
                        }
                    }
                },
                TransactionType::Chargeback => {
                    assert forall|c: ClientID, id: TransactionID|
                        r2.accounts.contains_key(c) && #[trigger] r2.accounts[c]
                            .disputed.contains_key(id) implies !r2.ledger.contains_key(id) by {
                        assert(r1.accounts.contains_key(c));
                        assert(r1.accounts[c].disputed.contains_key(id));
                    }
                },
            }
        },
        Err(_) => {},
    }
}

/// The registry of all client accounts, created lazily on the first
/// transaction that references a client, together with the shared
/// transaction ledger.
pub struct AccountRegistry {
    accounts: Vec<ClientAccount>,
    index: std::collections::HashMap<ClientID, usize>,
    ledger: TransactionHashmapDB,
}

impl View for AccountRegistry {
    type V = RegistryView;

    closed spec fn view(&self) -> RegistryView {
        RegistryView {
            accounts: Map::new(
                |c: ClientID| self.index@.contains_key(c),
                |c: ClientID| self.accounts@[self.index@[c] as int]@,
            ),
            ledger: self.ledger@,
        }
    }
}

impl AccountRegistry {
    /// Well-formedness: the index maps each known client id to the
    /// position of its account, every account carries its own client
    /// id and the balance invariant, and no client appears twice.
    pub closed spec fn wf(&self) -> bool {
        &&& forall|c: ClientID| #[trigger]
            self.index@.contains_key(c) ==> self.index@[c] < self.accounts@.len()
                && self.accounts@[self.index@[c] as int]@.client == c
        &&& forall|i: int|
            0 <= i < self.accounts@.len() ==> self.index@.contains_key(
                (#[trigger] self.accounts@[i])@.client,
            ) && self.index@[self.accounts@[i]@.client] == i
        &&& forall|i: int| 0 <= i < self.accounts@.len() ==> (#[trigger] self.accounts@[i])@.wf()
    }

    pub fn new() -> (r: Self)
        ensures
            r.wf(),
            r@ == (RegistryView {
                accounts: Map::<ClientID, AccountView>::empty(),
                ledger: Map::<TransactionID, (ClientID, Amount)>::empty(),
            }),
    {
        let r = Self {
            accounts: Vec::new(),
            index: std::collections::HashMap::new(),
            ledger: TransactionHashmapDB::new(),
        };
        proof {
            assert(r@.accounts =~= Map::<ClientID, AccountView>::empty());
            assert(r@ =~= RegistryView {
                accounts: Map::<ClientID, AccountView>::empty(),
                ledger: Map::<TransactionID, (ClientID, Amount)>::empty(),
            });
        }
        r
    }

    /// Apply one input record: route it to its client's account,
    /// creating the account on first sight, and process it there.
    pub fn process(&mut self, transaction: &Transaction) -> (r: Result<(), Error>)
        requires
            old(self).wf(),
        ensures
            final(self).wf(),
            final(self)@ == spec_registry_process(old(self)@, *transaction).0,
            r is Ok <==> spec_registry_process(old(self)@, *transaction).1 is Ok,
            r matches Err(e) ==> spec_registry_process(old(self)@, *transaction).1 == Err::<
                (),
                Error,
            >(e),
    {
        let client = transaction.client_id();
        let idx: usize = match self.index.get(&client) {
            Some(i) => *i,
            None => {
                let i = self.accounts.len();
                self.accounts.push(ClientAccount::new(client));
                self.index.insert(client, i);
                i
            },
        };
        let ghost r1 = spec_register(old(self)@, client);
        proof {
            assert(self@.accounts =~= r1.accounts);
            assert(self@ =~= r1);
            assert(self.wf());
            assert(self@.accounts.contains_key(client));
            assert(self.index@[client] == idx);
            assert(self@.accounts[client] == self.accounts@[idx as int]@);
        }
        let account = &mut self.accounts[idx];
        let r = account.process_transaction(&mut self.ledger, transaction);
        proof {
            match spec_process(r1.accounts[client], r1.ledger, *transaction) {
                Ok((a, led)) => {
                    assert(a.client == client);
                    assert(self@.accounts =~= r1.accounts.insert(client, a));
                    assert(self@ =~= spec_registry_process(old(self)@, *transaction).0);
                    assert(r is Ok);
                },
                Err(e) => {
                    assert(self@.accounts =~= r1.accounts);
                    assert(self@ =~= r1);
                    assert(r == Err::<(), Error>(e));
                },
            }
        }
        r
    }

    /// One output record per client, in order of first appearance;
    /// each record carries that account's balances and lock flag.
    pub fn snapshot(&self) -> (infos: Vec<ClientAccountInfo>)
        requires
            self.wf(),
        ensures
            forall|i: int|
                0 <= i < infos@.len() ==> self@.accounts.contains_key(
                    (#[trigger] infos@[i]).client,
                ) && info_matches(infos@[i], self@.accounts[infos@[i].client]),
            forall|i: int, j: int|
                0 <= i < infos@.len() && 0 <= j < infos@.len() && i != j ==> (#[trigger] infos@[i])
                    .client != (#[trigger] infos@[j]).client,
            forall|c: ClientID|
                self@.accounts.contains_key(c) ==> exists|i: int|
                    0 <= i < infos@.len() && (#[trigger] infos@[i]).client == c,
    {
        let mut infos: Vec<ClientAccountInfo> = Vec::new();
        let n = self.accounts.len();
        let mut j: usize = 0;
        while j < n
            invariant
                n == self.accounts@.len(),
                j <= n,
                self.wf(),
                infos@.len() == j,
                forall|i: int| 0 <= i < j ==> #[trigger] infos@[i] == self.accounts@[i].info,
            decreases n - j,
        {
            infos.push(self.accounts[j].info);
            j += 1;
        }
        proof {
            assert forall|c: ClientID| self@.accounts.contains_key(c) implies exists|i: int|
                0 <= i < infos@.len() && (#[trigger] infos@[i]).client == c by {
                let i = self.index@[c] as int;
                assert(0 <= i < infos@.len() && infos@[i].client == c);
            }
        }
        infos
    }
}

/// Whether an output record shows exactly the state of an account.
pub open spec fn info_matches(info: ClientAccountInfo, a: AccountView) -> bool {
    &&& info.client == a.client
    &&& info.available == a.available
    &&& info.held == a.held
    &&& info.total == a.total
    &&& info.is_locked == a.locked
}

} // verus!
