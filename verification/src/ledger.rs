//! The ledger store: client accounts keyed by client id, and retained
//! deposit/withdrawal entries keyed by transaction id, together with the
//! mathematical view of the whole store and its well-formedness predicate.

use std::collections::HashMap;
use vstd::prelude::*;

verus! {

broadcast use vstd::std_specs::hash::group_hash_axioms;

/// Kind of a retained ledger entry. Only deposits and withdrawals create
/// entries, because only they can later be disputed.
#[derive(Clone, Copy, Debug, PartialEq, Eq, Structural)]
pub enum TxKind {
    Deposit,
    Withdrawal,
}

/// One client account. All monetary fields are fixed-point decimal amounts in
/// units of one ten-thousandth (four fractional digits).
#[derive(Clone, Copy, Debug, PartialEq, Eq, Structural)]
pub struct ClientAccount {
    /// Client id.
    pub client: u16,
    /// Funds usable for withdrawal or further disputes.
    pub available: i64,
    /// Funds frozen pending dispute resolution.
    pub held: i64,
    /// Funds available or held; equals `available + held` at all times.
    pub total: i64,
    /// Set once a chargeback occurs; never cleared within a run.
    pub locked: bool,
}

/// A retained transaction record, kept so that later dispute, resolve and
/// chargeback events can refer back to it by transaction id.
#[derive(Clone, Copy, Debug, PartialEq, Eq, Structural)]
pub struct LedgerEntry {
    /// Transaction id, unique among deposit/withdrawal entries.
    pub tx: u32,
    /// Owning client.
    pub client: u16,
    /// Fixed-point amount; always strictly positive.
    pub amount: i64,
    /// Deposit or withdrawal.
    pub kind: TxKind,
    /// Whether this entry is currently under dispute.
    pub disputed: bool,
}

/// The mathematical state of the whole store: the account map, the entry map,
/// and the client ids in order of first appearance (used only to enumerate
/// accounts deterministically).
#[verifier::ext_equal]
pub struct LedgerView {
    pub accounts: Map<u16, ClientAccount>,
    pub entries: Map<u32, LedgerEntry>,
    pub clients: Seq<u16>,
}

/// A freshly created account: all balances zero, not locked.
pub open spec fn fresh_account(client: u16) -> ClientAccount {
    ClientAccount { client, available: 0, held: 0, total: 0, locked: false }
}

/// Well-formedness of one account stored under key `c`: the key matches the
/// account's own client id and the balance equation holds exactly.
pub open spec fn account_wf(c: u16, a: ClientAccount) -> bool {
    &&& a.client == c
    &&& a.total == a.available + a.held
}

/// Well-formedness of one entry stored under key `t`: the key matches the
/// entry's own transaction id and the amount is strictly positive.
pub open spec fn entry_wf(t: u32, e: LedgerEntry) -> bool {
    &&& e.tx == t
    &&& e.amount > 0
}

impl LedgerView {
    /// The store invariant: every account satisfies `total == available +
    /// held`, every entry carries a positive amount, and the client list names
    /// exactly the account keys, each once.
    pub open spec fn wf(self) -> bool {
        &&& forall|c: u16|
            self.accounts.contains_key(c) ==> account_wf(c, #[trigger] self.accounts[c])
        &&& forall|t: u32| self.entries.contains_key(t) ==> entry_wf(t, #[trigger] self.entries[t])
        &&& self.clients.no_duplicates()
        &&& forall|i: int|
            0 <= i < self.clients.len() ==> self.accounts.contains_key(#[trigger] self.clients[i])
        &&& forall|c: u16| #[trigger] self.accounts.contains_key(c) ==> self.clients.contains(c)
    }
}

/// The ledger store: no behavior beyond storage and lookup.
pub struct Ledger {
    accounts: HashMap<u16, ClientAccount>,
    entries: HashMap<u32, LedgerEntry>,
    clients: Vec<u16>,
}

impl View for Ledger {
    type V = LedgerView;

    closed spec fn view(&self) -> LedgerView {
        LedgerView { accounts: self.accounts@, entries: self.entries@, clients: self.clients@ }
    }
}

impl Ledger {
    /// An empty store.
    pub fn new() -> (r: Ledger)
        ensures
            r@.accounts == Map::<u16, ClientAccount>::empty(),
            r@.entries == Map::<u32, LedgerEntry>::empty(),
            r@.clients == Seq::<u16>::empty(),
            r@.wf(),
    {
        Ledger { accounts: HashMap::new(), entries: HashMap::new(), clients: Vec::new() }
    }

    /// Lookup without creation; returns a copy of the stored account.
    pub fn get_account(&self, client: u16) -> (r: Option<ClientAccount>)
        ensures
            r == if self@.accounts.contains_key(client) {
                Some(self@.accounts[client])
            } else {
                None::<ClientAccount>
            },
    {
        match self.accounts.get(&client) {
            Some(a) => Some(*a),
            None => None,
        }
    }

    /// Returns the existing account, or inserts and returns a new zeroed one.
    pub fn get_or_create_account(&mut self, client: u16) -> (r: ClientAccount)
        ensures
            old(self)@.accounts.contains_key(client) ==> {
                &&& r == old(self)@.accounts[client]
                &&& final(self)@ == old(self)@
            },
            !old(self)@.accounts.contains_key(client) ==> {
                &&& r == fresh_account(client)
                &&& final(self)@.accounts == old(self)@.accounts.insert(client, r)
                &&& final(self)@.entries == old(self)@.entries
                &&& final(self)@.clients == old(self)@.clients.push(client)
            },
    {
        let existing = self.accounts.get(&client);
        match existing {
            Some(a) => *a,
            None => {
                let a = ClientAccount { client, available: 0, held: 0, total: 0, locked: false };
                self.accounts.insert(client, a);
                self.clients.push(client);
                a
            },
        }
    }

    /// Overwrites the stored account for `a.client`; update only, never
    /// creates.
    pub fn set_account(&mut self, a: ClientAccount)
        requires
            old(self)@.accounts.contains_key(a.client),
        ensures
            final(self)@.accounts == old(self)@.accounts.insert(a.client, a),
            final(self)@.entries == old(self)@.entries,
            final(self)@.clients == old(self)@.clients,
    {
        self.accounts.insert(a.client, a);
    }

    /// Stores a deposit/withdrawal entry keyed by its transaction id,
    /// silently overwriting a duplicate id (last write wins).
    pub fn record_entry(&mut self, e: LedgerEntry)
        requires
            e.amount > 0,
        ensures
            final(self)@.entries == old(self)@.entries.insert(e.tx, e),
            final(self)@.accounts == old(self)@.accounts,
            final(self)@.clients == old(self)@.clients,
    {
        self.entries.insert(e.tx, e);
    }

    /// Lookup of a retained entry for dispute-chain processing.
    pub fn get_entry(&self, tx: u32) -> (r: Option<LedgerEntry>)
        ensures
            r == if self@.entries.contains_key(tx) {
                Some(self@.entries[tx])
            } else {
                None::<LedgerEntry>
            },
    {
        match self.entries.get(&tx) {
            Some(e) => Some(*e),
            None => None,
        }
    }

    /// The client ids in order of first appearance.
    pub fn client_ids(&self) -> (r: &Vec<u16>)
        ensures
            r@ == self@.clients,
    {
        &self.clients
    }
}

} // verus!
