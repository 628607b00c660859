//! The executable transaction processor: applies one event at a time to the
//! ledger store, and is proved to follow the transition functions of
//! [`crate::rules`] exactly.

use crate::ledger::{ClientAccount, Ledger, LedgerEntry, LedgerView, TxKind};
use crate::rules::{event_wf, lemma_apply_preserves_wf, lemma_locked_monotonic, spec_apply,
    spec_chargeback, spec_deposit, spec_dispute, spec_resolve, spec_withdrawal, Event, IgnoreReason,
    Outcome};
use vstd::prelude::*;

verus! {

/// Replays a sequential stream of transaction events against client
/// accounts, retaining deposit/withdrawal entries for later dispute
/// resolution.
pub struct TransactionProcessor {
    ledger: Ledger,
}

impl View for TransactionProcessor {
    type V = LedgerView;

    closed spec fn view(&self) -> LedgerView {
        self.ledger@
    }
}

impl TransactionProcessor {
    /// The store invariant, re-exposed at the processor.
    pub open spec fn wf(&self) -> bool {
        self@.wf()
    }

    /// A processor with no accounts and no retained entries.
    pub fn new() -> (r: TransactionProcessor)
        ensures
            r@.accounts == Map::<u16, ClientAccount>::empty(),
            r@.entries == Map::<u32, LedgerEntry>::empty(),
            r@.clients == Seq::<u16>::empty(),
            r.wf(),
    {
        TransactionProcessor { ledger: Ledger::new() }
    }

    /// Applies one incoming event, in stream order. The resulting state and
    /// outcome are exactly those of the corresponding transition function;
    /// the store invariant is preserved, and a locked account never unlocks.
    pub fn apply(&mut self, event: Event) -> (r: Outcome)
        requires
            old(self).wf(),
            event_wf(event),
        ensures
            final(self)@ == spec_apply(old(self)@, event).0,
            r == spec_apply(old(self)@, event).1,
            final(self).wf(),
            forall|c: u16|
                final(self)@.accounts.contains_key(c) ==> (#[trigger] final(self)@.accounts[c]).total
                    == final(self)@.accounts[c].available + final(self)@.accounts[c].held,
            forall|c: u16|
                #[trigger] old(self)@.accounts.contains_key(c) && old(self)@.accounts[c].locked
                    ==> final(self)@.accounts.contains_key(c) && final(self)@.accounts[c].locked,
    {
        proof {
            lemma_apply_preserves_wf(old(self)@, event);
            assert forall|c: u16|
                #[trigger] old(self)@.accounts.contains_key(c) && old(self)@.accounts[c].locked
                implies spec_apply(old(self)@, event).0.accounts.contains_key(c) && spec_apply(
                old(self)@,
                event,
            ).0.accounts[c].locked by {
                lemma_locked_monotonic(old(self)@, event, c);
            }
        }
        match event {
            Event::Deposit { client, tx, amount } => self.handle_deposit(client, tx, amount),
            Event::Withdrawal { client, tx, amount } => self.handle_withdrawal(client, tx, amount),
            Event::Dispute { client, tx } => self.handle_dispute(client, tx),
            Event::Resolve { client, tx } => self.handle_resolve(client, tx),
            Event::Chargeback { client, tx } => self.handle_chargeback(client, tx),
        }
    }

    /// Deposit handler; see [`spec_deposit`] for the rule it implements.
    pub fn handle_deposit(&mut self, client: u16, tx: u32, amount: i64) -> (r: Outcome)
        requires
            old(self).wf(),
            amount > 0,
        ensures
            final(self)@ == spec_deposit(old(self)@, client, tx, amount).0,
            r == spec_deposit(old(self)@, client, tx, amount).1,
    {
        let a = self.ledger.get_or_create_account(client);
        if a.locked {
            return Outcome::Ignored(IgnoreReason::AccountLocked);
        }
        if a.available > i64::MAX - amount || a.total > i64::MAX - amount {
            return Outcome::Ignored(IgnoreReason::BalanceOutOfRange);
        }
        let a2 = ClientAccount {
            available: a.available + amount,
            total: a.total + amount,
            ..a
        };
        self.ledger.set_account(a2);
        self.ledger.record_entry(
            LedgerEntry { tx, client, amount, kind: TxKind::Deposit, disputed: false },
        );
        proof {
            assert(self@ =~= spec_deposit(old(self)@, client, tx, amount).0);
        }
        Outcome::Applied
    }

    /// Withdrawal handler; see [`spec_withdrawal`] for the rule it
    /// implements.
    pub fn handle_withdrawal(&mut self, client: u16, tx: u32, amount: i64) -> (r: Outcome)
        requires
            old(self).wf(),
            amount > 0,
        ensures
            final(self)@ == spec_withdrawal(old(self)@, client, tx, amount).0,
            r == spec_withdrawal(old(self)@, client, tx, amount).1,
    {
        let a = match self.ledger.get_account(client) {
            None => {
                return Outcome::Ignored(IgnoreReason::UnknownAccount);
            },
            Some(a) => a,
        };
        if a.locked {
            return Outcome::Ignored(IgnoreReason::AccountLocked);
        }
        if a.available < amount {
            return Outcome::Ignored(IgnoreReason::InsufficientFunds);
        }
        let a2 = ClientAccount {
            available: a.available - amount,
            total: a.total - amount,
            ..a
        };
        self.ledger.set_account(a2);
        self.ledger.record_entry(
            LedgerEntry { tx, client, amount, kind: TxKind::Withdrawal, disputed: false },
        );
        proof {
            assert(self@ =~= spec_withdrawal(old(self)@, client, tx, amount).0);
        }
        Outcome::Applied
    }

    /// Dispute handler; see [`spec_dispute`] for the rule it implements.
    pub fn handle_dispute(&mut self, client: u16, tx: u32) -> (r: Outcome)
        requires
            old(self).wf(),
        ensures
            final(self)@ == spec_dispute(old(self)@, client, tx).0,
            r == spec_dispute(old(self)@, client, tx).1,
    {
        let e = match self.ledger.get_entry(tx) {
            None => {
                return Outcome::Ignored(IgnoreReason::UnknownTransaction);
            },
            Some(e) => e,
        };
        if e.client != client {
            return Outcome::Ignored(IgnoreReason::WrongClient);
        }
        if e.disputed {
            return Outcome::Ignored(IgnoreReason::AlreadyDisputed);
        }
        let a = match self.ledger.get_account(client) {
            None => {
                return Outcome::Ignored(IgnoreReason::UnknownAccount);
            },
            Some(a) => a,
        };
        if a.locked {
            return Outcome::Ignored(IgnoreReason::AccountLocked);
        }
        if a.available < i64::MIN + e.amount || a.held > i64::MAX - e.amount {
            return Outcome::Ignored(IgnoreReason::BalanceOutOfRange);
        }
        let a2 = ClientAccount {
            available: a.available - e.amount,
            held: a.held + e.amount,
            ..a
        };
        self.ledger.set_account(a2);
        self.ledger.record_entry(LedgerEntry { disputed: true, ..e });
        proof {
            assert(self@ =~= spec_dispute(old(self)@, client, tx).0);
        }
        Outcome::Applied
    }

    /// Resolve handler; see [`spec_resolve`] for the rule it implements.
    pub fn handle_resolve(&mut self, client: u16, tx: u32) -> (r: Outcome)
        requires
            old(self).wf(),
        ensures
            final(self)@ == spec_resolve(old(self)@, client, tx).0,
            r == spec_resolve(old(self)@, client, tx).1,
    {
        let e = match self.ledger.get_entry(tx) {
            None => {
                return Outcome::Ignored(IgnoreReason::UnknownTransaction);
            },
            Some(e) => e,
        };
        if !e.disputed {
            return Outcome::Ignored(IgnoreReason::NotDisputed);
        }
        if e.client != client {
            return Outcome::Ignored(IgnoreReason::WrongClient);
        }
        let a = match self.ledger.get_account(client) {
            None => {
                return Outcome::Ignored(IgnoreReason::UnknownAccount);
            },
            Some(a) => a,
        };
        if a.locked {
            return Outcome::Ignored(IgnoreReason::AccountLocked);
        }
        if a.available > i64::MAX - e.amount || a.held < i64::MIN + e.amount {
            return Outcome::Ignored(IgnoreReason::BalanceOutOfRange);
        }
        let a2 = ClientAccount {
            available: a.available + e.amount,
            held: a.held - e.amount,
            ..a
        };
        self.ledger.set_account(a2);
        self.ledger.record_entry(LedgerEntry { disputed: false, ..e });
        proof {
            assert(self@ =~= spec_resolve(old(self)@, client, tx).0);
        }
        Outcome::Applied
    }

    /// Chargeback handler; see [`spec_chargeback`] for the rule it
    /// implements.
    pub fn handle_chargeback(&mut self, client: u16, tx: u32) -> (r: Outcome)
        requires
            old(self).wf(),
        ensures
            final(self)@ == spec_chargeback(old(self)@, client, tx).0,
            r == spec_chargeback(old(self)@, client, tx).1,
    {
        let e = match self.ledger.get_entry(tx) {
            None => {
                return Outcome::Ignored(IgnoreReason::UnknownTransaction);
            },
            Some(e) => e,
        };
        if !e.disputed {
            return Outcome::Ignored(IgnoreReason::NotDisputed);
        }
        if e.client != client {
            return Outcome::Ignored(IgnoreReason::WrongClient);
        }
        let a = match self.ledger.get_account(client) {
            None => {
                return Outcome::Ignored(IgnoreReason::UnknownAccount);
            },
            Some(a) => a,
        };
        if a.locked {
            return Outcome::Ignored(IgnoreReason::AccountLocked);
        }
        if a.held < i64::MIN + e.amount || a.total < i64::MIN + e.amount {
            return Outcome::Ignored(IgnoreReason::BalanceOutOfRange);
        }
        let a2 = ClientAccount {
            held: a.held - e.amount,
            total: a.total - e.amount,
            locked: true,
            ..a
        };
        self.ledger.set_account(a2);
        proof {
            assert(self@ =~= spec_chargeback(old(self)@, client, tx).0);
        }
        Outcome::Applied
    }

    /// Lookup of an account without creation; returns a copy.
    pub fn get_account(&self, client: u16) -> (r: Option<ClientAccount>)
        ensures
            r == if self@.accounts.contains_key(client) {
                Some(self@.accounts[client])
            } else {
                None::<ClientAccount>
            },
    {
        self.ledger.get_account(client)
    }

    /// Lookup of a retained entry; returns a copy.
    pub fn get_entry(&self, tx: u32) -> (r: Option<LedgerEntry>)
        ensures
            r == if self@.entries.contains_key(tx) {
                Some(self@.entries[tx])
            } else {
                None::<LedgerEntry>
            },
    {
        self.ledger.get_entry(tx)
    }

    /// Stores a deposit/withdrawal entry directly, keyed by its transaction
    /// id, overwriting a duplicate id (last write wins).
    pub fn record_entry(&mut self, e: LedgerEntry)
        requires
            e.amount > 0,
        ensures
            final(self)@.entries == old(self)@.entries.insert(e.tx, e),
            final(self)@.accounts == old(self)@.accounts,
            final(self)@.clients == old(self)@.clients,
    {
        self.ledger.record_entry(e);
    }

    /// One snapshot per known client, in order of first appearance, for the
    /// rendering collaborator.
    pub fn account_snapshots(&self) -> (r: Vec<ClientAccount>)
        requires
            self.wf(),
        ensures
            r@.len() == self@.clients.len(),
            forall|i: int|
                0 <= i < r@.len() ==> #[trigger] r@[i] == self@.accounts[self@.clients[i]],
    {
        let ids = self.ledger.client_ids();
        let mut out: Vec<ClientAccount> = Vec::new();
        let n = ids.len();
        let mut i: usize = 0;
        while i < n
            invariant
                n == self@.clients.len(),
                ids@ == self@.clients,
                self.wf(),
                0 <= i <= n,
                out@.len() == i,
                forall|j: int|
                    0 <= j < i ==> #[trigger] out@[j] == self@.accounts[self@.clients[j]],
            decreases n - i,
        {
            let c = ids[i];
            match self.ledger.get_account(c) {
                Some(a) => {
                    out.push(a);
                },
                None => {
                    proof {
                        assert(self@.accounts.contains_key(self@.clients[i as int]));
                    }
                },
            }
            i = i + 1;
        }
        out
    }
}

} // verus!
