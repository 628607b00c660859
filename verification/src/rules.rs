//! The transaction state machine, stated mathematically: the event and
//! outcome types, and one transition function per event kind over
//! [`LedgerView`]. The executable processor is proved to follow these
//! transitions exactly.

use crate::ledger::{fresh_account, ClientAccount, LedgerEntry, LedgerView, TxKind};
use vstd::prelude::*;

verus! {

/// One incoming transaction event, already parsed by the ingestion
/// collaborator. Deposits and withdrawals carry a fixed-point amount in units
/// of one ten-thousandth.
#[derive(Clone, Copy, Debug, PartialEq, Eq, Structural)]
pub enum Event {
    Deposit { client: u16, tx: u32, amount: i64 },
    Withdrawal { client: u16, tx: u32, amount: i64 },
    Dispute { client: u16, tx: u32 },
    Resolve { client: u16, tx: u32 },
    Chargeback { client: u16, tx: u32 },
}

/// Why an event was dropped without effect.
#[derive(Clone, Copy, Debug, PartialEq, Eq, Structural)]
pub enum IgnoreReason {
    /// The target account is frozen by an earlier chargeback.
    AccountLocked,
    /// The event names a client with no account, and is not a deposit.
    UnknownAccount,
    /// A withdrawal asked for more than is available.
    InsufficientFunds,
    /// The referenced transaction id has no retained entry.
    UnknownTransaction,
    /// The referenced entry belongs to a different client.
    WrongClient,
    /// The referenced entry is already under dispute.
    AlreadyDisputed,
    /// The referenced entry is not under dispute.
    NotDisputed,
    /// Applying the event would push a balance outside the representable
    /// fixed-point range.
    BalanceOutOfRange,
}

/// What applying one event did: either the account state changed as the
/// rules for its kind prescribe, or the event was dropped as a business
/// no-op for the given reason.
#[derive(Clone, Copy, Debug, PartialEq, Eq, Structural)]
pub enum Outcome {
    Applied,
    Ignored(IgnoreReason),
}

/// A valid event: deposits and withdrawals carry a strictly positive amount.
pub open spec fn event_wf(e: Event) -> bool {
    match e {
        Event::Deposit { amount, .. } => amount > 0,
        Event::Withdrawal { amount, .. } => amount > 0,
        _ => true,
    }
}

/// A deposit of `amount` to `a` keeps both growing balances representable.
pub open spec fn deposit_fits(a: ClientAccount, amount: i64) -> bool {
    &&& a.available + amount <= i64::MAX
    &&& a.total + amount <= i64::MAX
}

/// A dispute moving `amount` from available to held stays representable.
pub open spec fn dispute_fits(a: ClientAccount, amount: i64) -> bool {
    &&& i64::MIN <= a.available - amount
    &&& a.held + amount <= i64::MAX
}

/// A resolve moving `amount` from held back to available stays representable.
pub open spec fn resolve_fits(a: ClientAccount, amount: i64) -> bool {
    &&& a.available + amount <= i64::MAX
    &&& i64::MIN <= a.held - amount
}

/// A chargeback removing `amount` from held and total stays representable.
pub open spec fn chargeback_fits(a: ClientAccount, amount: i64) -> bool {
    &&& i64::MIN <= a.held - amount
    &&& i64::MIN <= a.total - amount
}

/// Deposit: requires a positive amount; ignored on a locked account;
/// otherwise adds the amount to available and total, creating the account on
/// first sight of the client, and retains an undisputed entry.
pub open spec fn spec_deposit(v: LedgerView, client: u16, tx: u32, amount: i64) -> (LedgerView,
    Outcome) {
    let known = v.accounts.contains_key(client);
    let a = if known {
        v.accounts[client]
    } else {
        fresh_account(client)
    };
    if a.locked {
        (v, Outcome::Ignored(IgnoreReason::AccountLocked))
    } else if !deposit_fits(a, amount) {
        (v, Outcome::Ignored(IgnoreReason::BalanceOutOfRange))
    } else {
        let a2 = ClientAccount {
            available: (a.available + amount) as i64,
            total: (a.total + amount) as i64,
            ..a
        };
        let e = LedgerEntry { tx, client, amount, kind: TxKind::Deposit, disputed: false };
        (
            LedgerView {
                accounts: v.accounts.insert(client, a2),
                entries: v.entries.insert(tx, e),
                clients: if known {
                    v.clients
                } else {
                    v.clients.push(client)
                },
            },
            Outcome::Applied,
        )
    }
}

/// Withdrawal: ignored when the account is absent, locked, or short of
/// available funds; otherwise subtracts the amount from available and total
/// and retains an undisputed entry. Never creates an account.
pub open spec fn spec_withdrawal(v: LedgerView, client: u16, tx: u32, amount: i64) -> (LedgerView,
    Outcome) {
    if !v.accounts.contains_key(client) {
        (v, Outcome::Ignored(IgnoreReason::UnknownAccount))
    } else {
        let a = v.accounts[client];
        if a.locked {
            (v, Outcome::Ignored(IgnoreReason::AccountLocked))
        } else if a.available < amount {
            (v, Outcome::Ignored(IgnoreReason::InsufficientFunds))
        } else {
            let a2 = ClientAccount {
                available: (a.available - amount) as i64,
                total: (a.total - amount) as i64,
                ..a
            };
            let e = LedgerEntry { tx, client, amount, kind: TxKind::Withdrawal, disputed: false };
            (
                LedgerView {
                    accounts: v.accounts.insert(client, a2),
                    entries: v.entries.insert(tx, e),
                    clients: v.clients,
                },
                Outcome::Applied,
            )
        }
    }
}

/// Dispute: ignored when the entry is absent, owned by another client,
/// already disputed, or the account is absent or locked; otherwise moves the
/// entry's amount from available to held (total unchanged) and marks the
/// entry disputed.
pub open spec fn spec_dispute(v: LedgerView, client: u16, tx: u32) -> (LedgerView, Outcome) {
    if !v.entries.contains_key(tx) {
        (v, Outcome::Ignored(IgnoreReason::UnknownTransaction))
    } else {
        let e = v.entries[tx];
        if e.client != client {
            (v, Outcome::Ignored(IgnoreReason::WrongClient))
        } else if e.disputed {
            (v, Outcome::Ignored(IgnoreReason::AlreadyDisputed))
        } else if !v.accounts.contains_key(client) {
            (v, Outcome::Ignored(IgnoreReason::UnknownAccount))
        } else {
            let a = v.accounts[client];
            if a.locked {
                (v, Outcome::Ignored(IgnoreReason::AccountLocked))
            } else if !dispute_fits(a, e.amount) {
                (v, Outcome::Ignored(IgnoreReason::BalanceOutOfRange))
            } else {
                let a2 = ClientAccount {
                    available: (a.available - e.amount) as i64,
                    held: (a.held + e.amount) as i64,
                    ..a
                };
                let e2 = LedgerEntry { disputed: true, ..e };
                (
                    LedgerView {
                        accounts: v.accounts.insert(client, a2),
                        entries: v.entries.insert(tx, e2),
                        clients: v.clients,
                    },
                    Outcome::Applied,
                )
            }
        }
    }
}

/// Resolve: ignored when the entry is absent, not under dispute, owned by
/// another client, or the account is absent or locked; otherwise moves the
/// entry's amount from held back to available and clears the dispute flag.
pub open spec fn spec_resolve(v: LedgerView, client: u16, tx: u32) -> (LedgerView, Outcome) {
    if !v.entries.contains_key(tx) {
        (v, Outcome::Ignored(IgnoreReason::UnknownTransaction))
    } else {
        let e = v.entries[tx];
        if !e.disputed {
            (v, Outcome::Ignored(IgnoreReason::NotDisputed))
        } else if e.client != client {
            (v, Outcome::Ignored(IgnoreReason::WrongClient))
        } else if !v.accounts.contains_key(client) {
            (v, Outcome::Ignored(IgnoreReason::UnknownAccount))
        } else {
            let a = v.accounts[client];
            if a.locked {
                (v, Outcome::Ignored(IgnoreReason::AccountLocked))
            } else if !resolve_fits(a, e.amount) {
                (v, Outcome::Ignored(IgnoreReason::BalanceOutOfRange))
            } else {
                let a2 = ClientAccount {
                    available: (a.available + e.amount) as i64,
                    held: (a.held - e.amount) as i64,
                    ..a
                };
                let e2 = LedgerEntry { disputed: false, ..e };
                (
                    LedgerView {
                        accounts: v.accounts.insert(client, a2),
                        entries: v.entries.insert(tx, e2),
                        clients: v.clients,
                    },
                    Outcome::Applied,
                )
            }
        }
    }
}

/// Chargeback: ignored when the entry is absent, not under dispute, owned by
/// another client, or the account is absent or already locked; otherwise
/// removes the entry's amount from held and total, freezes the account, and
/// leaves the entry marked disputed.
pub open spec fn spec_chargeback(v: LedgerView, client: u16, tx: u32) -> (LedgerView, Outcome) {
    if !v.entries.contains_key(tx) {
        (v, Outcome::Ignored(IgnoreReason::UnknownTransaction))
    } else {
        let e = v.entries[tx];
        if !e.disputed {
            (v, Outcome::Ignored(IgnoreReason::NotDisputed))
        } else if e.client != client {
            (v, Outcome::Ignored(IgnoreReason::WrongClient))
        } else if !v.accounts.contains_key(client) {
            (v, Outcome::Ignored(IgnoreReason::UnknownAccount))
        } else {
            let a = v.accounts[client];
            if a.locked {
                (v, Outcome::Ignored(IgnoreReason::AccountLocked))
            } else if !chargeback_fits(a, e.amount) {
                (v, Outcome::Ignored(IgnoreReason::BalanceOutOfRange))
            } else {
                let a2 = ClientAccount {
                    held: (a.held - e.amount) as i64,
                    total: (a.total - e.amount) as i64,
                    locked: true,
                    ..a
                };
                (
                    LedgerView {
                        accounts: v.accounts.insert(client, a2),
                        entries: v.entries,
                        clients: v.clients,
                    },
                    Outcome::Applied,
                )
            }
        }
    }
}

/// The whole state machine: one transition per incoming event.
pub open spec fn spec_apply(v: LedgerView, e: Event) -> (LedgerView, Outcome) {
    match e {
        Event::Deposit { client, tx, amount } => spec_deposit(v, client, tx, amount),
        Event::Withdrawal { client, tx, amount } => spec_withdrawal(v, client, tx, amount),
        Event::Dispute { client, tx } => spec_dispute(v, client, tx),
        Event::Resolve { client, tx } => spec_resolve(v, client, tx),
        Event::Chargeback { client, tx } => spec_chargeback(v, client, tx),
    }
}

/// Every transition preserves the store invariant; in particular
/// `total == available + held` holds of every account after every event.
pub proof fn lemma_apply_preserves_wf(v: LedgerView, e: Event)
    requires
        v.wf(),
        event_wf(e),
    ensures
        spec_apply(v, e).0.wf(),
{
    let v2 = spec_apply(v, e).0;
    match e {
        Event::Deposit { client, tx, amount } => {
            if v2 != v {
                assert forall|i: int| 0 <= i < v2.clients.len() implies v2.accounts.contains_key(
                    #[trigger] v2.clients[i],
                ) by {
                    if i < v.clients.len() {
                        assert(v.accounts.contains_key(v.clients[i]));
                    }
                }
                assert forall|c: u16| #[trigger] v2.accounts.contains_key(c) implies v2
                    .clients.contains(c) by {
                    if c != client {
                        assert(v.accounts.contains_key(c));
                        let i = choose|i: int| 0 <= i < v.clients.len() && v.clients[i] == c;
                        assert(v2.clients[i] == c);
                    } else {
                        if v.accounts.contains_key(client) {
                            assert(v.clients.contains(client));
                            let i = choose|i: int|
                                0 <= i < v.clients.len() && v.clients[i] == client;
                            assert(v2.clients[i] == client);
                        } else {
                            assert(v2.clients[v.clients.len() as int] == client);
                        }
                    }
                }
            }
        },
        _ => {},
    }
}

/// A locked account stays locked, and stays present, across every transition.
pub proof fn lemma_locked_monotonic(v: LedgerView, e: Event, c: u16)
    requires
        v.accounts.contains_key(c),
        v.accounts[c].locked,
    ensures
        spec_apply(v, e).0.accounts.contains_key(c),
        spec_apply(v, e).0.accounts[c].locked,
{
}

} // verus!
