//! Scenario tests for the state machine: the documented event orderings,
//! each ignore reason, idempotence of resolve and chargeback, lock
//! monotonicity, the balance invariant, and duplicate-id overwriting.

use transaction_processor::rules::{Event, IgnoreReason, Outcome};
use transaction_processor::transaction_processor::TransactionProcessor;

fn units(whole: i64) -> i64 {
    whole * 10_000
}

#[test]
fn ordering_deposit_then_dispute() {
    let mut p = TransactionProcessor::new();
    assert_eq!(p.apply(Event::Deposit { client: 1, tx: 1, amount: units(20) }), Outcome::Applied);
    assert_eq!(p.apply(Event::Dispute { client: 1, tx: 1 }), Outcome::Applied);
    let a = p.get_account(1).unwrap();
    assert_eq!(a.available, 0);
    assert_eq!(a.held, units(20));
    assert_eq!(a.total, units(20));
}

#[test]
fn ordering_dispute_then_resolve() {
    let mut p = TransactionProcessor::new();
    p.apply(Event::Deposit { client: 1, tx: 1, amount: units(20) });
    p.apply(Event::Dispute { client: 1, tx: 1 });
    assert_eq!(p.apply(Event::Resolve { client: 1, tx: 1 }), Outcome::Applied);
    let a = p.get_account(1).unwrap();
    assert_eq!(a.available, units(20));
    assert_eq!(a.held, 0);
    assert_eq!(a.total, units(20));
    assert!(!a.locked);
}

#[test]
fn ordering_dispute_then_chargeback() {
    let mut p = TransactionProcessor::new();
    p.apply(Event::Deposit { client: 1, tx: 1, amount: units(20) });
    p.apply(Event::Dispute { client: 1, tx: 1 });
    assert_eq!(p.apply(Event::Chargeback { client: 1, tx: 1 }), Outcome::Applied);
    let a = p.get_account(1).unwrap();
    assert_eq!(a.available, 0);
    assert_eq!(a.held, 0);
    assert_eq!(a.total, 0);
    assert!(a.locked);
}

#[test]
fn withdrawal_insufficient_funds_leaves_account_unchanged() {
    let mut p = TransactionProcessor::new();
    p.apply(Event::Deposit { client: 1, tx: 1, amount: units(100) });
    assert_eq!(
        p.apply(Event::Withdrawal { client: 1, tx: 2, amount: units(250) }),
        Outcome::Ignored(IgnoreReason::InsufficientFunds)
    );
    let a = p.get_account(1).unwrap();
    assert_eq!(a.available, units(100));
    assert_eq!(a.total, units(100));
}

#[test]
fn deposit_to_unseen_client_creates_account() {
    let mut p = TransactionProcessor::new();
    assert_eq!(p.apply(Event::Deposit { client: 7, tx: 1, amount: units(20) }), Outcome::Applied);
    let a = p.get_account(7).unwrap();
    assert_eq!(a.client, 7);
    assert_eq!(a.available, units(20));
    assert_eq!(a.held, 0);
    assert_eq!(a.total, units(20));
    assert!(!a.locked);
}

#[test]
fn dispute_unknown_transaction_is_ignored() {
    let mut p = TransactionProcessor::new();
    p.apply(Event::Deposit { client: 1, tx: 1, amount: units(50) });
    let before = p.get_account(1).unwrap();
    assert_eq!(
        p.apply(Event::Dispute { client: 1, tx: 9 }),
        Outcome::Ignored(IgnoreReason::UnknownTransaction)
    );
    assert_eq!(p.get_account(1).unwrap(), before);
}

#[test]
fn chargeback_without_dispute_is_ignored() {
    let mut p = TransactionProcessor::new();
    p.apply(Event::Deposit { client: 1, tx: 1, amount: units(50) });
    let before = p.get_account(1).unwrap();
    assert_eq!(
        p.apply(Event::Chargeback { client: 1, tx: 1 }),
        Outcome::Ignored(IgnoreReason::NotDisputed)
    );
    assert_eq!(p.get_account(1).unwrap(), before);
    assert!(!p.get_account(1).unwrap().locked);
}

#[test]
fn resolve_twice_is_idempotent() {
    let mut p = TransactionProcessor::new();
    p.apply(Event::Deposit { client: 1, tx: 1, amount: units(20) });
    p.apply(Event::Dispute { client: 1, tx: 1 });
    assert_eq!(p.apply(Event::Resolve { client: 1, tx: 1 }), Outcome::Applied);
    let after_first = p.get_account(1).unwrap();
    assert_eq!(
        p.apply(Event::Resolve { client: 1, tx: 1 }),
        Outcome::Ignored(IgnoreReason::NotDisputed)
    );
    assert_eq!(p.get_account(1).unwrap(), after_first);
}

#[test]
fn chargeback_twice_is_idempotent() {
    let mut p = TransactionProcessor::new();
    p.apply(Event::Deposit { client: 1, tx: 1, amount: units(20) });
    p.apply(Event::Dispute { client: 1, tx: 1 });
    assert_eq!(p.apply(Event::Chargeback { client: 1, tx: 1 }), Outcome::Applied);
    let after_first = p.get_account(1).unwrap();
    assert_eq!(
        p.apply(Event::Chargeback { client: 1, tx: 1 }),
        Outcome::Ignored(IgnoreReason::AccountLocked)
    );
    assert_eq!(p.get_account(1).unwrap(), after_first);
}

#[test]
fn locked_account_rejects_further_events() {
    let mut p = TransactionProcessor::new();
    p.apply(Event::Deposit { client: 1, tx: 1, amount: units(20) });
    p.apply(Event::Deposit { client: 1, tx: 2, amount: units(30) });
    p.apply(Event::Dispute { client: 1, tx: 1 });
    p.apply(Event::Chargeback { client: 1, tx: 1 });
    assert!(p.get_account(1).unwrap().locked);
    assert_eq!(
        p.apply(Event::Deposit { client: 1, tx: 3, amount: units(5) }),
        Outcome::Ignored(IgnoreReason::AccountLocked)
    );
    assert_eq!(
        p.apply(Event::Withdrawal { client: 1, tx: 4, amount: units(5) }),
        Outcome::Ignored(IgnoreReason::AccountLocked)
    );
    assert_eq!(
        p.apply(Event::Dispute { client: 1, tx: 2 }),
        Outcome::Ignored(IgnoreReason::AccountLocked)
    );
    assert!(p.get_account(1).unwrap().locked);
    assert_eq!(p.get_account(1).unwrap().available, units(30));
    assert_eq!(p.get_account(1).unwrap().total, units(30));
}

#[test]
fn withdrawal_from_unseen_client_is_ignored() {
    let mut p = TransactionProcessor::new();
    assert_eq!(
        p.apply(Event::Withdrawal { client: 9, tx: 1, amount: units(5) }),
        Outcome::Ignored(IgnoreReason::UnknownAccount)
    );
    assert!(p.get_account(9).is_none());
}

#[test]
fn dispute_from_wrong_client_is_ignored() {
    let mut p = TransactionProcessor::new();
    p.apply(Event::Deposit { client: 1, tx: 1, amount: units(20) });
    p.apply(Event::Deposit { client: 2, tx: 2, amount: units(10) });
    assert_eq!(
        p.apply(Event::Dispute { client: 2, tx: 1 }),
        Outcome::Ignored(IgnoreReason::WrongClient)
    );
    assert_eq!(p.get_account(1).unwrap().available, units(20));
    assert_eq!(p.get_account(2).unwrap().available, units(10));
}

#[test]
fn dispute_twice_is_ignored() {
    let mut p = TransactionProcessor::new();
    p.apply(Event::Deposit { client: 1, tx: 1, amount: units(20) });
    assert_eq!(p.apply(Event::Dispute { client: 1, tx: 1 }), Outcome::Applied);
    assert_eq!(
        p.apply(Event::Dispute { client: 1, tx: 1 }),
        Outcome::Ignored(IgnoreReason::AlreadyDisputed)
    );
    assert_eq!(p.get_account(1).unwrap().held, units(20));
}

#[test]
fn deposit_overflowing_balance_is_ignored() {
    let mut p = TransactionProcessor::new();
    p.apply(Event::Deposit { client: 1, tx: 1, amount: i64::MAX });
    assert_eq!(
        p.apply(Event::Deposit { client: 1, tx: 2, amount: 1 }),
        Outcome::Ignored(IgnoreReason::BalanceOutOfRange)
    );
    assert_eq!(p.get_account(1).unwrap().available, i64::MAX);
    assert_eq!(p.get_account(1).unwrap().total, i64::MAX);
}

#[test]
fn duplicate_transaction_id_overwrites_entry() {
    let mut p = TransactionProcessor::new();
    p.apply(Event::Deposit { client: 1, tx: 1, amount: units(10) });
    p.apply(Event::Deposit { client: 1, tx: 1, amount: units(30) });
    assert_eq!(p.get_entry(1).unwrap().amount, units(30));
    assert_eq!(p.apply(Event::Dispute { client: 1, tx: 1 }), Outcome::Applied);
    assert_eq!(p.get_account(1).unwrap().held, units(30));
    assert_eq!(p.get_account(1).unwrap().available, units(10));
}

#[test]
fn balance_equation_holds_after_every_event() {
    let mut p = TransactionProcessor::new();
    let events = vec![
        Event::Deposit { client: 1, tx: 1, amount: units(20) },
        Event::Deposit { client: 2, tx: 2, amount: units(50) },
        Event::Withdrawal { client: 2, tx: 3, amount: units(10) },
        Event::Dispute { client: 1, tx: 1 },
        Event::Dispute { client: 2, tx: 3 },
        Event::Resolve { client: 1, tx: 1 },
        Event::Chargeback { client: 2, tx: 3 },
        Event::Deposit { client: 2, tx: 4, amount: units(5) },
    ];
    for e in events {
        p.apply(e);
        for a in p.account_snapshots() {
            assert_eq!(a.total, a.available + a.held);
        }
    }
}

#[test]
fn snapshots_list_clients_in_order_of_first_deposit() {
    let mut p = TransactionProcessor::new();
    p.apply(Event::Deposit { client: 5, tx: 1, amount: units(1) });
    p.apply(Event::Deposit { client: 3, tx: 2, amount: units(2) });
    p.apply(Event::Deposit { client: 5, tx: 3, amount: units(4) });
    let snaps = p.account_snapshots();
    assert_eq!(snaps.len(), 2);
    assert_eq!(snaps[0].client, 5);
    assert_eq!(snaps[0].available, units(5));
    assert_eq!(snaps[1].client, 3);
    assert_eq!(snaps[1].available, units(2));
}
