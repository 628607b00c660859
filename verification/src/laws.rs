//! Laws of the transaction state machine that relate several transitions:
//! idempotence of resolve and chargeback, and what dispute and chargeback
//! require of the referenced entry. Each is stated over the transition
//! functions of [`crate::rules`], which the executable processor is proved
//! to follow exactly.

use crate::ledger::LedgerView;
use crate::rules::{spec_apply, Event, IgnoreReason, Outcome};
use vstd::prelude::*;

verus! {

/// Re-sending a resolve that has already been applied is a no-op: the
/// referenced entry is no longer under dispute, so the second call leaves
/// the state unchanged and reports it.
pub proof fn lemma_resolve_idempotent(v: LedgerView, client: u16, tx: u32)
    requires
        spec_apply(v, Event::Resolve { client, tx }).1 == Outcome::Applied,
    ensures
        ({
            let v1 = spec_apply(v, Event::Resolve { client, tx }).0;
            spec_apply(v1, Event::Resolve { client, tx }) == (
                v1,
                Outcome::Ignored(IgnoreReason::NotDisputed),
            )
        }),
{
}

/// Re-sending a chargeback that has already been applied is a no-op: the
/// first one froze the account, so the second call leaves the state
/// unchanged and reports it.
pub proof fn lemma_chargeback_idempotent(v: LedgerView, client: u16, tx: u32)
    requires
        spec_apply(v, Event::Chargeback { client, tx }).1 == Outcome::Applied,
    ensures
        ({
            let v1 = spec_apply(v, Event::Chargeback { client, tx }).0;
            spec_apply(v1, Event::Chargeback { client, tx }) == (
                v1,
                Outcome::Ignored(IgnoreReason::AccountLocked),
            )
        }),
{
}

/// A dispute that references a transaction id with no retained entry leaves
/// the whole state, and in particular every account, unchanged.
pub proof fn lemma_dispute_unknown_tx_no_op(v: LedgerView, client: u16, tx: u32)
    requires
        !v.entries.contains_key(tx),
    ensures
        spec_apply(v, Event::Dispute { client, tx }) == (
            v,
            Outcome::Ignored(IgnoreReason::UnknownTransaction),
        ),
{
}

/// A chargeback on an entry that is not under dispute is a no-op.
pub proof fn lemma_chargeback_not_disputed_no_op(v: LedgerView, client: u16, tx: u32)
    requires
        v.entries.contains_key(tx),
        !v.entries[tx].disputed,
    ensures
        spec_apply(v, Event::Chargeback { client, tx }) == (
            v,
            Outcome::Ignored(IgnoreReason::NotDisputed),
        ),
{
}

/// A chargeback is applied only when a prior dispute on that exact
/// transaction id is still standing: the entry exists, is marked disputed,
/// and belongs to the charging client.
pub proof fn lemma_chargeback_requires_dispute(v: LedgerView, client: u16, tx: u32)
    requires
        spec_apply(v, Event::Chargeback { client, tx }).1 == Outcome::Applied,
    ensures
        v.entries.contains_key(tx),
        v.entries[tx].disputed,
        v.entries[tx].client == client,
{
}

} // verus!
