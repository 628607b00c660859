//! A deterministic ledger-replay engine: an ordered stream of transaction
//! events (deposit, withdrawal, dispute, resolve, chargeback) is applied, one
//! event at a time, to a set of client accounts. All monetary values are
//! fixed-point decimals with four fractional digits, held in `i64` units.

pub mod amount;
pub mod laws;
pub mod ledger;
pub mod rules;
pub mod transaction_processor;
