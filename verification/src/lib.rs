//! Verified ledger for bilateral government-to-government payments.
//!
//! The crate models a sovereign-entity registry together with a
//! multi-signature payment state machine: a registered, active government
//! initiates a payment (which reserves amount plus fee with the fund
//! custodian), authorized signers attest until the sender's threshold is
//! met, and any caller may then execute the settlement, which moves the
//! amount to the recipient and burns the fee. A still-pending payment can
//! be cancelled by its initiator, releasing the reservation. Every record
//! persists for audit; statistics are derived on demand from an append-only
//! per-government history index.

pub mod types;
pub mod custodian;
pub mod registry;
pub mod history;
pub mod sums;
pub mod pallet;
pub mod laws;
