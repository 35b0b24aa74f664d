//! An escrow registry: one party locks a payment of a fungible or
//! semi-fungible asset against a demand for a specific asset from a specific
//! counterparty, to be exchanged atomically later.
//!
//! The library is the offer lifecycle and asset-custody state machine: how an
//! offer is created, how an exclusive identifier is assigned, how the
//! requested and offered assets are recorded, and the invariants that hold
//! across creation, acceptance, and cancellation so that custody of locked
//! assets is never lost, duplicated, or released to the wrong party.
//!
//! The hosting ledger (account identities, attached payments, the transfers
//! themselves) is an external collaborator: operations take the caller's
//! identity and the attached payments as plain values and return the
//! transfers the host must perform. [`ledger::Ledger`] models the effect of
//! applying those transfers to account balances.

pub mod errors;
pub mod escrow;
pub mod laws;
pub mod ledger;
pub mod payment;
pub mod store;
