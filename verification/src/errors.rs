//! The failures an offer lifecycle operation can report.
//!
//! Every error is fatal to the current call: the caller observes the failure
//! and the registry's state is left exactly as it was.

use vstd::prelude::*;

verus! {

/// Why a lifecycle operation refused to act.
#[derive(Clone, Copy, Debug, PartialEq, Eq, Structural)]
pub enum EscrowError {
    /// The call carried zero or several attached payments, or an attached
    /// payment of zero amount, where exactly one positive payment is needed.
    NoPaymentAttached,
    /// The demanded amount of a new offer was zero.
    InvalidAcceptedAmount,
    /// No open offer carries the given identifier.
    OfferNotFound,
    /// The caller is neither the offer's counterparty (for acceptance) nor
    /// its creator (for cancellation).
    Unauthorized,
    /// The attached payment does not exactly equal the payment the offer's
    /// creator demanded.
    PaymentMismatch,
}

} // verus!
