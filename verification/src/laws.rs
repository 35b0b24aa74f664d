//! The registry-wide guarantees, stated and proved once over the operations'
//! contracts: identifier freshness across whole call histories, and
//! end-to-end settlement of acceptance and cancellation.

use vstd::prelude::*;
use crate::escrow::{EscrowSc, lemma_custody_covers_entry};
use crate::ledger::{Ledger, transfer_applied};
use crate::payment::TransferModel;
use crate::store::{OfferId, OfferModel, lemma_entries_map_contains, lemma_entries_map_index};

verus! {

/// Custody always covers every open offer: while a record is in the store,
/// the contract holds at least the offered amount of the offered token, so
/// releasing it on acceptance or cancellation can never overdraw the
/// contract.
pub proof fn lemma_custody_covers_open_offer(s: EscrowSc, id: OfferId)
    requires
        s.wf(),
        s.offers().contains_key(id),
    ensures
        s.custody(s.offers()[id].offered_payment.token, s.offers()[id].offered_payment.nonce)
            >= s.offers()[id].offered_payment.amount,
{
    lemma_entries_map_contains(s.store.entries@, id);
    let i = choose|i: int| 0 <= i < s.store.entries@.len() && s.store.entries@[i].0 == id;
    lemma_entries_map_index(s.store.entries@, i);
    lemma_custody_covers_entry(
        s.store.entries@,
        i,
        s.offers()[id].offered_payment.token,
        s.offers()[id].offered_payment.nonce,
    );
}

/// Identifiers returned by successful creations are strictly increasing, and
/// so pairwise distinct, across any sequence of operations.
///
/// A successful creation from `s0` to `s1` returns `id1 == s0.last_id() + 1`
/// and leaves the counter at `id1`; no later operation lowers the counter
/// (acceptance and cancellation keep it, creation raises it), so by the time
/// a later creation runs from `s2`, its identifier `id2` exceeds `id1`.
pub proof fn lemma_offer_ids_strictly_increase(
    s0: EscrowSc,
    s1: EscrowSc,
    id1: OfferId,
    s2: EscrowSc,
    s3: EscrowSc,
    id2: OfferId,
)
    requires
        id1 == s0.last_id() + 1,
        s1.last_id() == id1,
        s1.last_id() <= s2.last_id(),
        id2 == s2.last_id() + 1,
        s3.last_id() == id2,
    ensures
        id1 < id2,
        id1 != id2,
{
}

/// A successful acceptance settles both parties exactly: once the host has
/// performed the two returned transfers, the creator's balance of the
/// demanded asset has risen by the demanded amount, the accepter's balance
/// of the offered asset has risen by the offered amount, and the offer's
/// record is gone from the store.
///
/// The two credited cells must be distinct: when the creator accepts its own
/// offer of a token against that same token, the one cell receives both
/// amounts at once.
pub proof fn lemma_accept_settles_balances(
    pre: EscrowSc,
    post: EscrowSc,
    id: OfferId,
    offer: OfferModel,
    caller: Seq<u8>,
    t_creator: TransferModel,
    t_caller: TransferModel,
    l0: Ledger,
    l1: Ledger,
    l2: Ledger,
)
    requires
        pre.offers().contains_key(id),
        offer == pre.offers()[id],
        post.offers() == pre.offers().remove(id),
        t_creator == (TransferModel { to: offer.creator, payment: offer.accepted_payment }),
        t_caller == (TransferModel { to: caller, payment: offer.offered_payment }),
        transfer_applied(l0, t_creator, l1),
        transfer_applied(l1, t_caller, l2),
        !(offer.creator == caller && offer.accepted_payment.token == offer.offered_payment.token
            && offer.accepted_payment.nonce == offer.offered_payment.nonce),
    ensures
        !post.offers().contains_key(id),
        l2.balance(offer.creator, offer.accepted_payment.token, offer.accepted_payment.nonce)
            == l0.balance(offer.creator, offer.accepted_payment.token, offer.accepted_payment.nonce)
            + offer.accepted_payment.amount,
        l2.balance(caller, offer.offered_payment.token, offer.offered_payment.nonce) == l0.balance(
            caller,
            offer.offered_payment.token,
            offer.offered_payment.nonce,
        ) + offer.offered_payment.amount,
{
}

/// A successful cancellation restores the creator exactly: once the host has
/// performed the one returned transfer, the creator's balance of the offered
/// asset has risen by the originally offered amount, and the offer's record
/// is gone from the store.
pub proof fn lemma_cancel_restores_balance(
    pre: EscrowSc,
    post: EscrowSc,
    id: OfferId,
    offer: OfferModel,
    t_creator: TransferModel,
    l0: Ledger,
    l1: Ledger,
)
    requires
        pre.offers().contains_key(id),
        offer == pre.offers()[id],
        post.offers() == pre.offers().remove(id),
        t_creator == (TransferModel { to: offer.creator, payment: offer.offered_payment }),
        transfer_applied(l0, t_creator, l1),
    ensures
        !post.offers().contains_key(id),
        l1.balance(offer.creator, offer.offered_payment.token, offer.offered_payment.nonce)
            == l0.balance(offer.creator, offer.offered_payment.token, offer.offered_payment.nonce)
            + offer.offered_payment.amount,
{
}

} // verus!
