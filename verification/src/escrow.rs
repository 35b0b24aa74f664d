//! The offer lifecycle manager: creation, acceptance and cancellation of
//! offers, with the custody invariants that keep locked assets from being
//! lost, duplicated, or released to the wrong party.
//!
//! The hosting ledger is an external collaborator. Each operation takes the
//! caller's authenticated identity and the payments attached to the call as
//! plain values, and returns the outbound transfers the host must perform;
//! the host's all-or-nothing call semantics make the returned transfers and
//! the record update one atomic unit.

use vstd::prelude::*;
use crate::errors::EscrowError;
use crate::payment::{
    TokenPayment, PaymentModel, Counterparty, TransferAction, TransferModel, counterparty_allows,
    payment_matches,
};
use crate::store::{Offer, OfferId, OfferModel, OfferStore, lemma_entries_map_index};

verus! {

/// How much an open offer contributes to the contract's custody of a token:
/// its offered amount when the token and unit number match, nothing
/// otherwise.
pub open spec fn contribution(o: OfferModel, token: Seq<u8>, nonce: u64) -> int {
    if o.offered_payment.token == token && o.offered_payment.nonce == nonce {
        o.offered_payment.amount as int
    } else {
        0
    }
}

/// The contract's custodied balance of a token: the sum of the offered
/// amounts of all open offers in that token. Custody and record presence are
/// the same fact; no separate balance cell exists.
pub open spec fn custody_sum(s: Seq<(OfferId, Offer)>, token: Seq<u8>, nonce: u64) -> int
    decreases s.len(),
{
    if s.len() == 0 {
        0
    } else {
        custody_sum(s.drop_last(), token, nonce) + contribution(s.last().1@, token, nonce)
    }
}

/// Custody is never negative.
pub proof fn lemma_custody_nonneg(s: Seq<(OfferId, Offer)>, token: Seq<u8>, nonce: u64)
    ensures
        custody_sum(s, token, nonce) >= 0,
    decreases s.len(),
{
    if s.len() > 0 {
        lemma_custody_nonneg(s.drop_last(), token, nonce);
    }
}

/// Recording one more offer raises custody by exactly that offer's
/// contribution.
pub proof fn lemma_custody_push(
    s: Seq<(OfferId, Offer)>,
    e: (OfferId, Offer),
    token: Seq<u8>,
    nonce: u64,
)
    ensures
        custody_sum(s.push(e), token, nonce) == custody_sum(s, token, nonce) + contribution(
            e.1@,
            token,
            nonce,
        ),
{
    assert(s.push(e).drop_last() =~= s);
    assert(s.push(e).last() == e);
}

/// Deleting the offer at `i` lowers custody by exactly that offer's
/// contribution.
pub proof fn lemma_custody_remove(s: Seq<(OfferId, Offer)>, i: int, token: Seq<u8>, nonce: u64)
    requires
        0 <= i < s.len(),
    ensures
        custody_sum(s.remove(i), token, nonce) == custody_sum(s, token, nonce) - contribution(
            s[i].1@,
            token,
            nonce,
        ),
    decreases s.len(),
{
    if i == s.len() - 1 {
        assert(s.remove(i) =~= s.drop_last());
    } else {
        assert(s.remove(i).drop_last() =~= s.drop_last().remove(i));
        assert(s.remove(i).last() == s.last());
        assert(s.remove(i).len() > 0);
        assert(s.drop_last()[i] == s[i]);
        lemma_custody_remove(s.drop_last(), i, token, nonce);
    }
}

/// Custody covers every single open offer: releasing an offer's payment can
/// never overdraw the contract.
pub proof fn lemma_custody_covers_entry(s: Seq<(OfferId, Offer)>, i: int, token: Seq<u8>, nonce: u64)
    requires
        0 <= i < s.len(),
    ensures
        custody_sum(s, token, nonce) >= contribution(s[i].1@, token, nonce),
{
    lemma_custody_remove(s, i, token, nonce);
    lemma_custody_nonneg(s.remove(i), token, nonce);
}

/// A prefix of the records never holds more custody than all of them.
pub proof fn lemma_custody_take_bound(s: Seq<(OfferId, Offer)>, i: int, token: Seq<u8>, nonce: u64)
    requires
        0 <= i <= s.len(),
    ensures
        custody_sum(s.take(i), token, nonce) <= custody_sum(s, token, nonce),
    decreases s.len() - i,
{
    if i == s.len() {
        assert(s.take(i) =~= s);
    } else {
        lemma_custody_take_bound(s, i + 1, token, nonce);
        assert(s.take(i + 1).drop_last() =~= s.take(i));
        assert(s.take(i + 1).last() == s[i]);
    }
}

/// Exactly one attached payment, of positive amount: what every offer
/// creation must carry.
pub open spec fn attachment_ok(attached: Seq<TokenPayment>) -> bool {
    attached.len() == 1 && attached[0]@.amount > 0
}

/// Which error `create_offer` reports, if any, given the attached payments
/// and the demanded amount.
pub open spec fn create_error(attached: Seq<TokenPayment>, accepted_amount: u128) -> Option<
    EscrowError,
> {
    if !attachment_ok(attached) {
        Some(EscrowError::NoPaymentAttached)
    } else if accepted_amount == 0 {
        Some(EscrowError::InvalidAcceptedAmount)
    } else {
        None
    }
}

/// Which error `accept_offer` reports, if any, for a caller attaching the
/// given payments against the offer registered under `id`.
pub open spec fn accept_error(
    offers: Map<OfferId, OfferModel>,
    caller: Seq<u8>,
    attached: Seq<TokenPayment>,
    id: OfferId,
) -> Option<EscrowError> {
    if !offers.contains_key(id) {
        Some(EscrowError::OfferNotFound)
    } else if !offers[id].counterparty.allows(caller) {
        Some(EscrowError::Unauthorized)
    } else if !(attached.len() == 1 && attached[0]@ == offers[id].accepted_payment) {
        Some(EscrowError::PaymentMismatch)
    } else {
        None
    }
}

/// Which error `cancel_offer` reports, if any, for the given caller and
/// identifier.
pub open spec fn cancel_error(offers: Map<OfferId, OfferModel>, caller: Seq<u8>, id: OfferId)
    -> Option<EscrowError> {
    if !offers.contains_key(id) {
        Some(EscrowError::OfferNotFound)
    } else if offers[id].creator != caller {
        Some(EscrowError::Unauthorized)
    } else {
        None
    }
}

/// The escrow registry: the offer store and the lifecycle rules over it.
pub struct EscrowSc {
    pub store: OfferStore,
}

impl EscrowSc {
    /// The open offers, as a map from identifier to record.
    pub open spec fn offers(self) -> Map<OfferId, OfferModel> {
        self.store@.offers
    }

    /// The last identifier the counter has issued.
    pub open spec fn last_id(self) -> OfferId {
        self.store.last_id
    }

    /// The contract's custodied balance of a token.
    pub open spec fn custody(self, token: Seq<u8>, nonce: u64) -> int {
        custody_sum(self.store.entries@, token, nonce)
    }

    /// Nothing changed: the registry holds the same records under the same
    /// identifiers and the counter stands where it stood.
    pub open spec fn unchanged(pre: EscrowSc, post: EscrowSc) -> bool {
        post.store.entries@ == pre.store.entries@ && post.store.last_id == pre.store.last_id
    }

    /// Well-formed: the store is well-formed and every open offer carries
    /// positive offered and demanded amounts.
    pub open spec fn wf(self) -> bool {
        &&& self.store.wf()
        &&& forall|i: int|
            0 <= i < self.store.entries@.len() ==> (#[trigger] self.store.entries@[i]).1@
                .offered_payment.amount > 0 && self.store.entries@[i].1@.accepted_payment.amount > 0
    }

    /// A fresh registry: no offers, no custody, no identifier issued yet.
    pub fn new() -> (s: EscrowSc)
        ensures
            s.wf(),
            s.offers() == Map::<OfferId, OfferModel>::empty(),
            s.last_id() == 0,
            forall|token: Seq<u8>, nonce: u64| #[trigger] s.custody(token, nonce) == 0,
    {
        EscrowSc { store: OfferStore::new() }
    }

    /// Registers a new offer: the caller's one attached payment becomes the
    /// custodied offered payment, locked against a demand for
    /// `accepted_amount` units of `accepted_token` (unit instance
    /// `accepted_nonce`) from `counterparty`. Returns the fresh identifier.
    ///
    /// On any error the registry is left unchanged and nothing is owed to
    /// anyone; custody of the attached payment never leaves the contract on
    /// success.
    pub fn create_offer(
        &mut self,
        caller: Vec<u8>,
        attached: Vec<TokenPayment>,
        accepted_token: Vec<u8>,
        accepted_nonce: u64,
        accepted_amount: u128,
        counterparty: Counterparty,
    ) -> (r: Result<OfferId, EscrowError>)
        requires
            old(self).wf(),
            old(self).last_id() < OfferId::MAX,
        ensures
            final(self).wf(),
            r is Err <==> create_error(attached@, accepted_amount) is Some,
            match r {
                Ok(id) => {
                    &&& id == old(self).last_id() + 1
                    &&& final(self).last_id() == id
                    &&& !old(self).offers().contains_key(id)
                    &&& final(self).offers() == old(self).offers().insert(
                        id,
                        OfferModel {
                            creator: caller@,
                            offered_payment: attached@[0]@,
                            accepted_payment: PaymentModel {
                                token: accepted_token@,
                                nonce: accepted_nonce,
                                amount: accepted_amount,
                            },
                            counterparty: counterparty@,
                        },
                    )
                    &&& forall|token: Seq<u8>, nonce: u64|
                        #[trigger] final(self).custody(token, nonce) == old(self).custody(
                            token,
                            nonce,
                        ) + contribution(
                            OfferModel {
                                creator: caller@,
                                offered_payment: attached@[0]@,
                                accepted_payment: PaymentModel {
                                    token: accepted_token@,
                                    nonce: accepted_nonce,
                                    amount: accepted_amount,
                                },
                                counterparty: counterparty@,
                            },
                            token,
                            nonce,
                        )
                },
                Err(e) => {
                    &&& EscrowSc::unchanged(*old(self), *final(self))
                    &&& Some(e) == create_error(attached@, accepted_amount)
                },
            },
    {
        let mut attached = attached;
        if attached.len() != 1 {
            return Err(EscrowError::NoPaymentAttached);
        }
        let offered = attached.pop().unwrap();
        if offered.amount == 0 {
            return Err(EscrowError::NoPaymentAttached);
        }
        if accepted_amount == 0 {
            return Err(EscrowError::InvalidAcceptedAmount);
        }
        let ghost pre_entries = self.store.entries@;
        let id = self.store.next_id();
        let offer = Offer {
            creator: caller,
            offered_payment: offered,
            accepted_payment: TokenPayment::new(accepted_token, accepted_nonce, accepted_amount),
            counterparty,
        };
        let ghost om = offer@;
        self.store.put(id, offer);
        proof {
            assert(self.store.entries@ == pre_entries.push((id, offer)));
            assert forall|token: Seq<u8>, nonce: u64|
                #[trigger] custody_sum(self.store.entries@, token, nonce) == custody_sum(
                    pre_entries,
                    token,
                    nonce,
                ) + contribution(om, token, nonce) by {
                lemma_custody_push(pre_entries, (id, offer), token, nonce);
            }
            assert forall|i: int| 0 <= i < self.store.entries@.len() implies (
            #[trigger] self.store.entries@[i]).1@.offered_payment.amount > 0
                && self.store.entries@[i].1@.accepted_payment.amount > 0 by {
                if i < pre_entries.len() {
                    assert(self.store.entries@[i] == pre_entries[i]);
                } else {
                    assert(self.store.entries@[i] == (id, offer));
                }
            }
        }
        Ok(id)
    }

    /// Fulfils the offer under `id`: the caller must be allowed by the
    /// offer's counterparty and must attach exactly the demanded payment.
    /// Returns the two transfers the host performs atomically with the
    /// record's removal: the attached payment forwarded to the offer's
    /// creator, and the custodied offered payment released to the caller.
    ///
    /// On any error the registry is left unchanged and no transfer is owed.
    pub fn accept_offer(&mut self, caller: Vec<u8>, attached: Vec<TokenPayment>, id: OfferId) -> (r:
        Result<(TransferAction, TransferAction), EscrowError>)
        requires
            old(self).wf(),
        ensures
            final(self).wf(),
            final(self).last_id() == old(self).last_id(),
            r is Err <==> accept_error(old(self).offers(), caller@, attached@, id) is Some,
            match r {
                Ok(transfers) => {
                    &&& old(self).offers().contains_key(id)
                    &&& transfers.0@ == (TransferModel {
                        to: old(self).offers()[id].creator,
                        payment: old(self).offers()[id].accepted_payment,
                    })
                    &&& transfers.1@ == (TransferModel {
                        to: caller@,
                        payment: old(self).offers()[id].offered_payment,
                    })
                    &&& final(self).offers() == old(self).offers().remove(id)
                    &&& forall|token: Seq<u8>, nonce: u64|
                        #[trigger] final(self).custody(token, nonce) == old(self).custody(
                            token,
                            nonce,
                        ) - contribution(old(self).offers()[id], token, nonce)
                    &&& old(self).custody(
                        old(self).offers()[id].offered_payment.token,
                        old(self).offers()[id].offered_payment.nonce,
                    ) >= old(self).offers()[id].offered_payment.amount
                },
                Err(e) => {
                    &&& EscrowSc::unchanged(*old(self), *final(self))
                    &&& Some(e) == accept_error(old(self).offers(), caller@, attached@, id)
                },
            },
    {
        let mut attached = attached;
        match self.store.get(id) {
            None => Err(EscrowError::OfferNotFound),
            Some(offer_ref) => {
                if !counterparty_allows(&offer_ref.counterparty, &caller) {
                    return Err(EscrowError::Unauthorized);
                }
                if attached.len() != 1 {
                    return Err(EscrowError::PaymentMismatch);
                }
                if !payment_matches(&attached[0], &offer_ref.accepted_payment) {
                    return Err(EscrowError::PaymentMismatch);
                }
                let ghost pre_entries = self.store.entries@;
                let offer = self.store.remove(id).unwrap();
                proof {
                    let i = choose|i: int|
                        0 <= i < pre_entries.len() && pre_entries[i].0 == id
                            && self.store.entries@ == pre_entries.remove(i);
                    lemma_entries_map_index(pre_entries, i);
                    assert forall|token: Seq<u8>, nonce: u64|
                        #[trigger] custody_sum(self.store.entries@, token, nonce) == custody_sum(
                            pre_entries,
                            token,
                            nonce,
                        ) - contribution(old(self).offers()[id], token, nonce) by {
                        lemma_custody_remove(pre_entries, i, token, nonce);
                    }
                    lemma_custody_covers_entry(
                        pre_entries,
                        i,
                        pre_entries[i].1@.offered_payment.token,
                        pre_entries[i].1@.offered_payment.nonce,
                    );
                    assert forall|j: int| 0 <= j < self.store.entries@.len() implies (
                    #[trigger] self.store.entries@[j]).1@.offered_payment.amount > 0
                        && self.store.entries@[j].1@.accepted_payment.amount > 0 by {
                        if j < i {
                            assert(self.store.entries@[j] == pre_entries[j]);
                        } else {
                            assert(self.store.entries@[j] == pre_entries[j + 1]);
                        }
                    }
                }
                let to_creator = TransferAction {
                    to: offer.creator,
                    payment: attached.pop().unwrap(),
                };
                let to_caller = TransferAction { to: caller, payment: offer.offered_payment };
                proof {
                    assert(to_creator@ =~= TransferModel {
                        to: old(self).offers()[id].creator,
                        payment: old(self).offers()[id].accepted_payment,
                    });
                    assert(to_caller@ =~= TransferModel {
                        to: caller@,
                        payment: old(self).offers()[id].offered_payment,
                    });
                }
                Ok((to_creator, to_caller))
            },
        }
    }

    /// Withdraws the offer under `id`: only its creator may cancel. Returns
    /// the one transfer the host performs atomically with the record's
    /// removal: the custodied offered payment returned to the creator.
    ///
    /// On any error the registry is left unchanged and no transfer is owed.
    pub fn cancel_offer(&mut self, caller: Vec<u8>, id: OfferId) -> (r: Result<
        TransferAction,
        EscrowError,
    >)
        requires
            old(self).wf(),
        ensures
            final(self).wf(),
            final(self).last_id() == old(self).last_id(),
            r is Err <==> cancel_error(old(self).offers(), caller@, id) is Some,
            match r {
                Ok(transfer) => {
                    &&& old(self).offers().contains_key(id)
                    &&& old(self).offers()[id].creator == caller@
                    &&& transfer@ == (TransferModel {
                        to: caller@,
                        payment: old(self).offers()[id].offered_payment,
                    })
                    &&& final(self).offers() == old(self).offers().remove(id)
                    &&& forall|token: Seq<u8>, nonce: u64|
                        #[trigger] final(self).custody(token, nonce) == old(self).custody(
                            token,
                            nonce,
                        ) - contribution(old(self).offers()[id], token, nonce)
                    &&& old(self).custody(
                        old(self).offers()[id].offered_payment.token,
                        old(self).offers()[id].offered_payment.nonce,
                    ) >= old(self).offers()[id].offered_payment.amount
                },
                Err(e) => {
                    &&& EscrowSc::unchanged(*old(self), *final(self))
                    &&& Some(e) == cancel_error(old(self).offers(), caller@, id)
                },
            },
    {
        match self.store.get(id) {
            None => Err(EscrowError::OfferNotFound),
            Some(offer_ref) => {
                if !crate::payment::bytes_eq(&offer_ref.creator, &caller) {
                    return Err(EscrowError::Unauthorized);
                }
                let ghost pre_entries = self.store.entries@;
                let offer = self.store.remove(id).unwrap();
                proof {
                    let i = choose|i: int|
                        0 <= i < pre_entries.len() && pre_entries[i].0 == id
                            && self.store.entries@ == pre_entries.remove(i);
                    lemma_entries_map_index(pre_entries, i);
                    assert forall|token: Seq<u8>, nonce: u64|
                        #[trigger] custody_sum(self.store.entries@, token, nonce) == custody_sum(
                            pre_entries,
                            token,
                            nonce,
                        ) - contribution(old(self).offers()[id], token, nonce) by {
                        lemma_custody_remove(pre_entries, i, token, nonce);
                    }
                    lemma_custody_covers_entry(
                        pre_entries,
                        i,
                        pre_entries[i].1@.offered_payment.token,
                        pre_entries[i].1@.offered_payment.nonce,
                    );
                    assert forall|j: int| 0 <= j < self.store.entries@.len() implies (
                    #[trigger] self.store.entries@[j]).1@.offered_payment.amount > 0
                        && self.store.entries@[j].1@.accepted_payment.amount > 0 by {
                        if j < i {
                            assert(self.store.entries@[j] == pre_entries[j]);
                        } else {
                            assert(self.store.entries@[j] == pre_entries[j + 1]);
                        }
                    }
                }
                Ok(TransferAction { to: caller, payment: offer.offered_payment })
            },
        }
    }

    /// The contract's custodied balance of a token, computed from the open
    /// offers. The whole custody must fit the machine word, which the caller
    /// knows since every unit entered custody through a machine-sized
    /// attached payment.
    pub fn custody_of(&self, token: &Vec<u8>, nonce: u64) -> (r: u128)
        requires
            self.wf(),
            self.custody(token@, nonce) <= u128::MAX,
        ensures
            r == self.custody(token@, nonce),
    {
        let ghost s = self.store.entries@;
        let mut total: u128 = 0;
        let mut i: usize = 0;
        proof {
            lemma_custody_nonneg(s, token@, nonce);
            assert(s.take(0) =~= Seq::<(OfferId, Offer)>::empty());
        }
        while i < self.store.entries.len()
            invariant
                self.wf(),
                self.custody(token@, nonce) <= u128::MAX,
                s == self.store.entries@,
                i <= s.len(),
                total == custody_sum(s.take(i as int), token@, nonce),
            decreases s.len() - i,
        {
            proof {
                lemma_custody_take_bound(s, i + 1, token@, nonce);
                assert(s.take(i + 1).drop_last() =~= s.take(i as int));
                assert(s.take(i + 1).last() == s[i as int]);
                lemma_custody_nonneg(s.take(i as int), token@, nonce);
            }
            let entry = &self.store.entries[i].1;
            if crate::payment::bytes_eq(&entry.offered_payment.token, token)
                && entry.offered_payment.nonce == nonce {
                total = total + entry.offered_payment.amount;
            }
            i += 1;
        }
        proof {
            assert(s.take(s.len() as int) =~= s);
        }
        total
    }
}

} // verus!
