//! The offer store: a durable mapping from offer identifier to offer record,
//! plus a monotonic counter that allocates identifiers.
//!
//! The store performs no validation of its own; its whole contract is the
//! four operations [`OfferStore::next_id`], [`OfferStore::get`],
//! [`OfferStore::put`] and [`OfferStore::remove`]. The counter never
//! decreases and never reissues an identifier it has already returned.

use vstd::prelude::*;
use crate::payment::{TokenPayment, PaymentModel, Counterparty, CounterpartyModel};

verus! {

pub type OfferId = u64;

/// A durable offer record: a custodied asset paired with a demanded asset
/// and the counterparty authorized to fulfil the exchange.
pub struct Offer {
    /// The account that created the offer and custodied the offered payment.
    pub creator: Vec<u8>,
    /// The payment currently held in the contract's custody.
    pub offered_payment: TokenPayment,
    /// The payment the creator demands in return: a descriptor, not an asset
    /// in custody.
    pub accepted_payment: TokenPayment,
    /// Who may fulfil the offer.
    pub counterparty: Counterparty,
}

/// The mathematical value of an [`Offer`].
#[verifier::ext_equal]
pub struct OfferModel {
    pub creator: Seq<u8>,
    pub offered_payment: PaymentModel,
    pub accepted_payment: PaymentModel,
    pub counterparty: CounterpartyModel,
}

impl View for Offer {
    type V = OfferModel;

    open spec fn view(&self) -> OfferModel {
        OfferModel {
            creator: self.creator@,
            offered_payment: self.offered_payment@,
            accepted_payment: self.accepted_payment@,
            counterparty: self.counterparty@,
        }
    }
}

/// The store's state: an association list of records keyed by identifier,
/// and the last identifier the counter has issued.
pub struct OfferStore {
    pub entries: Vec<(OfferId, Offer)>,
    pub last_id: OfferId,
}

/// The mathematical value of an [`OfferStore`]: a finite map of open offers
/// and the counter.
#[verifier::ext_equal]
pub struct StoreModel {
    pub offers: Map<OfferId, OfferModel>,
    pub last_id: OfferId,
}

/// No identifier occurs twice among the entries.
pub open spec fn distinct_keys(s: Seq<(OfferId, Offer)>) -> bool {
    forall|i: int, j: int| 0 <= i < j < s.len() ==> s[i].0 != s[j].0
}

/// The map an entry sequence denotes.
pub open spec fn entries_map(s: Seq<(OfferId, Offer)>) -> Map<OfferId, OfferModel>
    decreases s.len(),
{
    if s.len() == 0 {
        Map::empty()
    } else {
        entries_map(s.drop_last()).insert(s.last().0, s.last().1@)
    }
}

impl View for OfferStore {
    type V = StoreModel;

    open spec fn view(&self) -> StoreModel {
        StoreModel { offers: entries_map(self.entries@), last_id: self.last_id }
    }
}

/// A key is in the denoted map exactly when some entry carries it.
pub proof fn lemma_entries_map_contains(s: Seq<(OfferId, Offer)>, id: OfferId)
    ensures
        entries_map(s).contains_key(id) <==> exists|i: int| 0 <= i < s.len() && s[i].0 == id,
    decreases s.len(),
{
    if s.len() == 0 {
    } else {
        lemma_entries_map_contains(s.drop_last(), id);
        if entries_map(s).contains_key(id) {
            if s.last().0 == id {
                assert(s[s.len() - 1].0 == id);
            } else {
                let i = choose|i: int| 0 <= i < s.drop_last().len() && s.drop_last()[i].0 == id;
                assert(s[i].0 == id);
            }
        }
        if exists|i: int| 0 <= i < s.len() && s[i].0 == id {
            let i = choose|i: int| 0 <= i < s.len() && s[i].0 == id;
            if i < s.len() - 1 {
                assert(s.drop_last()[i].0 == id);
            }
        }
    }
}

/// With distinct keys, the denoted map sends each entry's key to that
/// entry's record.
pub proof fn lemma_entries_map_index(s: Seq<(OfferId, Offer)>, i: int)
    requires
        distinct_keys(s),
        0 <= i < s.len(),
    ensures
        entries_map(s).contains_key(s[i].0),
        entries_map(s)[s[i].0] == s[i].1@,
    decreases s.len(),
{
    if i == s.len() - 1 {
    } else {
        assert(distinct_keys(s.drop_last()));
        assert(s.drop_last()[i] == s[i]);
        lemma_entries_map_index(s.drop_last(), i);
        assert(s.last().0 != s[i].0);
    }
}

/// Appending an entry inserts its key.
pub proof fn lemma_entries_map_push(s: Seq<(OfferId, Offer)>, e: (OfferId, Offer))
    ensures
        entries_map(s.push(e)) == entries_map(s).insert(e.0, e.1@),
{
    assert(s.push(e).drop_last() =~= s);
    assert(s.push(e).last() == e);
}

/// With distinct keys, deleting the entry at `i` removes its key and nothing
/// else.
pub proof fn lemma_entries_map_remove(s: Seq<(OfferId, Offer)>, i: int)
    requires
        distinct_keys(s),
        0 <= i < s.len(),
    ensures
        entries_map(s.remove(i)) == entries_map(s).remove(s[i].0),
    decreases s.len(),
{
    let id = s[i].0;
    if i == s.len() - 1 {
        assert(s.remove(i) =~= s.drop_last());
        lemma_entries_map_contains(s.drop_last(), id);
        assert forall|j: int| 0 <= j < s.drop_last().len() implies s.drop_last()[j].0 != id by {
            assert(s[j].0 == s.drop_last()[j].0);
        }
        assert(!entries_map(s.drop_last()).contains_key(id));
        assert(entries_map(s).remove(id) =~= entries_map(s.drop_last()));
    } else {
        assert(distinct_keys(s.drop_last()));
        assert(s.drop_last()[i] == s[i]);
        lemma_entries_map_remove(s.drop_last(), i);
        assert(s.remove(i).drop_last() =~= s.drop_last().remove(i));
        assert(s.remove(i).last() == s.last());
        assert(s.remove(i).len() > 0);
        assert(entries_map(s.remove(i)) == entries_map(s.drop_last().remove(i)).insert(
            s.last().0,
            s.last().1@,
        ));
        assert(s.last().0 != id);
        assert(entries_map(s.drop_last()).remove(id).insert(s.last().0, s.last().1@)
            =~= entries_map(s.drop_last()).insert(s.last().0, s.last().1@).remove(id));
    }
}

impl OfferStore {
    /// Well-formed: entry keys are distinct, and every stored identifier has
    /// already been issued by the counter.
    pub open spec fn wf(self) -> bool {
        &&& distinct_keys(self.entries@)
        &&& forall|i: int| 0 <= i < self.entries@.len() ==> self.entries@[i].0 <= self.last_id
    }

    /// An empty store whose counter has issued nothing yet.
    pub fn new() -> (s: OfferStore)
        ensures
            s.wf(),
            s.entries@ == Seq::<(OfferId, Offer)>::empty(),
            s@.offers == Map::<OfferId, OfferModel>::empty(),
            s@.last_id == 0,
    {
        OfferStore { entries: Vec::new(), last_id: 0 }
    }

    /// Returns a fresh identifier and durably advances the counter, so that
    /// no future call can return the same value.
    pub fn next_id(&mut self) -> (id: OfferId)
        requires
            old(self).wf(),
            old(self).last_id < OfferId::MAX,
        ensures
            final(self).wf(),
            id == old(self).last_id + 1,
            final(self).last_id == id,
            final(self).entries@ == old(self).entries@,
            final(self)@.offers == old(self)@.offers,
            !old(self)@.offers.contains_key(id),
    {
        proof {
            lemma_entries_map_contains(self.entries@, (self.last_id + 1) as OfferId);
        }
        self.last_id = self.last_id + 1;
        self.last_id
    }

    /// The index of the entry holding `id`, if any.
    fn find(&self, id: OfferId) -> (r: Option<usize>)
        requires
            self.wf(),
        ensures
            match r {
                Some(i) => i < self.entries@.len() && self.entries@[i as int].0 == id,
                None => !self@.offers.contains_key(id),
            },
    {
        let mut i: usize = 0;
        while i < self.entries.len()
            invariant
                self.wf(),
                i <= self.entries@.len(),
                forall|j: int| 0 <= j < i ==> self.entries@[j].0 != id,
            decreases self.entries@.len() - i,
        {
            if self.entries[i].0 == id {
                return Some(i);
            }
            i += 1;
        }
        proof {
            lemma_entries_map_contains(self.entries@, id);
        }
        None
    }

    /// The record stored under `id`, if present.
    pub fn get(&self, id: OfferId) -> (r: Option<&Offer>)
        requires
            self.wf(),
        ensures
            match r {
                Some(o) => self@.offers.contains_key(id) && o@ == self@.offers[id],
                None => !self@.offers.contains_key(id),
            },
    {
        match self.find(id) {
            Some(i) => {
                proof {
                    lemma_entries_map_index(self.entries@, i as int);
                }
                Some(&self.entries[i].1)
            },
            None => None,
        }
    }

    /// Inserts or overwrites the record under `id`. The identifier must have
    /// been issued by the counter, which keeps issued identifiers fresh.
    pub fn put(&mut self, id: OfferId, offer: Offer)
        requires
            old(self).wf(),
            id <= old(self).last_id,
        ensures
            final(self).wf(),
            final(self)@.offers == old(self)@.offers.insert(id, offer@),
            final(self)@.last_id == old(self)@.last_id,
            !old(self)@.offers.contains_key(id)
                ==> final(self).entries@ == old(self).entries@.push((id, offer)),
    {
        let ghost s0 = self.entries@;
        match self.find(id) {
            Some(i) => {
                proof {
                    lemma_entries_map_index(s0, i as int);
                    lemma_entries_map_remove(s0, i as int);
                }
                self.entries.remove(i);
                let ghost s1 = self.entries@;
                proof {
                    assert(distinct_keys(s1)) by {
                        assert(forall|j: int| 0 <= j < s1.len() ==> s1[j] == s0.remove(i as int)[j]);
                    }
                    assert forall|j: int| 0 <= j < s1.len() implies s1[j].0 != id by {
                        if j < i {
                            assert(s1[j] == s0[j]);
                        } else {
                            assert(s1[j] == s0[j + 1]);
                        }
                    }
                }
                self.entries.push((id, offer));
                proof {
                    lemma_entries_map_push(s1, (id, offer));
                    assert(entries_map(s0).remove(id).insert(id, offer@) =~= entries_map(
                        s0,
                    ).insert(id, offer@));
                }
            },
            None => {
                proof {
                    lemma_entries_map_contains(s0, id);
                }
                self.entries.push((id, offer));
                proof {
                    lemma_entries_map_push(s0, (id, offer));
                }
            },
        }
    }

    /// Deletes and returns the record under `id`; fails, changing nothing,
    /// if no record is present.
    pub fn remove(&mut self, id: OfferId) -> (r: Option<Offer>)
        requires
            old(self).wf(),
        ensures
            final(self).wf(),
            final(self)@.last_id == old(self)@.last_id,
            match r {
                Some(o) => old(self)@.offers.contains_key(id) && o@ == old(self)@.offers[id]
                    && final(self)@.offers == old(self)@.offers.remove(id) && exists|i: int|
                    0 <= i < old(self).entries@.len() && old(self).entries@[i].0 == id
                        && final(self).entries@ == old(self).entries@.remove(i),
                None => !old(self)@.offers.contains_key(id)
                    && final(self).entries@ == old(self).entries@
                    && final(self).last_id == old(self).last_id,
            },
    {
        match self.find(id) {
            Some(i) => {
                proof {
                    lemma_entries_map_index(self.entries@, i as int);
                    lemma_entries_map_remove(self.entries@, i as int);
                }
                let (_, offer) = self.entries.remove(i);
                Some(offer)
            },
            None => None,
        }
    }
}

} // verus!
