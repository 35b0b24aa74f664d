//! Value types for asset payments, counterparties and outbound transfers.
//!
//! A payment names a token class by its byte symbol, a unit instance number
//! ("nonce", zero for a purely fungible token) and a quantity. Account
//! identities are opaque byte strings assigned by the hosting ledger.

use vstd::prelude::*;

verus! {

/// An asset payment: a token symbol, a unit instance number (zero meaning
/// "fungible, no sub-unit") and a quantity.
pub struct TokenPayment {
    pub token: Vec<u8>,
    pub nonce: u64,
    pub amount: u128,
}

/// The mathematical value of a [`TokenPayment`].
#[verifier::ext_equal]
pub struct PaymentModel {
    pub token: Seq<u8>,
    pub nonce: u64,
    pub amount: u128,
}

impl View for TokenPayment {
    type V = PaymentModel;

    open spec fn view(&self) -> PaymentModel {
        PaymentModel { token: self.token@, nonce: self.nonce, amount: self.amount }
    }
}

impl TokenPayment {
    pub fn new(token: Vec<u8>, nonce: u64, amount: u128) -> (p: TokenPayment)
        ensures
            p@ == (PaymentModel { token: token@, nonce, amount }),
    {
        let p = TokenPayment { token, nonce, amount };
        proof {
            assert(p@ =~= PaymentModel { token: p.token@, nonce: p.nonce, amount: p.amount });
        }
        p
    }
}

/// The account allowed to fulfil an offer: either any account at all, or one
/// named explicitly.
pub enum Counterparty {
    Any,
    Specific(Vec<u8>),
}

/// The mathematical value of a [`Counterparty`].
#[verifier::ext_equal]
pub enum CounterpartyModel {
    Any,
    Specific(Seq<u8>),
}

impl CounterpartyModel {
    /// Whether an account may fulfil an offer whose counterparty is `self`.
    pub open spec fn allows(self, account: Seq<u8>) -> bool {
        match self {
            CounterpartyModel::Any => true,
            CounterpartyModel::Specific(a) => a == account,
        }
    }
}

impl View for Counterparty {
    type V = CounterpartyModel;

    open spec fn view(&self) -> CounterpartyModel {
        match self {
            Counterparty::Any => CounterpartyModel::Any,
            Counterparty::Specific(a) => CounterpartyModel::Specific(a@),
        }
    }
}

/// An outbound transfer the hosting ledger must perform: move `payment` out
/// of the contract's custody to account `to`.
pub struct TransferAction {
    pub to: Vec<u8>,
    pub payment: TokenPayment,
}

/// The mathematical value of a [`TransferAction`].
#[verifier::ext_equal]
pub struct TransferModel {
    pub to: Seq<u8>,
    pub payment: PaymentModel,
}

impl View for TransferAction {
    type V = TransferModel;

    open spec fn view(&self) -> TransferModel {
        TransferModel { to: self.to@, payment: self.payment@ }
    }
}

/// Byte-string equality, used for token symbols and account identities.
pub fn bytes_eq(a: &Vec<u8>, b: &Vec<u8>) -> (r: bool)
    ensures
        r == (a@ == b@),
{
    if a.len() != b.len() {
        return false;
    }
    let mut i: usize = 0;
    while i < a.len()
        invariant
            i <= a.len(),
            a@.len() == b@.len(),
            forall|j: int| 0 <= j < i ==> a@[j] == b@[j],
        decreases a.len() - i,
    {
        if a[i] != b[i] {
            return false;
        }
        i += 1;
    }
    proof {
        assert(a@ =~= b@);
    }
    true
}

/// Whether two payments agree exactly: same token, same unit instance
/// number, same amount.
pub fn payment_matches(a: &TokenPayment, b: &TokenPayment) -> (r: bool)
    ensures
        r == (a@ == b@),
{
    let r = bytes_eq(&a.token, &b.token) && a.nonce == b.nonce && a.amount == b.amount;
    proof {
        if r {
            assert(a@ =~= b@);
        }
    }
    r
}

/// Whether `caller` is allowed to fulfil an offer restricted to `cp`.
pub fn counterparty_allows(cp: &Counterparty, caller: &Vec<u8>) -> (r: bool)
    ensures
        r == cp@.allows(caller@),
{
    match cp {
        Counterparty::Any => true,
        Counterparty::Specific(a) => bytes_eq(a, caller),
    }
}

} // verus!
