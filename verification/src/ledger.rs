//! A model of the hosting ledger's account balances.
//!
//! The lifecycle manager never moves assets itself: it returns
//! [`TransferAction`] values and the host performs them. This component
//! says what performing them does to balances, so that settlement can be
//! stated and checked end to end: each transfer raises the destination's
//! balance of the moved token by exactly the moved amount and touches no
//! other balance.

use vstd::prelude::*;
use crate::payment::{TransferAction, TransferModel};

verus! {

/// One account's balance of one token class and unit instance.
pub struct BalanceEntry {
    pub account: Vec<u8>,
    pub token: Vec<u8>,
    pub nonce: u64,
    pub amount: u128,
}

impl BalanceEntry {
    /// Whether this entry is the cell for the given account and asset.
    pub open spec fn is_cell(self, account: Seq<u8>, token: Seq<u8>, nonce: u64) -> bool {
        self.account@ == account && self.token@ == token && self.nonce == nonce
    }
}

/// Account balances, one entry per (account, token, unit instance) cell;
/// an absent cell holds zero.
pub struct Ledger {
    pub entries: Vec<BalanceEntry>,
}

/// The balance an entry sequence gives a cell, zero when no entry is its.
pub open spec fn balance_in(s: Seq<BalanceEntry>, account: Seq<u8>, token: Seq<u8>, nonce: u64)
    -> u128
    decreases s.len(),
{
    if s.len() == 0 {
        0
    } else if s.last().is_cell(account, token, nonce) {
        s.last().amount
    } else {
        balance_in(s.drop_last(), account, token, nonce)
    }
}

/// No two entries describe the same cell.
pub open spec fn distinct_cells(s: Seq<BalanceEntry>) -> bool {
    forall|i: int, j: int|
        0 <= i < j < s.len() ==> !s[j].is_cell(s[i].account@, s[i].token@, s[i].nonce)
}

/// With distinct cells, the entry at `i` decides its own cell's balance.
pub proof fn lemma_balance_index(s: Seq<BalanceEntry>, i: int)
    requires
        distinct_cells(s),
        0 <= i < s.len(),
    ensures
        balance_in(s, s[i].account@, s[i].token@, s[i].nonce) == s[i].amount,
    decreases s.len(),
{
    if i == s.len() - 1 {
    } else {
        assert(!s.last().is_cell(s[i].account@, s[i].token@, s[i].nonce));
        assert(distinct_cells(s.drop_last()));
        assert(s.drop_last()[i] == s[i]);
        lemma_balance_index(s.drop_last(), i);
    }
}

/// A cell no entry describes holds zero.
pub proof fn lemma_balance_absent(s: Seq<BalanceEntry>, account: Seq<u8>, token: Seq<u8>, nonce: u64)
    requires
        forall|i: int| 0 <= i < s.len() ==> !(#[trigger] s[i]).is_cell(account, token, nonce),
    ensures
        balance_in(s, account, token, nonce) == 0,
    decreases s.len(),
{
    if s.len() > 0 {
        assert(s.drop_last()[s.len() - 2] == s[s.len() - 2] || s.len() == 1);
        assert(forall|i: int|
            0 <= i < s.drop_last().len() ==> s.drop_last()[i] == s[i]);
        lemma_balance_absent(s.drop_last(), account, token, nonce);
    }
}

/// Raising one entry's amount changes that cell's balance and no other.
pub proof fn lemma_balance_update(
    s: Seq<BalanceEntry>,
    i: int,
    e: BalanceEntry,
    account: Seq<u8>,
    token: Seq<u8>,
    nonce: u64,
)
    requires
        distinct_cells(s),
        0 <= i < s.len(),
        e.is_cell(s[i].account@, s[i].token@, s[i].nonce),
    ensures
        balance_in(s.update(i, e), account, token, nonce) == if s[i].is_cell(
            account,
            token,
            nonce,
        ) {
            e.amount
        } else {
            balance_in(s, account, token, nonce)
        },
    decreases s.len(),
{
    if i == s.len() - 1 {
        assert(s.update(i, e).drop_last() =~= s.drop_last());
        assert(s.update(i, e).last() == e);
    } else {
        assert(s.update(i, e).drop_last() =~= s.drop_last().update(i, e));
        assert(s.update(i, e).last() == s.last());
        assert(distinct_cells(s.drop_last()));
        assert(s.drop_last()[i] == s[i]);
        lemma_balance_update(s.drop_last(), i, e, account, token, nonce);
    }
}

/// Appending an entry for a new cell sets that cell and no other.
pub proof fn lemma_balance_push(
    s: Seq<BalanceEntry>,
    e: BalanceEntry,
    account: Seq<u8>,
    token: Seq<u8>,
    nonce: u64,
)
    ensures
        balance_in(s.push(e), account, token, nonce) == if e.is_cell(account, token, nonce) {
            e.amount
        } else {
            balance_in(s, account, token, nonce)
        },
{
    assert(s.push(e).drop_last() =~= s);
    assert(s.push(e).last() == e);
}

/// What performing one transfer does: the destination's balance of the
/// moved asset rises by the moved amount; every other balance is untouched.
pub open spec fn transfer_applied(pre: Ledger, t: TransferModel, post: Ledger) -> bool {
    &&& post.balance(t.to, t.payment.token, t.payment.nonce) == pre.balance(
        t.to,
        t.payment.token,
        t.payment.nonce,
    ) + t.payment.amount
    &&& forall|account: Seq<u8>, token: Seq<u8>, nonce: u64|
        !(account == t.to && token == t.payment.token && nonce == t.payment.nonce)
            ==> #[trigger] post.balance(account, token, nonce) == pre.balance(
            account,
            token,
            nonce,
        )
}

impl Ledger {
    /// One entry per cell.
    pub open spec fn wf(self) -> bool {
        distinct_cells(self.entries@)
    }

    /// The balance of a cell, zero when the cell was never funded.
    pub open spec fn balance(self, account: Seq<u8>, token: Seq<u8>, nonce: u64) -> u128 {
        balance_in(self.entries@, account, token, nonce)
    }

    /// A ledger where every balance is zero.
    pub fn new() -> (l: Ledger)
        ensures
            l.wf(),
            forall|account: Seq<u8>, token: Seq<u8>, nonce: u64|
                #[trigger] l.balance(account, token, nonce) == 0,
    {
        Ledger { entries: Vec::new() }
    }

    /// The index of the entry for a cell, if one exists.
    fn find(&self, account: &Vec<u8>, token: &Vec<u8>, nonce: u64) -> (r: Option<usize>)
        requires
            self.wf(),
        ensures
            match r {
                Some(i) => i < self.entries@.len() && self.entries@[i as int].is_cell(
                    account@,
                    token@,
                    nonce,
                ),
                None => forall|i: int|
                    0 <= i < self.entries@.len() ==> !(#[trigger] self.entries@[i]).is_cell(
                        account@,
                        token@,
                        nonce,
                    ),
            },
    {
        let mut i: usize = 0;
        while i < self.entries.len()
            invariant
                i <= self.entries@.len(),
                forall|j: int|
                    0 <= j < i ==> !(#[trigger] self.entries@[j]).is_cell(account@, token@, nonce),
            decreases self.entries@.len() - i,
        {
            let e = &self.entries[i];
            if crate::payment::bytes_eq(&e.account, account) && crate::payment::bytes_eq(
                &e.token,
                token,
            ) && e.nonce == nonce {
                return Some(i);
            }
            i += 1;
        }
        None
    }

    /// The balance held by `account` in the given token class and unit
    /// instance.
    pub fn balance_of(&self, account: &Vec<u8>, token: &Vec<u8>, nonce: u64) -> (r: u128)
        requires
            self.wf(),
        ensures
            r == self.balance(account@, token@, nonce),
    {
        match self.find(account, token, nonce) {
            Some(i) => {
                proof {
                    lemma_balance_index(self.entries@, i as int);
                }
                self.entries[i].amount
            },
            None => {
                proof {
                    lemma_balance_absent(self.entries@, account@, token@, nonce);
                }
                0
            },
        }
    }

    /// Performs one outbound transfer of the contract: credits the
    /// destination with the moved payment. The destination's balance must
    /// not outgrow the machine word.
    pub fn apply_transfer(&mut self, t: &TransferAction)
        requires
            old(self).wf(),
            old(self).balance(t.to@, t.payment.token@, t.payment.nonce) + t.payment.amount
                <= u128::MAX,
        ensures
            final(self).wf(),
            transfer_applied(*old(self), t@, *final(self)),
    {
        let ghost s0 = self.entries@;
        match self.find(&t.to, &t.payment.token, t.payment.nonce) {
            Some(i) => {
                proof {
                    lemma_balance_index(s0, i as int);
                }
                let cell = &mut self.entries[i];
                let new_amount = cell.amount + t.payment.amount;
                cell.amount = new_amount;
                proof {
                    let e = self.entries@[i as int];
                    assert(self.entries@ =~= s0.update(i as int, e));
                    assert forall|account: Seq<u8>, token: Seq<u8>, nonce: u64|
                        #[trigger] balance_in(self.entries@, account, token, nonce) == if s0[
                        i as int].is_cell(account, token, nonce) {
                        e.amount
                    } else {
                        balance_in(s0, account, token, nonce)
                    } by {
                        lemma_balance_update(s0, i as int, e, account, token, nonce);
                    }
                    assert(distinct_cells(self.entries@)) by {
                        assert(forall|j: int|
                            0 <= j < s0.len() && j != i ==> self.entries@[j] == s0[j]);
                    }
                }
            },
            None => {
                proof {
                    lemma_balance_absent(s0, t.to@, t.payment.token@, t.payment.nonce);
                }
                let cell = BalanceEntry {
                    account: clone_bytes(&t.to),
                    token: clone_bytes(&t.payment.token),
                    nonce: t.payment.nonce,
                    amount: t.payment.amount,
                };
                self.entries.push(cell);
                proof {
                    let e = self.entries@.last();
                    assert forall|account: Seq<u8>, token: Seq<u8>, nonce: u64|
                        #[trigger] balance_in(self.entries@, account, token, nonce) == if e.is_cell(
                            account,
                            token,
                            nonce,
                        ) {
                        e.amount
                    } else {
                        balance_in(s0, account, token, nonce)
                    } by {
                        lemma_balance_push(s0, e, account, token, nonce);
                    }
                    assert(distinct_cells(self.entries@)) by {
                        assert(forall|j: int| 0 <= j < s0.len() ==> self.entries@[j] == s0[j]);
                    }
                }
            },
        }
    }
}

/// A private copy of a byte string.
fn clone_bytes(v: &Vec<u8>) -> (r: Vec<u8>)
    ensures
        r@ == v@,
{
    let mut r: Vec<u8> = Vec::new();
    let mut i: usize = 0;
    while i < v.len()
        invariant
            i <= v@.len(),
            r@ == v@.take(i as int),
        decreases v@.len() - i,
    {
        r.push(v[i]);
        proof {
            assert(v@.take(i + 1) =~= v@.take(i as int).push(v@[i as int]));
        }
        i += 1;
    }
    proof {
        assert(v@.take(v@.len() as int) =~= v@);
    }
    r
}

} // verus!
