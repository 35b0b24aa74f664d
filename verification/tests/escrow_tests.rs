use escrow_sc::errors::EscrowError;
use escrow_sc::payment::TransferAction;
use escrow_sc::store::{Offer, OfferStore};
use escrow_sc::escrow::EscrowSc;
use escrow_sc::ledger::Ledger;
use escrow_sc::payment::{Counterparty, TokenPayment};

fn payment(token: &[u8], nonce: u64, amount: u128) -> TokenPayment {
    TokenPayment::new(token.to_vec(), nonce, amount)
}

const TOKEN_A: &[u8] = b"TOKEN-A";
const TOKEN_B: &[u8] = b"TOKEN-B";
const ALICE: &[u8] = b"alice";
const BOB: &[u8] = b"bob";
const CAROL: &[u8] = b"carol";

fn create_default_offer(esc: &mut EscrowSc) -> u64 {
    esc.create_offer(
        ALICE.to_vec(),
        vec![payment(TOKEN_A, 0, 100)],
        TOKEN_B.to_vec(),
        0,
        50,
        Counterparty::Specific(BOB.to_vec()),
    )
    .unwrap()
}

#[test]
fn create_returns_successive_ids() {
    let mut esc = EscrowSc::new();
    let id1 = create_default_offer(&mut esc);
    let id2 = create_default_offer(&mut esc);
    let id3 = create_default_offer(&mut esc);
    assert_eq!(id1, 1);
    assert_eq!(id2, 2);
    assert_eq!(id3, 3);
}

#[test]
fn ids_are_never_reissued_after_resolution() {
    let mut esc = EscrowSc::new();
    let id1 = create_default_offer(&mut esc);
    esc.cancel_offer(ALICE.to_vec(), id1).unwrap();
    let id2 = create_default_offer(&mut esc);
    assert!(id2 > id1);
    assert_eq!(id2, 2);
}

#[test]
fn create_stores_the_attached_payment_and_takes_custody() {
    let mut esc = EscrowSc::new();
    let id = create_default_offer(&mut esc);
    let offer = esc.store.get(id).expect("offer must be stored");
    assert_eq!(offer.creator, ALICE.to_vec());
    assert_eq!(offer.offered_payment.token, TOKEN_A.to_vec());
    assert_eq!(offer.offered_payment.nonce, 0);
    assert_eq!(offer.offered_payment.amount, 100);
    assert_eq!(offer.accepted_payment.token, TOKEN_B.to_vec());
    assert_eq!(offer.accepted_payment.amount, 50);
    assert_eq!(esc.custody_of(&TOKEN_A.to_vec(), 0), 100);
    assert_eq!(esc.custody_of(&TOKEN_B.to_vec(), 0), 0);
}

#[test]
fn custody_accumulates_over_offers_of_the_same_token() {
    let mut esc = EscrowSc::new();
    create_default_offer(&mut esc);
    esc.create_offer(
        CAROL.to_vec(),
        vec![payment(TOKEN_A, 0, 7)],
        TOKEN_B.to_vec(),
        0,
        1,
        Counterparty::Any,
    )
    .unwrap();
    assert_eq!(esc.custody_of(&TOKEN_A.to_vec(), 0), 107);
}

#[test]
fn create_with_no_attachment_fails() {
    let mut esc = EscrowSc::new();
    let r = esc.create_offer(
        ALICE.to_vec(),
        vec![],
        TOKEN_B.to_vec(),
        0,
        50,
        Counterparty::Any,
    );
    assert_eq!(r, Err(EscrowError::NoPaymentAttached));
    assert_eq!(esc.store.last_id, 0);
}

#[test]
fn create_with_two_attachments_fails() {
    let mut esc = EscrowSc::new();
    let r = esc.create_offer(
        ALICE.to_vec(),
        vec![payment(TOKEN_A, 0, 100), payment(TOKEN_B, 0, 5)],
        TOKEN_B.to_vec(),
        0,
        50,
        Counterparty::Any,
    );
    assert_eq!(r, Err(EscrowError::NoPaymentAttached));
}

#[test]
fn create_with_zero_amount_attachment_fails() {
    let mut esc = EscrowSc::new();
    let r = esc.create_offer(
        ALICE.to_vec(),
        vec![payment(TOKEN_A, 0, 0)],
        TOKEN_B.to_vec(),
        0,
        50,
        Counterparty::Any,
    );
    assert_eq!(r, Err(EscrowError::NoPaymentAttached));
}

#[test]
fn create_demanding_zero_fails() {
    let mut esc = EscrowSc::new();
    let r = esc.create_offer(
        ALICE.to_vec(),
        vec![payment(TOKEN_A, 0, 100)],
        TOKEN_B.to_vec(),
        0,
        0,
        Counterparty::Any,
    );
    assert_eq!(r, Err(EscrowError::InvalidAcceptedAmount));
    assert!(esc.store.get(1).is_none());
}

#[test]
fn accept_of_absent_offer_fails() {
    let mut esc = EscrowSc::new();
    let r = esc.accept_offer(BOB.to_vec(), vec![payment(TOKEN_B, 0, 50)], 7);
    assert!(matches!(r, Err(EscrowError::OfferNotFound)));
}

#[test]
fn accept_by_unauthorized_account_changes_nothing() {
    let mut esc = EscrowSc::new();
    let id = create_default_offer(&mut esc);
    let r = esc.accept_offer(CAROL.to_vec(), vec![payment(TOKEN_B, 0, 50)], id);
    assert!(matches!(r, Err(EscrowError::Unauthorized)));
    assert!(esc.store.get(id).is_some());
    assert_eq!(esc.custody_of(&TOKEN_A.to_vec(), 0), 100);
}

#[test]
fn accept_with_wrong_amount_leaves_offer_open() {
    let mut esc = EscrowSc::new();
    let id = create_default_offer(&mut esc);
    let r = esc.accept_offer(BOB.to_vec(), vec![payment(TOKEN_B, 0, 40)], id);
    assert!(matches!(r, Err(EscrowError::PaymentMismatch)));
    let offer = esc.store.get(id).expect("offer must stay open");
    assert_eq!(offer.offered_payment.amount, 100);
    assert_eq!(esc.custody_of(&TOKEN_A.to_vec(), 0), 100);
}

#[test]
fn accept_with_wrong_token_fails() {
    let mut esc = EscrowSc::new();
    let id = create_default_offer(&mut esc);
    let r = esc.accept_offer(BOB.to_vec(), vec![payment(TOKEN_A, 0, 50)], id);
    assert!(matches!(r, Err(EscrowError::PaymentMismatch)));
}

#[test]
fn accept_with_wrong_nonce_fails() {
    let mut esc = EscrowSc::new();
    let id = create_default_offer(&mut esc);
    let r = esc.accept_offer(BOB.to_vec(), vec![payment(TOKEN_B, 3, 50)], id);
    assert!(matches!(r, Err(EscrowError::PaymentMismatch)));
}

#[test]
fn accept_with_no_attachment_fails_as_mismatch() {
    let mut esc = EscrowSc::new();
    let id = create_default_offer(&mut esc);
    let r = esc.accept_offer(BOB.to_vec(), vec![], id);
    assert!(matches!(r, Err(EscrowError::PaymentMismatch)));
}

#[test]
fn accept_settles_both_sides_and_removes_the_offer() {
    let mut esc = EscrowSc::new();
    let id = create_default_offer(&mut esc);
    let (to_creator, to_caller) = esc
        .accept_offer(BOB.to_vec(), vec![payment(TOKEN_B, 0, 50)], id)
        .unwrap();
    assert!(esc.store.get(id).is_none());
    assert_eq!(esc.custody_of(&TOKEN_A.to_vec(), 0), 0);
    assert_eq!(to_creator.to, ALICE.to_vec());
    assert_eq!(to_creator.payment.token, TOKEN_B.to_vec());
    assert_eq!(to_creator.payment.amount, 50);
    assert_eq!(to_caller.to, BOB.to_vec());
    assert_eq!(to_caller.payment.token, TOKEN_A.to_vec());
    assert_eq!(to_caller.payment.amount, 100);

    let mut ledger = Ledger::new();
    ledger.apply_transfer(&to_creator);
    ledger.apply_transfer(&to_caller);
    assert_eq!(ledger.balance_of(&ALICE.to_vec(), &TOKEN_B.to_vec(), 0), 50);
    assert_eq!(ledger.balance_of(&BOB.to_vec(), &TOKEN_A.to_vec(), 0), 100);
    assert_eq!(ledger.balance_of(&ALICE.to_vec(), &TOKEN_A.to_vec(), 0), 0);
}

#[test]
fn wildcard_offer_can_be_accepted_by_anyone() {
    let mut esc = EscrowSc::new();
    let id = esc
        .create_offer(
            ALICE.to_vec(),
            vec![payment(TOKEN_A, 0, 100)],
            TOKEN_B.to_vec(),
            0,
            50,
            Counterparty::Any,
        )
        .unwrap();
    let r = esc.accept_offer(CAROL.to_vec(), vec![payment(TOKEN_B, 0, 50)], id);
    assert!(r.is_ok());
    assert!(esc.store.get(id).is_none());
}

#[test]
fn semi_fungible_units_are_matched_by_nonce() {
    let mut esc = EscrowSc::new();
    let id = esc
        .create_offer(
            ALICE.to_vec(),
            vec![payment(TOKEN_A, 5, 1)],
            TOKEN_B.to_vec(),
            9,
            2,
            Counterparty::Specific(BOB.to_vec()),
        )
        .unwrap();
    assert_eq!(esc.custody_of(&TOKEN_A.to_vec(), 5), 1);
    assert_eq!(esc.custody_of(&TOKEN_A.to_vec(), 0), 0);
    let (to_creator, to_caller) = esc
        .accept_offer(BOB.to_vec(), vec![payment(TOKEN_B, 9, 2)], id)
        .unwrap();
    assert_eq!(to_creator.payment.nonce, 9);
    assert_eq!(to_caller.payment.nonce, 5);
}

#[test]
fn cancel_of_absent_offer_fails() {
    let mut esc = EscrowSc::new();
    let r = esc.cancel_offer(ALICE.to_vec(), 1);
    assert!(matches!(r, Err(EscrowError::OfferNotFound)));
}

#[test]
fn cancel_by_non_creator_fails() {
    let mut esc = EscrowSc::new();
    let id = create_default_offer(&mut esc);
    let r = esc.cancel_offer(BOB.to_vec(), id);
    assert!(matches!(r, Err(EscrowError::Unauthorized)));
    assert!(esc.store.get(id).is_some());
}

#[test]
fn cancel_returns_custody_to_the_creator() {
    let mut esc = EscrowSc::new();
    let id = create_default_offer(&mut esc);
    let transfer = esc.cancel_offer(ALICE.to_vec(), id).unwrap();
    assert!(esc.store.get(id).is_none());
    assert_eq!(esc.custody_of(&TOKEN_A.to_vec(), 0), 0);
    assert_eq!(transfer.to, ALICE.to_vec());
    assert_eq!(transfer.payment.token, TOKEN_A.to_vec());
    assert_eq!(transfer.payment.amount, 100);

    let mut ledger = Ledger::new();
    ledger.apply_transfer(&transfer);
    assert_eq!(ledger.balance_of(&ALICE.to_vec(), &TOKEN_A.to_vec(), 0), 100);
}

#[test]
fn exchange_scenario_mismatch_then_exact_fill() {
    // Creator C offers 100 A demanding 50 B from counterparty D (id = 1).
    let mut esc = EscrowSc::new();
    let c = b"account-c".to_vec();
    let d = b"account-d".to_vec();
    let id = esc
        .create_offer(
            c.clone(),
            vec![payment(b"A", 0, 100)],
            b"B".to_vec(),
            0,
            50,
            Counterparty::Specific(d.clone()),
        )
        .unwrap();
    assert_eq!(id, 1);

    // D attaches 40 B: mismatch, offer 1 still open.
    let r = esc.accept_offer(d.clone(), vec![payment(b"B", 0, 40)], 1);
    assert!(matches!(r, Err(EscrowError::PaymentMismatch)));
    assert!(esc.store.get(1).is_some());

    // D attaches 50 B: succeeds; D receives 100 A, C receives 50 B.
    let (to_creator, to_caller) = esc
        .accept_offer(d.clone(), vec![payment(b"B", 0, 50)], 1)
        .unwrap();
    let mut ledger = Ledger::new();
    ledger.apply_transfer(&to_creator);
    ledger.apply_transfer(&to_caller);
    assert_eq!(ledger.balance_of(&d, &b"A".to_vec(), 0), 100);
    assert_eq!(ledger.balance_of(&c, &b"B".to_vec(), 0), 50);
    assert!(esc.store.get(1).is_none());
}

#[test]
fn cancel_scenario_restores_creator_and_blocks_acceptance() {
    // Creator C makes two offers so that the cancelled one has id = 2.
    let mut esc = EscrowSc::new();
    let c = b"account-c".to_vec();
    esc.create_offer(
        c.clone(),
        vec![payment(b"A", 0, 1)],
        b"B".to_vec(),
        0,
        1,
        Counterparty::Any,
    )
    .unwrap();
    let id = esc
        .create_offer(
            c.clone(),
            vec![payment(b"A", 0, 100)],
            b"B".to_vec(),
            0,
            50,
            Counterparty::Any,
        )
        .unwrap();
    assert_eq!(id, 2);

    let transfer = esc.cancel_offer(c.clone(), 2).unwrap();
    let mut ledger = Ledger::new();
    ledger.apply_transfer(&transfer);
    assert_eq!(ledger.balance_of(&c, &b"A".to_vec(), 0), 100);

    let r = esc.accept_offer(b"account-d".to_vec(), vec![payment(b"B", 0, 50)], 2);
    assert!(matches!(r, Err(EscrowError::OfferNotFound)));
}

#[test]
fn store_put_overwrites_and_remove_reports_absence() {
    let mut store = OfferStore::new();
    let id = store.next_id();
    assert_eq!(id, 1);
    store.put(
        id,
        Offer {
            creator: ALICE.to_vec(),
            offered_payment: payment(TOKEN_A, 0, 10),
            accepted_payment: payment(TOKEN_B, 0, 5),
            counterparty: Counterparty::Any,
        },
    );
    store.put(
        id,
        Offer {
            creator: ALICE.to_vec(),
            offered_payment: payment(TOKEN_A, 0, 11),
            accepted_payment: payment(TOKEN_B, 0, 5),
            counterparty: Counterparty::Any,
        },
    );
    assert_eq!(store.get(id).unwrap().offered_payment.amount, 11);
    let removed = store.remove(id).unwrap();
    assert_eq!(removed.offered_payment.amount, 11);
    assert!(store.remove(id).is_none());
    assert!(store.get(id).is_none());
}

#[test]
fn ledger_accumulates_repeated_transfers_to_one_cell() {
    let mut ledger = Ledger::new();
    let t = TransferAction {
        to: ALICE.to_vec(),
        payment: payment(TOKEN_A, 0, 30),
    };
    ledger.apply_transfer(&t);
    let t2 = TransferAction {
        to: ALICE.to_vec(),
        payment: payment(TOKEN_A, 0, 12),
    };
    ledger.apply_transfer(&t2);
    assert_eq!(ledger.balance_of(&ALICE.to_vec(), &TOKEN_A.to_vec(), 0), 42);
    assert_eq!(ledger.balance_of(&BOB.to_vec(), &TOKEN_A.to_vec(), 0), 0);
}
