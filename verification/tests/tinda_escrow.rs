use remit_contracts::common::{AccountId, Party, Transfer};
use remit_contracts::tinda_escrow::{Error, Invoice, Status, TindaEscrow};
use std::collections::HashMap;

const ADMIN: AccountId = 1;
const TOKEN: AccountId = 2;
const BUYER: AccountId = 40;
const SUPPLIER: AccountId = 50;

/// Token balances, moved by the transfers that the contract hands out.
struct Balances(HashMap<Party, i128>);

impl Balances {
    fn new() -> Self {
        Balances(HashMap::new())
    }

    fn mint(&mut self, account: AccountId, amount: i128) {
        *self.0.entry(Party::Account(account)).or_insert(0) += amount;
    }

    fn apply(&mut self, t: &Transfer) {
        *self.0.entry(t.from).or_insert(0) -= t.amount;
        *self.0.entry(t.to).or_insert(0) += t.amount;
    }

    fn balance(&self, p: Party) -> i128 {
        *self.0.get(&p).unwrap_or(&0)
    }
}

fn setup() -> (TindaEscrow, Balances) {
    let mut usdc = Balances::new();
    usdc.mint(BUYER, 1_000);
    (TindaEscrow::new(ADMIN, TOKEN), usdc)
}

#[test]
fn test_fund_and_confirm() {
    let (mut c, mut usdc) = setup();
    usdc.apply(&c.fund_invoice(BUYER, 1, SUPPLIER, 600, 1_000).unwrap());
    usdc.apply(&c.confirm_delivery(1).unwrap());
    assert_eq!(usdc.balance(Party::Account(SUPPLIER)), 600);
    assert_eq!(usdc.balance(Party::Account(BUYER)), 400); // 1000 - 600
}

#[test]
fn test_refund_before_deadline_fails() {
    let (mut c, mut usdc) = setup();
    let now: u64 = 500;
    usdc.apply(&c.fund_invoice(BUYER, 1, SUPPLIER, 600, 1_000).unwrap());
    assert_eq!(c.refund(1, now), Err(Error::DeadlineNotReached));
    assert_eq!(c.get_invoice(1).unwrap().status, Status::Funded);
}

#[test]
fn test_state_after_confirm() {
    let (mut c, mut usdc) = setup();
    usdc.apply(&c.fund_invoice(BUYER, 1, SUPPLIER, 600, 1_000).unwrap());
    usdc.apply(&c.confirm_delivery(1).unwrap());
    assert_eq!(c.get_invoice(1).unwrap().status, Status::Released);
    assert_eq!(usdc.balance(Party::Escrow), 0);
}

#[test]
fn test_refund_after_deadline() {
    let (mut c, mut usdc) = setup();
    usdc.apply(&c.fund_invoice(BUYER, 1, SUPPLIER, 600, 1_000).unwrap());
    let now: u64 = 2_000; // past deadline
    usdc.apply(&c.refund(1, now).unwrap());
    assert_eq!(c.get_invoice(1).unwrap().status, Status::Refunded);
    assert_eq!(usdc.balance(Party::Account(BUYER)), 1_000); // made whole
}

#[test]
fn test_double_confirm_fails() {
    let (mut c, _usdc) = setup();
    c.fund_invoice(BUYER, 1, SUPPLIER, 600, 1_000).unwrap();
    c.confirm_delivery(1).unwrap();
    assert_eq!(c.confirm_delivery(1), Err(Error::AlreadySettled));
}

#[test]
fn refund_at_the_deadline_is_allowed() {
    let (mut c, _usdc) = setup();
    c.fund_invoice(BUYER, 1, SUPPLIER, 600, 1_000).unwrap();
    assert_eq!(c.refund(1, 999), Err(Error::DeadlineNotReached));
    assert_eq!(
        c.refund(1, 1_000),
        Ok(Transfer { from: Party::Escrow, to: Party::Account(BUYER), amount: 600 })
    );
}

#[test]
fn settled_invoice_stays_settled() {
    let (mut c, _usdc) = setup();
    c.fund_invoice(BUYER, 1, SUPPLIER, 600, 1_000).unwrap();
    c.refund(1, 5_000).unwrap();
    assert_eq!(c.confirm_delivery(1), Err(Error::AlreadySettled));
    assert_eq!(c.refund(1, 5_000), Err(Error::AlreadySettled));
    c.fund_invoice(BUYER, 2, SUPPLIER, 10, 0).unwrap();
    c.confirm_delivery(2).unwrap();
    assert_eq!(c.refund(2, 5_000), Err(Error::AlreadySettled));
}

#[test]
fn fund_records_the_invoice() {
    let (mut c, _usdc) = setup();
    let t = c.fund_invoice(BUYER, 9, SUPPLIER, 600, 1_000).unwrap();
    assert_eq!(t, Transfer { from: Party::Account(BUYER), to: Party::Escrow, amount: 600 });
    assert_eq!(
        c.get_invoice(9),
        Some(Invoice { buyer: BUYER, supplier: SUPPLIER, amount: 600, deadline: 1_000, status: Status::Funded })
    );
}

#[test]
fn refusals() {
    let (mut c, _usdc) = setup();
    assert_eq!(c.fund_invoice(BUYER, 1, SUPPLIER, 0, 1_000), Err(Error::InvalidAmount));
    assert_eq!(c.confirm_delivery(1), Err(Error::NotFound));
    assert_eq!(c.refund(1, 0), Err(Error::NotFound));
    assert!(c.get_invoice(1).is_none());
    c.fund_invoice(BUYER, 1, SUPPLIER, 600, 1_000).unwrap();
    assert_eq!(c.fund_invoice(BUYER, 1, SUPPLIER, 50, 1_000), Err(Error::AlreadyExists));
    assert_eq!(c.get_invoice(1).unwrap().amount, 600);
}

#[test]
fn refund_refuses_missing_and_settled_invoices() {
    let (mut c, _usdc) = setup();
    assert_eq!(c.refund(1, 5_000), Err(Error::NotFound));
    c.fund_invoice(BUYER, 1, SUPPLIER, 600, 1_000).unwrap();
    c.confirm_delivery(1).unwrap();
    assert_eq!(c.refund(1, 5_000), Err(Error::AlreadySettled));
}

#[test]
fn settling_needs_the_buyer_authorization() {
    let (mut c, _usdc) = setup();
    assert_eq!(c.settle_signer(1), None);
    c.fund_invoice(BUYER, 1, SUPPLIER, 600, 1_000).unwrap();
    assert_eq!(c.settle_signer(1), Some(BUYER));
    c.confirm_delivery(1).unwrap();
    assert_eq!(c.settle_signer(1), Some(BUYER));
}
