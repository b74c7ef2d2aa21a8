use remit_contracts::common::{AccountId, Party, Transfer};
use remit_contracts::sari_pay_remit::{Error, SariPayRemit};
use soroban_sdk::{Bytes, Env};
use std::collections::HashMap;

const ADMIN: AccountId = 1;
const TOKEN: AccountId = 2;
const SENDER: AccountId = 20;
const STORE: AccountId = 30;

/// Token balances, moved by the transfers that the contract hands out.
struct Balances(HashMap<Party, i128>);

impl Balances {
    fn new() -> Self {
        Balances(HashMap::new())
    }

    fn mint(&mut self, account: AccountId, amount: i128) {
        *self.0.entry(Party::Account(account)).or_insert(0) += amount;
    }

    fn apply(&mut self, t: &Transfer) {
        *self.0.entry(t.from).or_insert(0) -= t.amount;
        *self.0.entry(t.to).or_insert(0) += t.amount;
    }

    fn balance(&self, p: Party) -> i128 {
        *self.0.get(&p).unwrap_or(&0)
    }
}

fn setup() -> (Env, SariPayRemit, Balances, [u8; 32], Vec<u8>) {
    let env = Env::default();
    let mut usdc = Balances::new();
    usdc.mint(SENDER, 1_000);
    let contract = SariPayRemit::new(ADMIN, TOKEN);
    let code = b"otp-CEBU-4821".to_vec();
    let code_hash = env.crypto().sha256(&Bytes::from_slice(&env, &code)).to_array();
    (env, contract, usdc, code_hash, code)
}

#[test]
fn test_create_and_claim() {
    let (env, mut c, mut usdc, code_hash, code) = setup();
    let t = c.create_remittance(SENDER, 1, STORE, 500, code_hash).unwrap();
    usdc.apply(&t);
    let t = c.claim(&env, 1, &code).unwrap();
    usdc.apply(&t);
    assert_eq!(usdc.balance(Party::Account(STORE)), 500); // store received the cash-out
    assert_eq!(usdc.balance(Party::Account(SENDER)), 500); // 1000 minted - 500 sent
}

#[test]
fn test_claim_wrong_code_fails() {
    let (env, mut c, _usdc, code_hash, _code) = setup();
    c.create_remittance(SENDER, 1, STORE, 500, code_hash).unwrap();
    assert_eq!(c.claim(&env, 1, b"not-the-code"), Err(Error::InvalidCode));
    assert!(!c.get_remittance(1).unwrap().claimed);
}

#[test]
fn test_state_after_claim() {
    let (env, mut c, mut usdc, code_hash, code) = setup();
    usdc.apply(&c.create_remittance(SENDER, 1, STORE, 500, code_hash).unwrap());
    usdc.apply(&c.claim(&env, 1, &code).unwrap());
    let remit = c.get_remittance(1).unwrap();
    assert!(remit.claimed);
    assert_eq!(usdc.balance(Party::Escrow), 0); // escrow fully drained
}

#[test]
fn test_double_claim_fails() {
    let (env, mut c, _usdc, code_hash, code) = setup();
    c.create_remittance(SENDER, 1, STORE, 500, code_hash).unwrap();
    c.claim(&env, 1, &code).unwrap();
    assert_eq!(c.claim(&env, 1, &code), Err(Error::AlreadyClaimed));
}

#[test]
fn test_duplicate_id_fails() {
    let (_env, mut c, _usdc, code_hash, _code) = setup();
    c.create_remittance(SENDER, 1, STORE, 100, code_hash).unwrap();
    assert_eq!(c.create_remittance(SENDER, 1, STORE, 100, code_hash), Err(Error::AlreadyExists));
    assert_eq!(c.get_remittance(1).unwrap().amount, 100);
}

#[test]
fn non_positive_amount_is_refused() {
    let (_env, mut c, _usdc, code_hash, _code) = setup();
    assert_eq!(c.create_remittance(SENDER, 1, STORE, 0, code_hash), Err(Error::InvalidAmount));
    assert_eq!(c.create_remittance(SENDER, 1, STORE, -5, code_hash), Err(Error::InvalidAmount));
    assert!(c.get_remittance(1).is_none());
}

#[test]
fn unknown_id_is_not_found() {
    let (env, mut c, _usdc, _code_hash, code) = setup();
    assert_eq!(c.claim(&env, 7, &code), Err(Error::NotFound));
    assert!(c.get_remittance(7).is_none());
}

#[test]
fn create_records_an_unclaimed_deposit() {
    let (_env, mut c, _usdc, code_hash, _code) = setup();
    let t = c.create_remittance(SENDER, 4, STORE, 250, code_hash).unwrap();
    assert_eq!(t, Transfer { from: Party::Account(SENDER), to: Party::Escrow, amount: 250 });
    let r = c.get_remittance(4).unwrap();
    assert_eq!((r.sender, r.store, r.amount, r.code_hash, r.claimed), (SENDER, STORE, 250, code_hash, false));
}

#[test]
fn claim_hashes_the_code_with_sha256() {
    // SHA-256 of "abc".
    let digest: [u8; 32] = [
        0xba, 0x78, 0x16, 0xbf, 0x8f, 0x01, 0xcf, 0xea, 0x41, 0x41, 0x40, 0xde, 0x5d, 0xae, 0x22, 0x23, 0xb0, 0x03,
        0x61, 0xa3, 0x96, 0x17, 0x7a, 0x9c, 0xb4, 0x10, 0xff, 0x61, 0xf2, 0x00, 0x15, 0xad,
    ];
    let env = Env::default();
    let mut c = SariPayRemit::new(ADMIN, TOKEN);
    c.create_remittance(SENDER, 2, STORE, 75, digest).unwrap();
    // The code itself is not the digest.
    let mut raw = [0u8; 32];
    raw[..3].copy_from_slice(b"abc");
    c.create_remittance(SENDER, 3, STORE, 75, raw).unwrap();
    assert_eq!(c.claim(&env, 3, b"abc"), Err(Error::InvalidCode));
    let t = c.claim(&env, 2, b"abc").unwrap();
    assert_eq!(t, Transfer { from: Party::Escrow, to: Party::Account(STORE), amount: 75 });
}

#[test]
fn claim_with_digest_checks_the_digest() {
    let (_env, mut c, _usdc, code_hash, _code) = setup();
    c.create_remittance(SENDER, 1, STORE, 500, code_hash).unwrap();
    let mut wrong = code_hash;
    wrong[31] ^= 1;
    assert_eq!(c.claim_with_digest(1, &wrong), Err(Error::InvalidCode));
    assert_eq!(
        c.claim_with_digest(1, &code_hash),
        Ok(Transfer { from: Party::Escrow, to: Party::Account(STORE), amount: 500 })
    );
    assert_eq!(c.claim_with_digest(1, &code_hash), Err(Error::AlreadyClaimed));
}

#[test]
fn claim_needs_the_store_authorization() {
    let (_env, mut c, _usdc, code_hash, _code) = setup();
    assert_eq!(c.claim_signer(1), None);
    c.create_remittance(SENDER, 1, STORE, 500, code_hash).unwrap();
    assert_eq!(c.claim_signer(1), Some(STORE));
}
