use remit_contracts::common::{AccountId, Party, Transfer};
use remit_contracts::paluwagan_pool::{Error, PaluwaganPool};
use std::collections::HashMap;

const ADMIN: AccountId = 1;
const TOKEN: AccountId = 2;
const OUTSIDER: AccountId = 99;

/// Token balances, moved by the transfers that the pool hands out.
struct Balances(HashMap<Party, i128>);

impl Balances {
    fn new() -> Self {
        Balances(HashMap::new())
    }

    fn mint(&mut self, account: AccountId, amount: i128) {
        *self.0.entry(Party::Account(account)).or_insert(0) += amount;
    }

    fn apply(&mut self, t: &Transfer) {
        *self.0.entry(t.from).or_insert(0) -= t.amount;
        *self.0.entry(t.to).or_insert(0) += t.amount;
    }

    fn balance(&self, p: Party) -> i128 {
        *self.0.get(&p).unwrap_or(&0)
    }
}

// 3-member circle, 100 USDC contribution, everyone minted 1000.
fn setup() -> (PaluwaganPool, Balances, [AccountId; 3]) {
    let m: [AccountId; 3] = [10, 11, 12];
    let mut usdc = Balances::new();
    for a in m.iter() {
        usdc.mint(*a, 1_000);
    }
    let mut pool = PaluwaganPool::new(ADMIN, TOKEN, 100);
    for a in m.iter() {
        pool.join(*a).unwrap();
    }
    (pool, usdc, m)
}

fn contribute(pool: &mut PaluwaganPool, usdc: &mut Balances, member: AccountId, round: u32) {
    let t = pool.contribute(member, round).unwrap();
    usdc.apply(&t);
}

#[test]
fn test_full_round_payout() {
    let (mut pool, mut usdc, m) = setup();
    for a in m.iter() {
        contribute(&mut pool, &mut usdc, *a, 0);
    }
    let (recipient, t) = pool.payout(0).unwrap();
    usdc.apply(&t);
    assert_eq!(recipient, m[0]);
    assert_eq!(usdc.balance(Party::Account(m[0])), 1_200); // 1000 - 100 + 300 pot
}

#[test]
fn test_payout_before_funded_fails() {
    let (mut pool, mut usdc, m) = setup();
    contribute(&mut pool, &mut usdc, m[0], 0);
    contribute(&mut pool, &mut usdc, m[1], 0); // m[2] missing
    assert_eq!(pool.payout(0), Err(Error::RoundNotFunded));
    assert_eq!(pool.current_round(), 0);
}

#[test]
fn test_round_advances() {
    let (mut pool, mut usdc, m) = setup();
    assert_eq!(pool.current_round(), 0);
    for a in m.iter() {
        contribute(&mut pool, &mut usdc, *a, 0);
    }
    pool.payout(0).unwrap();
    assert_eq!(pool.current_round(), 1);
}

#[test]
fn test_double_contribute_fails() {
    let (mut pool, mut usdc, m) = setup();
    contribute(&mut pool, &mut usdc, m[0], 0);
    assert_eq!(pool.contribute(m[0], 0), Err(Error::AlreadyContributed));
    assert_eq!(usdc.balance(Party::Account(m[0])), 900);
}

#[test]
fn test_non_member_contribute_fails() {
    let (mut pool, _usdc, _m) = setup();
    assert_eq!(pool.contribute(OUTSIDER, 0), Err(Error::NotMember));
}

#[test]
fn join_twice_is_refused() {
    let (mut pool, _usdc, m) = setup();
    assert_eq!(pool.join(m[1]), Err(Error::AlreadyMember));
    assert_eq!(pool.members(), vec![10, 11, 12]);
}

#[test]
fn contribution_is_a_deposit_into_escrow() {
    let (mut pool, _usdc, m) = setup();
    let t = pool.contribute(m[2], 0).unwrap();
    assert_eq!(t, Transfer { from: Party::Account(12), to: Party::Escrow, amount: 100 });
}

#[test]
fn payout_of_another_round_is_refused() {
    let (mut pool, mut usdc, m) = setup();
    for a in m.iter() {
        contribute(&mut pool, &mut usdc, *a, 1);
    }
    assert_eq!(pool.payout(1), Err(Error::RoundNotFunded));
    assert_eq!(pool.check_funded(1), Err(Error::RoundNotFunded));
}

#[test]
fn full_rotation_pays_members_in_join_order() {
    let (mut pool, mut usdc, m) = setup();
    for round in 0..3u32 {
        for a in m.iter() {
            contribute(&mut pool, &mut usdc, *a, round);
        }
        assert_eq!(pool.check_funded(round), Ok(()));
        let (recipient, t) = pool.payout(round).unwrap();
        assert_eq!(recipient, m[round as usize]);
        assert_eq!(t, Transfer { from: Party::Escrow, to: Party::Account(recipient), amount: 300 });
        usdc.apply(&t);
    }
    // Everyone paid 300 in and got 300 out; the escrow is empty.
    for a in m.iter() {
        assert_eq!(usdc.balance(Party::Account(*a)), 1_000);
    }
    assert_eq!(usdc.balance(Party::Escrow), 0);
    assert_eq!(pool.current_round(), 3);
    assert_eq!(pool.payout(3), Err(Error::PoolComplete));
    assert_eq!(pool.payout(2), Err(Error::RoundNotFunded));
}

#[test]
fn empty_pool_is_complete() {
    let mut pool = PaluwaganPool::new(ADMIN, TOKEN, 100);
    assert_eq!(pool.payout(0), Err(Error::PoolComplete));
    assert_eq!(pool.members(), Vec::<AccountId>::new());
}

#[test]
fn late_member_must_fund_later_rounds() {
    let (mut pool, mut usdc, m) = setup();
    for a in m.iter() {
        contribute(&mut pool, &mut usdc, *a, 0);
    }
    pool.payout(0).unwrap();
    pool.join(13).unwrap();
    for a in m.iter() {
        contribute(&mut pool, &mut usdc, *a, 1);
    }
    assert_eq!(pool.payout(1), Err(Error::RoundNotFunded));
    usdc.mint(13, 1_000);
    contribute(&mut pool, &mut usdc, 13, 1);
    let (recipient, t) = pool.payout(1).unwrap();
    assert_eq!(recipient, 11);
    assert_eq!(t.amount, 400);
}

#[test]
fn escrow_backs_open_contributions() {
    let (mut pool, mut usdc, m) = setup();
    for a in m.iter() {
        contribute(&mut pool, &mut usdc, *a, 0);
    }
    contribute(&mut pool, &mut usdc, m[0], 1);
    // Three contributions to round 0 and one to round 1 are open.
    assert_eq!(usdc.balance(Party::Escrow), 400);
    let (_, t) = pool.payout(0).unwrap();
    usdc.apply(&t);
    // Only the contribution to round 1 is still open, and it is backed.
    assert_eq!(usdc.balance(Party::Escrow), 100);
    // A contribution to a round already paid out is taken but owed to no pot.
    pool.join(13).unwrap();
    usdc.mint(13, 1_000);
    contribute(&mut pool, &mut usdc, 13, 0);
    assert_eq!(pool.contribute(13, 0), Err(Error::AlreadyContributed));
    assert_eq!(usdc.balance(Party::Escrow), 200);
}
