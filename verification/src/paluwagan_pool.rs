//! Paluwagan pool: a rotating savings circle. Members join in order, each
//! member pays a fixed contribution into the escrow once per round, and when
//! every member has funded the current round the whole pot goes to the member
//! whose turn it is (round `r` pays the `r`-th member to join).

use crate::common::{
    all_allowed, deposit, escrow_flow, lemma_push_contains, lemma_state_at_next, net_into_escrow, outcome_at, release,
    state_at, vec_contains, AccountId, Machine, Party, Transfer,
};
use vstd::prelude::*;

verus! {

/// Why an operation of the pool was refused.
#[derive(Clone, Copy, Debug, PartialEq, Eq, Structural)]
pub enum Error {
    NotMember,
    AlreadyMember,
    AlreadyContributed,
    RoundNotFunded,
    PoolComplete,
}

/// The pool as the contracts speak of it.
#[verifier::ext_equal]
pub struct PoolView {
    pub admin: AccountId,
    pub token: AccountId,
    /// Fixed amount each member pays per round.
    pub contribution: i128,
    /// Members in join order, which is also payout order.
    pub members: Seq<AccountId>,
    /// Index of the round whose pot is paid out next.
    pub round: u32,
    /// The (round, member) pairs for which a contribution was made.
    pub paid: Set<(u32, AccountId)>,
}

impl PoolView {
    /// The pool's invariant: nobody is a member twice, the member count fits
    /// the ledger's 32-bit vector length, the round never passes the member
    /// count, and only members have contributed.
    pub open spec fn wf(self) -> bool {
        &&& self.members.no_duplicates()
        &&& self.members.len() <= u32::MAX
        &&& self.round <= self.members.len()
        &&& self.paid.finite()
        &&& forall|p: (u32, AccountId)| #[trigger] self.paid.contains(p) ==> self.members.contains(p.1)
    }

    /// A pool with no members at round 0.
    pub open spec fn initial(admin: AccountId, token: AccountId, contribution: i128) -> PoolView {
        PoolView {
            admin,
            token,
            contribution,
            members: Seq::empty(),
            round: 0,
            paid: Set::empty(),
        }
    }

    /// Contributions to rounds that have not been paid out yet.
    pub open spec fn open_paid(self) -> Set<(u32, AccountId)> {
        self.paid.filter(|p: (u32, AccountId)| p.0 >= self.round)
    }

    /// What the escrow must still hold: one contribution for each
    /// contribution to a round not yet paid out.
    pub open spec fn backing(self) -> int {
        self.contribution * self.open_paid().len()
    }

    /// The members who contributed to `round`.
    pub open spec fn contributors(self, round: u32) -> Set<AccountId> {
        Set::new(|m: AccountId| self.paid.contains((round, m)))
    }

    /// Every member has contributed to `round`.
    pub open spec fn round_funded(self, round: u32) -> bool {
        forall|i: int| 0 <= i < self.members.len() ==> #[trigger] self.paid.contains((round, self.members[i]))
    }

    /// The whole pot: one contribution from each member.
    pub open spec fn pot(self) -> int {
        self.contribution * self.members.len()
    }

    /// `join`: a newcomer is appended; a member joining again is refused.
    pub open spec fn join_step(self, member: AccountId) -> (PoolView, Result<(), Error>) {
        if self.members.contains(member) {
            (self, Err(Error::AlreadyMember))
        } else {
            (PoolView { members: self.members.push(member), ..self }, Ok(()))
        }
    }

    /// `contribute`: a member pays the contribution for `round` once.
    pub open spec fn contribute_step(self, member: AccountId, round: u32) -> (PoolView, Result<Transfer, Error>) {
        if !self.members.contains(member) {
            (self, Err(Error::NotMember))
        } else if self.paid.contains((round, member)) {
            (self, Err(Error::AlreadyContributed))
        } else {
            (
                PoolView { paid: self.paid.insert((round, member)), ..self },
                Ok(deposit(member, self.contribution)),
            )
        }
    }

    /// What `payout` checks before paying: the round asked for is the current one, some
    /// member has not had a turn yet, and every member funded the round.
    pub open spec fn funding_check(self, round: u32) -> Result<(), Error> {
        if round != self.round {
            Err(Error::RoundNotFunded)
        } else if self.round >= self.members.len() {
            Err(Error::PoolComplete)
        } else if !self.round_funded(round) {
            Err(Error::RoundNotFunded)
        } else {
            Ok(())
        }
    }

    /// `payout`: once those checks pass, the pot goes to the member whose turn it is and
    /// the round advances.
    pub open spec fn payout_step(self, round: u32) -> (PoolView, Result<(AccountId, Transfer), Error>) {
        match self.funding_check(round) {
            Err(e) => (self, Err(e)),
            Ok(_) => {
                let recipient = self.members[self.round as int];
                (
                    PoolView { round: (self.round + 1) as u32, ..self },
                    Ok((recipient, release(recipient, self.pot() as i128))),
                )
            },
        }
    }
}

/// A rotating savings circle.
pub struct PaluwaganPool {
    pub admin: AccountId,
    pub token: AccountId,
    pub contribution: i128,
    pub members: Vec<AccountId>,
    pub round: u32,
    /// Contributions made, as (round, member) pairs.
    pub paid: Vec<(u32, AccountId)>,
}

impl View for PaluwaganPool {
    type V = PoolView;

    open spec fn view(&self) -> PoolView {
        PoolView {
            admin: self.admin,
            token: self.token,
            contribution: self.contribution,
            members: self.members@,
            round: self.round,
            paid: Set::new(|p: (u32, AccountId)| self.paid@.contains(p)),
        }
    }
}

impl PaluwaganPool {
    /// A pool with no members, at round 0, whose members each pay
    /// `contribution` per round in the token `token`.
    pub fn new(admin: AccountId, token: AccountId, contribution: i128) -> (pool: Self)
        ensures
            pool@.wf(),
            pool@ == PoolView::initial(admin, token, contribution),
    {
        let pool = PaluwaganPool { admin, token, contribution, members: Vec::new(), round: 0, paid: Vec::new() };
        assert(pool@.paid =~= Set::<(u32, AccountId)>::empty());
        assert(pool@ =~= PoolView::initial(admin, token, contribution));
        pool
    }

    /// Whether `member` paid into `round`.
    fn has_paid(&self, round: u32, member: AccountId) -> (found: bool)
        ensures
            found == self@.paid.contains((round, member)),
    {
        let mut i: usize = 0;
        while i < self.paid.len()
            invariant
                i <= self.paid.len(),
                forall|j: int| 0 <= j < i ==> self.paid@[j] != (round, member),
            decreases self.paid.len() - i,
        {
            let (r, m) = self.paid[i];
            if r == round && m == member {
                assert(self.paid@[i as int] == (round, member));
                return true;
            }
            i = i + 1;
        }
        false
    }

    /// A worker joins the circle; joining twice is refused.
    pub fn join(&mut self, member: AccountId) -> (result: Result<(), Error>)
        requires
            old(self)@.wf(),
            !old(self)@.members.contains(member) ==> old(self)@.members.len() < u32::MAX,
        ensures
            final(self)@.wf(),
            final(self)@ == old(self)@.join_step(member).0,
            result == old(self)@.join_step(member).1,
    {
        if vec_contains(&self.members, member) {
            return Err(Error::AlreadyMember);
        }
        self.members.push(member);
        proof {
            assert forall|i: int, j: int|
                0 <= i < self.members@.len() && 0 <= j < self.members@.len() && i != j
                implies self.members@[i] != self.members@[j] by {
                if j == self.members@.len() - 1 {
                    assert(old(self)@.members[i] == self.members@[i]);
                } else if i == self.members@.len() - 1 {
                    assert(old(self)@.members[j] == self.members@[j]);
                } else {
                    assert(old(self)@.members[i] == self.members@[i]);
                    assert(old(self)@.members[j] == self.members@[j]);
                }
            }
            assert(self@.paid =~= old(self)@.paid);
            assert forall|p: (u32, AccountId)| #[trigger] self@.paid.contains(p) implies self@.members.contains(p.1) by {
                lemma_push_contains(old(self)@.members, member, p.1);
            }
            assert(self@ =~= old(self)@.join_step(member).0);
        }
        Ok(())
    }

    /// A member locks the fixed contribution for `round`, once per round. On
    /// success the result is the deposit the member owes the escrow.
    pub fn contribute(&mut self, member: AccountId, round: u32) -> (result: Result<Transfer, Error>)
        requires
            old(self)@.wf(),
        ensures
            final(self)@.wf(),
            final(self)@ == old(self)@.contribute_step(member, round).0,
            result == old(self)@.contribute_step(member, round).1,
    {
        if !vec_contains(&self.members, member) {
            return Err(Error::NotMember);
        }
        if self.has_paid(round, member) {
            return Err(Error::AlreadyContributed);
        }
        self.paid.push((round, member));
        proof {
            assert forall|p: (u32, AccountId)| #[trigger] self@.paid.contains(p)
                == old(self)@.paid.insert((round, member)).contains(p) by {
                lemma_push_contains(old(self).paid@, (round, member), p);
            }
            assert(self@.paid =~= old(self)@.paid.insert((round, member)));
            assert(self@ =~= old(self)@.contribute_step(member, round).0);
        }
        Ok(Transfer { from: Party::Account(member), to: Party::Escrow, amount: self.contribution })
    }

    /// Whether `payout(round)` may pay: `round` is the current round, some
    /// member still awaits a turn, and every member funded the round.
    pub fn check_funded(&self, round: u32) -> (result: Result<(), Error>)
        ensures
            result == self@.funding_check(round),
    {
        if round != self.round {
            return Err(Error::RoundNotFunded);
        }
        if self.round as usize >= self.members.len() {
            return Err(Error::PoolComplete);
        }
        let mut i: usize = 0;
        while i < self.members.len()
            invariant
                i <= self.members.len(),
                round == self.round,
                self.round < self.members.len(),
                forall|j: int| 0 <= j < i ==> #[trigger] self@.paid.contains((round, self@.members[j])),
            decreases self.members.len() - i,
        {
            if !self.has_paid(round, self.members[i]) {
                assert(!self@.paid.contains((round, self@.members[i as int])));
                return Err(Error::RoundNotFunded);
            }
            i = i + 1;
        }
        Ok(())
    }

    /// Once every member has paid into the current round, releases the whole
    /// pot (contribution times member count) to the member whose turn it is
    /// and moves to the next round. Returns that member and the release.
    pub fn payout(&mut self, round: u32) -> (result: Result<(AccountId, Transfer), Error>)
        requires
            old(self)@.wf(),
            old(self)@.funding_check(round) is Ok ==> i128::MIN <= old(self)@.pot() <= i128::MAX,
        ensures
            final(self)@.wf(),
            final(self)@ == old(self)@.payout_step(round).0,
            result == old(self)@.payout_step(round).1,
    {
        match self.check_funded(round) {
            Err(e) => Err(e),
            Ok(()) => {
                let count: i128 = self.members.len() as i128;
                let pot: i128 = self.contribution * count;
                let recipient = self.members[self.round as usize];
                self.round = self.round + 1;
                proof {
                    assert(self@.paid =~= old(self)@.paid);
                    assert(self@ =~= old(self)@.payout_step(round).0);
                }
                Ok((recipient, Transfer { from: Party::Escrow, to: Party::Account(recipient), amount: pot }))
            },
        }
    }

    /// The round whose pot is paid out next.
    pub fn current_round(&self) -> (round: u32)
        ensures
            round == self@.round,
    {
        self.round
    }

    /// The members, in join order.
    pub fn members(&self) -> (members: Vec<AccountId>)
        ensures
            members@ == self@.members,
    {
        self.members.clone()
    }
}

impl PoolView {
    /// Every account of `ms`, in order, contributes to `round`; the resulting
    /// pool and the result of each contribution.
    pub open spec fn contribute_all(self, ms: Seq<AccountId>, round: u32) -> (PoolView, Seq<Result<Transfer, Error>>)
        decreases ms.len(),
    {
        if ms.len() == 0 {
            (self, Seq::empty())
        } else {
            let (next, first) = self.contribute_step(ms[0], round);
            let (last, rest) = next.contribute_all(ms.drop_first(), round);
            (last, seq![first].add(rest))
        }
    }
}

/// Contributing twice to the same round: once a contribution has been taken,
/// the same member's second contribution to that round is refused and changes
/// nothing.
pub proof fn lemma_one_contribution_per_round(s: PoolView, member: AccountId, round: u32)
    requires
        s.wf(),
        s.contribute_step(member, round).1 is Ok,
    ensures
        ({
            let t = s.contribute_step(member, round).0;
            t.contribute_step(member, round) == (t, Err::<Transfer, Error>(Error::AlreadyContributed))
        }),
{
}

/// The fairness gate: a payout happens only for the current round, while some
/// member still awaits a turn, and only once every member has funded that
/// round; it pays the whole pot to the member whose turn it is (round `r` to
/// the `r`-th member to join) and advances the round by one.
pub proof fn lemma_payout_is_fair(s: PoolView, round: u32)
    requires
        s.wf(),
        s.payout_step(round).1 is Ok,
    ensures
        round == s.round,
        round < s.members.len(),
        s.round_funded(round),
        s.payout_step(round).1 == Ok::<(AccountId, Transfer), Error>(
            (s.members[round as int], release(s.members[round as int], s.pot() as i128)),
        ),
        s.payout_step(round).0.round == round + 1,
{
}

/// Paid in full: the pot released for a round is exactly what that round's
/// contributors paid in, one contribution from each member.
pub proof fn lemma_pot_is_paid_in_full(s: PoolView, round: u32)
    requires
        s.wf(),
        s.payout_step(round).1 is Ok,
    ensures
        s.contributors(round) == s.members.to_set(),
        s.contributors(round).len() == s.members.len(),
        s.pot() == s.contribution * s.contributors(round).len(),
{
    assert forall|m: AccountId| s.contributors(round).contains(m) == s.members.to_set().contains(m) by {
        if s.paid.contains((round, m)) {
            assert(s.members.contains(((round, m).1)));
        }
        if s.members.contains(m) {
            let i = choose|i: int| 0 <= i < s.members.len() && s.members[i] == m;
            assert(s.paid.contains((round, s.members[i])));
        }
    }
    assert(s.contributors(round) =~= s.members.to_set());
    s.members.unique_seq_to_set();
}

/// Once every member has had a turn, no further payout is made.
pub proof fn lemma_pool_complete(s: PoolView, round: u32)
    requires
        s.wf(),
        s.round == s.members.len(),
    ensures
        s.payout_step(round) == (s, Err::<(AccountId, Transfer), Error>(
            if round == s.round { Error::PoolComplete } else { Error::RoundNotFunded },
        )),
{
}

/// Contributions by distinct members who have not yet paid into `round` all
/// succeed, each as a deposit of the contribution, and leave the pool with
/// exactly those members added to the round's payers.
proof fn lemma_contribute_all_succeeds(s: PoolView, ms: Seq<AccountId>, round: u32)
    requires
        s.wf(),
        ms.no_duplicates(),
        forall|i: int| 0 <= i < ms.len() ==> s.members.contains(#[trigger] ms[i]),
        forall|i: int| 0 <= i < ms.len() ==> !s.paid.contains((round, #[trigger] ms[i])),
    ensures
        ({
            let (t, results) = s.contribute_all(ms, round);
            &&& t.wf()
            &&& t.members == s.members
            &&& t.round == s.round
            &&& t.contribution == s.contribution
            &&& forall|p: (u32, AccountId)| #[trigger] t.paid.contains(p) <==>
                (s.paid.contains(p) || (p.0 == round && ms.contains(p.1)))
            &&& results.len() == ms.len()
            &&& forall|i: int| 0 <= i < ms.len() ==>
                #[trigger] results[i] == Ok::<Transfer, Error>(deposit(ms[i], s.contribution))
        }),
    decreases ms.len(),
{
    if ms.len() > 0 {
        assert(ms.contains(ms[0]));
        let next = s.contribute_step(ms[0], round).0;
        let rest = ms.drop_first();
        assert forall|p: (u32, AccountId)| #[trigger] next.paid.contains(p) implies next.members.contains(p.1) by {
            if p != (round, ms[0]) {
                assert(s.paid.contains(p));
            }
        }
        assert forall|i: int| 0 <= i < rest.len() implies !next.paid.contains((round, #[trigger] rest[i])) by {
            assert(rest[i] == ms[i + 1]);
            assert(!s.paid.contains((round, ms[i + 1])));
        }
        assert forall|i: int| 0 <= i < rest.len() implies next.members.contains(#[trigger] rest[i]) by {
            assert(rest[i] == ms[i + 1]);
        }
        lemma_contribute_all_succeeds(next, rest, round);
        let (t, results) = s.contribute_all(ms, round);
        assert forall|p: (u32, AccountId)| #[trigger] t.paid.contains(p) <==>
            (s.paid.contains(p) || (p.0 == round && ms.contains(p.1))) by {
            if p.0 == round && ms.contains(p.1) && p.1 != ms[0] {
                let i = choose|i: int| 0 <= i < ms.len() && ms[i] == p.1;
                assert(rest[i - 1] == p.1);
            }
            if p.0 == round && rest.contains(p.1) {
                let i = choose|i: int| 0 <= i < rest.len() && rest[i] == p.1;
                assert(ms[i + 1] == p.1);
            }
        }
        assert forall|i: int| 0 <= i < ms.len() implies
            #[trigger] results[i] == Ok::<Transfer, Error>(deposit(ms[i], s.contribution)) by {
            if i > 0 {
                assert(rest[i - 1] == ms[i]);
            }
        }
    }
}

/// A full round: when no member has yet paid into the current round, every
/// member's contribution, in join order, succeeds as a deposit of the
/// contribution, and the payout that follows succeeds and releases the whole
/// pot to the member whose turn it is.
pub proof fn lemma_full_round(s: PoolView)
    requires
        s.wf(),
        s.round < s.members.len(),
        forall|i: int| 0 <= i < s.members.len() ==> !s.paid.contains((s.round, #[trigger] s.members[i])),
    ensures
        ({
            let (t, results) = s.contribute_all(s.members, s.round);
            let r = s.members[s.round as int];
            &&& forall|i: int| 0 <= i < s.members.len() ==>
                #[trigger] results[i] == Ok::<Transfer, Error>(deposit(s.members[i], s.contribution))
            &&& t.round_funded(s.round)
            &&& t.pot() == s.pot()
            &&& t.payout_step(s.round).1 == Ok::<(AccountId, Transfer), Error>((r, release(r, s.pot() as i128)))
        }),
{
    assert forall|i: int| 0 <= i < s.members.len() implies s.members.contains(#[trigger] s.members[i]) by {}
    lemma_contribute_all_succeeds(s, s.members, s.round);
    let (t, results) = s.contribute_all(s.members, s.round);
    assert forall|i: int| 0 <= i < t.members.len() implies #[trigger] t.paid.contains((s.round, t.members[i])) by {
        assert(s.members.contains(s.members[i]));
    }
}

impl PoolView {
    /// Going from `self` to `later`: members are only ever appended, the round
    /// never goes back, and no contribution is forgotten.
    pub open spec fn grows_into(self, later: PoolView) -> bool {
        &&& self.members.len() <= later.members.len()
        &&& later.members.subrange(0, self.members.len() as int) == self.members
        &&& self.round <= later.round
        &&& forall|p: (u32, AccountId)| #[trigger] self.paid.contains(p) ==> later.paid.contains(p)
        &&& later.contribution == self.contribution
    }
}

/// History only grows: joining, contributing and paying out each append to
/// the members, keep every contribution, and never move the round back.
pub proof fn lemma_history_grows(s: PoolView, member: AccountId, round: u32)
    requires
        s.wf(),
    ensures
        s.grows_into(s.join_step(member).0),
        s.grows_into(s.contribute_step(member, round).0),
        s.grows_into(s.payout_step(round).0),
{
    assert(s.join_step(member).0.members.subrange(0, s.members.len() as int) =~= s.members);
    assert(s.contribute_step(member, round).0.members.subrange(0, s.members.len() as int) =~= s.members);
    assert(s.payout_step(round).0.members.subrange(0, s.members.len() as int) =~= s.members);
}

/// Each member receives the pot at most once: two payouts of different
/// rounds, the later one made from a pool that grew out of the earlier one,
/// go to different members.
pub proof fn lemma_one_pot_per_member(s: PoolView, t: PoolView, r1: u32, r2: u32)
    requires
        s.wf(),
        t.wf(),
        s.grows_into(t),
        s.payout_step(r1).1 is Ok,
        t.payout_step(r2).1 is Ok,
        r1 != r2,
    ensures
        s.payout_step(r1).1->Ok_0.0 != t.payout_step(r2).1->Ok_0.0,
{
    assert(t.members.subrange(0, s.members.len() as int)[r1 as int] == t.members[r1 as int]);
}

/// Growth chains: a pool that grew into one that grew into another grew into
/// the last.
pub proof fn lemma_grows_transitive(a: PoolView, b: PoolView, c: PoolView)
    requires
        a.grows_into(b),
        b.grows_into(c),
    ensures
        a.grows_into(c),
{
    assert forall|i: int| 0 <= i < a.members.len() implies #[trigger] c.members[i] == a.members[i] by {
        assert(b.members.subrange(0, a.members.len() as int)[i] == b.members[i]);
        assert(c.members.subrange(0, b.members.len() as int)[i] == c.members[i]);
    }
    assert(c.members.subrange(0, a.members.len() as int) =~= a.members);
}

/// An operation on the pool.
pub enum PoolOp {
    Join { member: AccountId },
    Contribute { member: AccountId, round: u32 },
    Payout { round: u32 },
}

impl Machine for PoolView {
    type Op = PoolOp;

    /// Nothing for a join, the deposit of a contribution, the release of a
    /// payout.
    type Out = Result<Option<Transfer>, Error>;

    open spec fn step(self, op: PoolOp) -> (PoolView, Result<Option<Transfer>, Error>) {
        match op {
            PoolOp::Join { member } => {
                let (t, r) = self.join_step(member);
                (t, match r {
                    Ok(_) => Ok(None),
                    Err(e) => Err(e),
                })
            },
            PoolOp::Contribute { member, round } => {
                let (t, r) = self.contribute_step(member, round);
                (t, match r {
                    Ok(d) => Ok(Some(d)),
                    Err(e) => Err(e),
                })
            },
            PoolOp::Payout { round } => {
                let (t, r) = self.payout_step(round);
                (t, match r {
                    Ok((_, d)) => Ok(Some(d)),
                    Err(e) => Err(e),
                })
            },
        }
    }

    /// The `requires` of `join` and `payout`: the member list has room for a
    /// newcomer, and a pot about to be paid fits in an `i128`.
    open spec fn allowed(self, op: PoolOp) -> bool {
        match op {
            PoolOp::Join { member } => !self.members.contains(member) ==> self.members.len() < u32::MAX,
            PoolOp::Contribute { .. } => true,
            PoolOp::Payout { round } => self.funding_check(round) is Ok ==> i128::MIN <= self.pot() <= i128::MAX,
        }
    }

    open spec fn into_escrow(out: Result<Option<Transfer>, Error>) -> int {
        match out {
            Ok(Some(t)) => net_into_escrow(Ok::<Transfer, Error>(t)),
            _ => 0,
        }
    }

    /// Joining and contributing need the member's authorization; anyone may
    /// trigger a payout.
    open spec fn signer(self, op: PoolOp) -> Option<AccountId> {
        match op {
            PoolOp::Join { member } => Some(member),
            PoolOp::Contribute { member, .. } => Some(member),
            PoolOp::Payout { .. } => None,
        }
    }
}

/// Who must authorize: a member joins and pays only on their own
/// authorization, a contribution is taken only from the account that
/// authorized it, and a payout, which anyone may trigger, releases the pot
/// only to a member.
pub proof fn lemma_pool_authorization(s: PoolView, op: PoolOp)
    requires
        s.wf(),
    ensures
        op matches PoolOp::Join { member } ==> s.signer(op) == Some(member),
        s.step(op).1 matches Ok(Some(t)) ==> (t.to == Party::Escrow ==> {
            &&& s.signer(op) is Some
            &&& t.from == Party::Account(s.signer(op)->Some_0)
        }),
        s.step(op).1 matches Ok(Some(t)) ==> (t.from == Party::Escrow ==> {
            &&& s.signer(op) is None
            &&& exists|i: int| 0 <= i < s.members.len() && t.to == Party::Account(#[trigger] s.members[i])
        }),
{
    if let PoolOp::Payout { round } = op {
        if s.payout_step(round).1 is Ok {
            assert(0 <= s.round < s.members.len());
            assert(s.members[s.round as int] == s.members[s.round as int]);
        }
    }
}

/// Every accepted operation keeps the pool well-formed, keeps its admin and
/// token, and only grows its history.
pub proof fn lemma_step_keeps_pool(s: PoolView, op: PoolOp)
    requires
        s.wf(),
        s.allowed(op),
    ensures
        s.step(op).0.wf(),
        s.step(op).0.admin == s.admin,
        s.step(op).0.token == s.token,
        s.grows_into(s.step(op).0),
{
    let t = s.step(op).0;
    assert(t.members.subrange(0, s.members.len() as int) =~= s.members);
    match op {
        PoolOp::Join { member } => {
            if !s.members.contains(member) {
                assert forall|i: int, j: int| 0 <= i < t.members.len() && 0 <= j < t.members.len() && i != j
                    implies t.members[i] != t.members[j] by {
                    if i < s.members.len() && j < s.members.len() {
                        assert(s.members[i] != s.members[j]);
                    } else if i < s.members.len() {
                        assert(s.members.contains(s.members[i]));
                    } else {
                        assert(s.members.contains(s.members[j]));
                    }
                }
                assert forall|p: (u32, AccountId)| #[trigger] t.paid.contains(p) implies t.members.contains(p.1) by {
                    lemma_push_contains(s.members, member, p.1);
                }
            }
        },
        PoolOp::Contribute { member, round } => {
            assert forall|p: (u32, AccountId)| #[trigger] t.paid.contains(p) implies t.members.contains(p.1) by {
                if p != (round, member) {
                    assert(s.paid.contains(p));
                }
            }
        },
        PoolOp::Payout { round } => {},
    }
}

/// The pool's escrow backs every open contribution: with a non-negative
/// contribution, each accepted operation changes what the escrow must still
/// hold (one contribution per contribution to a round not yet paid out) by no
/// more than what it moves into the escrow, and by exactly that except for a
/// contribution to a round already paid out.
pub proof fn lemma_escrow_backs_open_contributions(s: PoolView, op: PoolOp)
    requires
        s.wf(),
        s.allowed(op),
        s.contribution >= 0,
    ensures
        s.step(op).0.backing() <= s.backing() + PoolView::into_escrow(s.step(op).1),
        !(op matches PoolOp::Contribute { round, .. } && round < s.round) ==>
            s.step(op).0.backing() == s.backing() + PoolView::into_escrow(s.step(op).1),
{
    broadcast use vstd::set_lib::group_set_properties;

    let (t, out) = s.step(op);
    match op {
        PoolOp::Join { member } => {
            assert(t.open_paid() =~= s.open_paid());
        },
        PoolOp::Contribute { member, round } => {
            if out is Ok && round >= s.round {
                assert(t.open_paid() =~= s.open_paid().insert((round, member)));
                assert(!s.open_paid().contains((round, member)));
                assert(t.open_paid().len() == s.open_paid().len() + 1);
                assert(t.backing() == s.backing() + s.contribution) by (nonlinear_arith)
                    requires
                        t.open_paid().len() == s.open_paid().len() + 1,
                        t.backing() == t.contribution * t.open_paid().len(),
                        s.backing() == s.contribution * s.open_paid().len(),
                        t.contribution == s.contribution,
                ;
            } else {
                assert(t.open_paid() =~= s.open_paid());
            }
        },
        PoolOp::Payout { round } => {
            if out is Ok {
                lemma_pot_is_paid_in_full(s, round);
                let at = s.paid.filter(|p: (u32, AccountId)| p.0 == s.round);
                let f = |p: (u32, AccountId)| p.1;
                assert(at.map(f) =~= s.contributors(round)) by {
                    assert forall|m: AccountId| #[trigger] s.contributors(round).contains(m) implies at.map(f).contains(m) by {
                        assert(at.contains((round, m)));
                        assert(f((round, m)) == m);
                    }
                }
                vstd::set_lib::lemma_map_size(at, s.contributors(round), f);
                assert(s.open_paid() =~= t.open_paid() + at);
                assert(t.open_paid().disjoint(at));
                assert(at.len() == s.members.len());
                vstd::set_lib::lemma_set_disjoint_lens(t.open_paid(), at);
                assert(s.open_paid().len() == t.open_paid().len() + s.members.len());
                assert(s.backing() == t.backing() + s.pot()) by (nonlinear_arith)
                    requires
                        s.open_paid().len() == t.open_paid().len() + s.members.len(),
                        t.backing() == t.contribution * t.open_paid().len(),
                        s.backing() == s.contribution * s.open_paid().len(),
                        s.pot() == s.contribution * s.members.len(),
                        t.contribution == s.contribution,
                ;
            } else {
                assert(t.open_paid() =~= s.open_paid());
            }
        },
    }
}

/// How many of the first `i` operations were successful payouts.
pub open spec fn payouts_made(s: PoolView, ops: Seq<PoolOp>, i: int) -> int
    decreases i,
{
    if i <= 0 {
        0
    } else {
        payouts_made(s, ops, i - 1) + if ops[i - 1] is Payout && outcome_at(s, ops, i - 1) is Ok {
            1int
        } else {
            0
        }
    }
}

/// Over any run of accepted operations from a well-formed pool: every
/// intermediate pool is well-formed, keeps admin, token and contribution, and
/// only grows (members only appended, so join order never changes); the round
/// has advanced by exactly the number of successful payouts; and, with a
/// non-negative contribution, what the run moved into the escrow covers the
/// growth of what the escrow must still hold for open contributions.
pub proof fn lemma_pool_run(s: PoolView, ops: Seq<PoolOp>, i: int)
    requires
        s.wf(),
        all_allowed(s, ops),
        0 <= i <= ops.len(),
    ensures
        state_at(s, ops, i).wf(),
        state_at(s, ops, i).admin == s.admin,
        state_at(s, ops, i).token == s.token,
        s.grows_into(state_at(s, ops, i)),
        state_at(s, ops, i).round == s.round + payouts_made(s, ops, i),
        s.contribution >= 0 ==> escrow_flow(s, ops, i) >= state_at(s, ops, i).backing() - s.backing(),
    decreases i,
{
    if i == 0 {
        assert(ops.take(0) =~= Seq::<PoolOp>::empty());
        assert(s.members.subrange(0, s.members.len() as int) =~= s.members);
    } else {
        lemma_pool_run(s, ops, i - 1);
        lemma_state_at_next(s, ops, i - 1);
        let before = state_at(s, ops, i - 1);
        assert(before.allowed(ops[i - 1]));
        lemma_step_keeps_pool(before, ops[i - 1]);
        lemma_grows_transitive(s, before, state_at(s, ops, i));
        if s.contribution >= 0 {
            lemma_escrow_backs_open_contributions(before, ops[i - 1]);
        }
    }
}

/// Later pools grow out of earlier ones along a run.
pub proof fn lemma_run_grows(s: PoolView, ops: Seq<PoolOp>, i: int, j: int)
    requires
        s.wf(),
        all_allowed(s, ops),
        0 <= i <= j <= ops.len(),
    ensures
        state_at(s, ops, i).grows_into(state_at(s, ops, j)),
    decreases j - i,
{
    let a = state_at(s, ops, i);
    if i == j {
        assert(a.members.subrange(0, a.members.len() as int) =~= a.members);
    } else {
        lemma_run_grows(s, ops, i, j - 1);
        lemma_pool_run(s, ops, j - 1);
        lemma_state_at_next(s, ops, j - 1);
        assert(state_at(s, ops, j - 1).allowed(ops[j - 1]));
        lemma_step_keeps_pool(state_at(s, ops, j - 1), ops[j - 1]);
        lemma_grows_transitive(a, state_at(s, ops, j - 1), state_at(s, ops, j));
    }
}

/// Payouts follow join order over any run: the k-th successful payout of a
/// run from a pool at round `r0` is for round `r0 + k` and releases the pot to
/// the member at that position of the join order, which never changes.
pub proof fn lemma_payout_order(s: PoolView, ops: Seq<PoolOp>, i: int)
    requires
        s.wf(),
        all_allowed(s, ops),
        0 <= i < ops.len(),
        ops[i] is Payout,
        outcome_at(s, ops, i) is Ok,
    ensures
        ops[i]->Payout_round == s.round + payouts_made(s, ops, i),
        ({
            let r = ops[i]->Payout_round;
            let m = state_at(s, ops, ops.len() as int).members[r as int];
            let pot = state_at(s, ops, i).pot();
            &&& r < state_at(s, ops, i).members.len()
            &&& outcome_at(s, ops, i) == Ok::<Option<Transfer>, Error>(Some(release(m, pot as i128)))
        }),
{
    lemma_pool_run(s, ops, i);
    lemma_run_grows(s, ops, i, ops.len() as int);
    let a = state_at(s, ops, i);
    let z = state_at(s, ops, ops.len() as int);
    let r = ops[i]->Payout_round;
    assert(z.members.subrange(0, a.members.len() as int)[r as int] == z.members[r as int]);
}

/// No member receives two pots over any run: two successful payouts of a run
/// are for increasing rounds and go to different members.
pub proof fn lemma_one_pot_each_in_run(s: PoolView, ops: Seq<PoolOp>, i: int, j: int)
    requires
        s.wf(),
        all_allowed(s, ops),
        0 <= i < j < ops.len(),
        ops[i] is Payout,
        ops[j] is Payout,
        outcome_at(s, ops, i) is Ok,
        outcome_at(s, ops, j) is Ok,
    ensures
        ops[i]->Payout_round < ops[j]->Payout_round,
        outcome_at(s, ops, i) != outcome_at(s, ops, j),
{
    lemma_payout_order(s, ops, i);
    lemma_payout_order(s, ops, j);
    lemma_payouts_grow(s, ops, i + 1, j);
    lemma_pool_run(s, ops, ops.len() as int);
    let z = state_at(s, ops, ops.len() as int);
    let (ri, rj) = (ops[i]->Payout_round, ops[j]->Payout_round);
    lemma_pool_run(s, ops, j);
    lemma_run_grows(s, ops, j, ops.len() as int);
    assert(rj < z.members.len());
    assert(z.members[ri as int] != z.members[rj as int]);
}

/// The count of successful payouts never decreases along a run.
proof fn lemma_payouts_grow(s: PoolView, ops: Seq<PoolOp>, i: int, j: int)
    requires
        0 <= i <= j <= ops.len(),
    ensures
        payouts_made(s, ops, i) <= payouts_made(s, ops, j),
    decreases j - i,
{
    if i < j {
        lemma_payouts_grow(s, ops, i, j - 1);
    }
}

/// Every pot is backed: over any run of accepted operations from a new pool
/// with a non-negative contribution, whenever a payout may pay, what the run
/// has moved into the escrow covers the whole pot.
pub proof fn lemma_pot_is_backed(
    admin: AccountId,
    token: AccountId,
    contribution: i128,
    ops: Seq<PoolOp>,
    i: int,
    round: u32,
)
    requires
        contribution >= 0,
        all_allowed(PoolView::initial(admin, token, contribution), ops),
        0 <= i <= ops.len(),
        state_at(PoolView::initial(admin, token, contribution), ops, i).funding_check(round) is Ok,
    ensures
        escrow_flow(PoolView::initial(admin, token, contribution), ops, i) >= state_at(
            PoolView::initial(admin, token, contribution),
            ops,
            i,
        ).pot(),
{
    broadcast use vstd::set_lib::group_set_properties;

    let s = PoolView::initial(admin, token, contribution);
    assert(s.open_paid() =~= Set::<(u32, AccountId)>::empty());
    assert(s.members.no_duplicates());
    lemma_pool_run(s, ops, i);
    let t = state_at(s, ops, i);
    lemma_pot_is_paid_in_full(t, round);
    let at = t.paid.filter(|p: (u32, AccountId)| p.0 == t.round);
    let f = |p: (u32, AccountId)| p.1;
    assert(at.map(f) =~= t.contributors(round)) by {
        assert forall|m: AccountId| #[trigger] t.contributors(round).contains(m) implies at.map(f).contains(m) by {
            assert(at.contains((round, m)));
            assert(f((round, m)) == m);
        }
    }
    vstd::set_lib::lemma_map_size(at, t.contributors(round), f);
    assert(at.subset_of(t.open_paid()));
    vstd::set_lib::lemma_len_subset(at, t.open_paid());
    assert(t.backing() >= t.pot()) by (nonlinear_arith)
        requires
            t.open_paid().len() >= t.members.len(),
            t.backing() == t.contribution * t.open_paid().len(),
            t.pot() == t.contribution * t.members.len(),
            t.contribution >= 0,
    ;
}

/// Joining is open to every newcomer: whoever the account is (the admin
/// included) and however many members there are, a non-member with room left
/// in the member list is appended at the end of the join order; only an
/// existing member is refused, and the pool is then unchanged.
pub proof fn lemma_join_outcome(s: PoolView, member: AccountId)
    requires
        s.wf(),
    ensures
        !s.members.contains(member) ==> {
            &&& s.join_step(member).1 == Ok::<(), Error>(())
            &&& s.join_step(member).0 == PoolView { members: s.members.push(member), ..s }
            &&& s.join_step(member).0.members.len() == s.members.len() + 1
            &&& s.join_step(member).0.members.last() == member
        },
        s.members.contains(member) ==> s.join_step(member) == (s, Err::<(), Error>(Error::AlreadyMember)),
{
}

/// A contribution is taken from every member exactly once per round, for any
/// round and any contribution amount: a member who has not paid into `round`
/// pays the fixed contribution into the escrow and is recorded as paid; a
/// non-member and a second payment are refused, leaving the pool unchanged.
pub proof fn lemma_contribute_outcome(s: PoolView, member: AccountId, round: u32)
    requires
        s.wf(),
    ensures
        s.members.contains(member) && !s.paid.contains((round, member)) ==> {
            &&& s.contribute_step(member, round).1 == Ok::<Transfer, Error>(
                Transfer { from: Party::Account(member), to: Party::Escrow, amount: s.contribution },
            )
            &&& s.contribute_step(member, round).0 == PoolView { paid: s.paid.insert((round, member)), ..s }
        },
        !s.members.contains(member) ==> s.contribute_step(member, round) == (s, Err::<Transfer, Error>(
            Error::NotMember,
        )),
        s.members.contains(member) && s.paid.contains((round, member)) ==> s.contribute_step(member, round) == (
            s,
            Err::<Transfer, Error>(Error::AlreadyContributed),
        ),
{
}

/// A payout succeeds exactly when the round asked for is the current one,
/// some member still awaits a turn, and every member has paid into it; then
/// it releases contribution times member count to the member at the round's
/// position in the join order and advances the round, and otherwise changes
/// nothing.
pub proof fn lemma_payout_outcome(s: PoolView, round: u32)
    requires
        s.wf(),
    ensures
        (round == s.round && s.round < s.members.len() && (forall|i: int|
            0 <= i < s.members.len() ==> s.paid.contains((round, #[trigger] s.members[i])))) ==> {
            &&& s.payout_step(round).1 == Ok::<(AccountId, Transfer), Error>(
                (
                    s.members[round as int],
                    Transfer {
                        from: Party::Escrow,
                        to: Party::Account(s.members[round as int]),
                        amount: (s.contribution * s.members.len()) as i128,
                    },
                ),
            )
            &&& s.payout_step(round).0 == PoolView { round: (round + 1) as u32, ..s }
        },
        round != s.round ==> s.payout_step(round) == (s, Err::<(AccountId, Transfer), Error>(Error::RoundNotFunded)),
        round == s.round && s.round >= s.members.len() ==> s.payout_step(round) == (s, Err::<
            (AccountId, Transfer),
            Error,
        >(Error::PoolComplete)),
        (round == s.round && s.round < s.members.len() && exists|i: int|
            0 <= i < s.members.len() && !s.paid.contains((round, #[trigger] s.members[i]))) ==> s.payout_step(round)
            == (s, Err::<(AccountId, Transfer), Error>(Error::RoundNotFunded)),
{
}

} // verus!
