//! SariPay remit: code-redeemable escrow. A sender escrows an amount under the
//! SHA-256 digest of a one-time code and names the store allowed to cash it
//! out; the store redeems it once by presenting the code.

use crate::common::{
    deposit, escrow_flow, lemma_state_at_next, lemma_sum_agree, lemma_sum_empty, lemma_sum_insert,
    lemma_sum_update, net_into_escrow, outcome_at, release, state_at, sum_over, AccountId, Machine, Party,
    Transfer,
};
use crate::host::{sha256, sha256_digest};
use soroban_sdk::Env;
use std::collections::HashMap;
use vstd::prelude::*;

verus! {

broadcast use vstd::std_specs::hash::group_hash_axioms;

/// Why an operation on a remittance was refused.
#[derive(Clone, Copy, Debug, PartialEq, Eq, Structural)]
pub enum Error {
    AlreadyExists,
    NotFound,
    AlreadyClaimed,
    InvalidCode,
    InvalidAmount,
}

/// One escrowed remittance.
#[derive(Clone, Copy, Debug)]
pub struct Remittance {
    pub sender: AccountId,
    /// The cash-out agent allowed to claim.
    pub store: AccountId,
    pub amount: i128,
    /// SHA-256 digest of the secret code given to the recipient.
    pub code_hash: [u8; 32],
    pub claimed: bool,
}

/// The remittance book as the contracts speak of it.
#[verifier::ext_equal]
pub struct RemitView {
    pub admin: AccountId,
    pub token: AccountId,
    pub remits: Map<u64, Remittance>,
}

impl RemitView {
    /// Finitely many remittances, each with a positive amount.
    pub open spec fn wf(self) -> bool {
        &&& self.remits.dom().finite()
        &&& forall|id: u64| #[trigger] self.remits.contains_key(id) ==> self.remits[id].amount > 0
    }

    /// What the remittance under an id still holds in escrow: its amount
    /// until it is claimed.
    pub open spec fn unclaimed_amount(self) -> spec_fn(u64) -> int {
        |id: u64| if self.remits[id].claimed { 0 } else { self.remits[id].amount as int }
    }

    /// The total that the escrow holds for unclaimed remittances.
    pub open spec fn escrowed(self) -> int {
        sum_over(self.remits.dom(), self.unclaimed_amount())
    }

    /// `create_remittance`: a positive amount under a fresh id is escrowed,
    /// unclaimed, under the given digest.
    pub open spec fn create_step(
        self,
        sender: AccountId,
        id: u64,
        store: AccountId,
        amount: i128,
        code_hash: [u8; 32],
    ) -> (RemitView, Result<Transfer, Error>) {
        if amount <= 0 {
            (self, Err(Error::InvalidAmount))
        } else if self.remits.contains_key(id) {
            (self, Err(Error::AlreadyExists))
        } else {
            let remit = Remittance { sender, store, amount, code_hash, claimed: false };
            (RemitView { remits: self.remits.insert(id, remit), ..self }, Ok(deposit(sender, amount)))
        }
    }

    /// `claim`, for the code whose digest is `digest`: an existing, unclaimed
    /// remittance whose digest matches is marked claimed and its amount goes
    /// to its store.
    pub open spec fn claim_step(self, id: u64, digest: Seq<u8>) -> (RemitView, Result<Transfer, Error>) {
        if !self.remits.contains_key(id) {
            (self, Err(Error::NotFound))
        } else {
            let r = self.remits[id];
            if r.claimed {
                (self, Err(Error::AlreadyClaimed))
            } else if digest != r.code_hash@ {
                (self, Err(Error::InvalidCode))
            } else {
                (
                    RemitView { remits: self.remits.insert(id, Remittance { claimed: true, ..r }), ..self },
                    Ok(release(r.store, r.amount)),
                )
            }
        }
    }
}

/// The escrow contract's state: its configuration and every remittance ever
/// created, by id.
pub struct SariPayRemit {
    pub admin: AccountId,
    pub token: AccountId,
    pub remits: HashMap<u64, Remittance>,
}

impl View for SariPayRemit {
    type V = RemitView;

    open spec fn view(&self) -> RemitView {
        RemitView { admin: self.admin, token: self.token, remits: self.remits@ }
    }
}

/// Whether two digests are equal, byte by byte.
fn digest_eq(a: &[u8; 32], b: &[u8; 32]) -> (same: bool)
    ensures
        same == (a@ == b@),
{
    let mut i: usize = 0;
    while i < 32
        invariant
            i <= 32,
            a@.len() == 32,
            b@.len() == 32,
            forall|j: int| 0 <= j < i ==> a@[j] == b@[j],
        decreases 32 - i,
    {
        if a[i] != b[i] {
            assert(a@[i as int] != b@[i as int]);
            return false;
        }
        i = i + 1;
    }
    assert(a@ =~= b@);
    true
}

impl SariPayRemit {
    /// An empty book for the given admin and token.
    pub fn new(admin: AccountId, token: AccountId) -> (contract: Self)
        ensures
            contract@.wf(),
            contract@ == (RemitView { admin, token, remits: Map::empty() }),
    {
        SariPayRemit { admin, token, remits: HashMap::new() }
    }

    /// The sender escrows `amount` under `code_hash` for `store` to cash out.
    /// Ids are never reused. On success the result is the deposit the sender
    /// owes the escrow.
    pub fn create_remittance(
        &mut self,
        sender: AccountId,
        id: u64,
        store: AccountId,
        amount: i128,
        code_hash: [u8; 32],
    ) -> (result: Result<Transfer, Error>)
        requires
            old(self)@.wf(),
        ensures
            final(self)@.wf(),
            final(self)@ == old(self)@.create_step(sender, id, store, amount, code_hash).0,
            result == old(self)@.create_step(sender, id, store, amount, code_hash).1,
    {
        if amount <= 0 {
            return Err(Error::InvalidAmount);
        }
        if self.remits.contains_key(&id) {
            return Err(Error::AlreadyExists);
        }
        let remit = Remittance { sender, store, amount, code_hash, claimed: false };
        self.remits.insert(id, remit);
        proof {
            assert(self@ =~= old(self)@.create_step(sender, id, store, amount, code_hash).0);
        }
        Ok(Transfer { from: Party::Account(sender), to: Party::Escrow, amount })
    }

    /// The store redeems remittance `id` with the secret `code`: refused if
    /// there is no such remittance, if it was claimed already, or if the code
    /// does not hash to the committed digest. On success the remittance is
    /// marked claimed and the result is the release of its amount to the store.
    pub fn claim(&mut self, env: &Env, id: u64, code: &[u8]) -> (result: Result<Transfer, Error>)
        requires
            old(self)@.wf(),
        ensures
            final(self)@.wf(),
            final(self)@ == old(self)@.claim_step(id, sha256_digest(code@)).0,
            result == old(self)@.claim_step(id, sha256_digest(code@)).1,
    {
        match self.remits.get(&id) {
            None => {
                return Err(Error::NotFound);
            },
            Some(r) => {
                if r.claimed {
                    return Err(Error::AlreadyClaimed);
                }
            },
        }
        let digest = sha256(env, code);
        self.claim_with_digest(id, &digest)
    }

    /// `claim` once the code has been hashed: `digest` is the SHA-256 digest of
    /// the presented code.
    pub fn claim_with_digest(&mut self, id: u64, digest: &[u8; 32]) -> (result: Result<Transfer, Error>)
        requires
            old(self)@.wf(),
        ensures
            final(self)@.wf(),
            final(self)@ == old(self)@.claim_step(id, digest@).0,
            result == old(self)@.claim_step(id, digest@).1,
    {
        let remit = match self.remits.get(&id) {
            Some(r) => *r,
            None => {
                return Err(Error::NotFound);
            },
        };
        if remit.claimed {
            return Err(Error::AlreadyClaimed);
        }
        if !digest_eq(digest, &remit.code_hash) {
            return Err(Error::InvalidCode);
        }
        let updated = Remittance { claimed: true, ..remit };
        self.remits.insert(id, updated);
        proof {
            assert(self@ =~= old(self)@.claim_step(id, digest@).0);
        }
        Ok(Transfer { from: Party::Escrow, to: Party::Account(remit.store), amount: remit.amount })
    }

    /// The account whose authorization a claim of `id` needs: the store of the
    /// remittance, or `None` when there is no such remittance (the claim is
    /// then refused as not found).
    pub fn claim_signer(&self, id: u64) -> (signer: Option<AccountId>)
        ensures
            signer == self@.claim_signer_of(id),
    {
        match self.remits.get(&id) {
            Some(r) => Some(r.store),
            None => None,
        }
    }

    /// The remittance stored under `id`, if any.
    pub fn get_remittance(&self, id: u64) -> (found: Option<Remittance>)
        ensures
            found == (if self@.remits.contains_key(id) {
                Some(self@.remits[id])
            } else {
                None::<Remittance>
            }),
    {
        match self.remits.get(&id) {
            Some(r) => Some(*r),
            None => None,
        }
    }
}

impl RemitView {
    /// Going from `self` to `later`, no remittance disappears, none changes
    /// sender, store, amount or digest, and a claimed one stays claimed.
    pub open spec fn persists_into(self, later: RemitView) -> bool {
        forall|id: u64| #[trigger] self.remits.contains_key(id) ==> {
            let (a, b) = (self.remits[id], later.remits[id]);
            &&& later.remits.contains_key(id)
            &&& b.sender == a.sender
            &&& b.store == a.store
            &&& b.amount == a.amount
            &&& b.code_hash == a.code_hash
            &&& a.claimed ==> b.claimed
        }
    }
}

/// A remittance is paid out at most once: after a successful claim, every
/// further claim of the same id, whatever the code, is refused and changes
/// nothing.
pub proof fn lemma_claimed_at_most_once(s: RemitView, id: u64, code: Seq<u8>, again: Seq<u8>)
    requires
        s.wf(),
        s.claim_step(id, code).1 is Ok,
    ensures
        ({
            let t = s.claim_step(id, code).0;
            t.claim_step(id, again) == (t, Err::<Transfer, Error>(Error::AlreadyClaimed))
        }),
{
}

/// Send then cash out: once a remittance is created, a claim with the code
/// whose digest was committed releases the whole escrowed amount to the named
/// store, and a claim with any other digest is refused as an invalid code.
pub proof fn lemma_create_then_claim(
    s: RemitView,
    sender: AccountId,
    id: u64,
    store: AccountId,
    amount: i128,
    code_hash: [u8; 32],
    other: Seq<u8>,
)
    requires
        s.wf(),
        s.create_step(sender, id, store, amount, code_hash).1 is Ok,
    ensures
        ({
            let t = s.create_step(sender, id, store, amount, code_hash).0;
            &&& s.create_step(sender, id, store, amount, code_hash).1 == Ok::<Transfer, Error>(deposit(sender, amount))
            &&& t.claim_step(id, code_hash@).1 == Ok::<Transfer, Error>(release(store, amount))
            &&& t.claim_step(id, code_hash@).0.remits[id].claimed
            &&& other != code_hash@ ==> t.claim_step(id, other) == (t, Err::<Transfer, Error>(Error::InvalidCode))
        }),
{
}

/// Ids are never reused: creating a remittance under an id that exists is
/// refused (as an invalid amount when the amount is not positive, else as
/// already existing) and changes nothing.
pub proof fn lemma_no_overwrite(
    s: RemitView,
    sender: AccountId,
    id: u64,
    store: AccountId,
    amount: i128,
    code_hash: [u8; 32],
)
    requires
        s.wf(),
        s.remits.contains_key(id),
    ensures
        s.create_step(sender, id, store, amount, code_hash) == (s, Err::<Transfer, Error>(
            if amount <= 0 { Error::InvalidAmount } else { Error::AlreadyExists },
        )),
{
}

/// Records persist: neither creating nor claiming removes a remittance,
/// alters its parties, amount or digest, or un-claims it.
pub proof fn lemma_records_persist(
    s: RemitView,
    sender: AccountId,
    id: u64,
    store: AccountId,
    amount: i128,
    code_hash: [u8; 32],
    digest: Seq<u8>,
)
    requires
        s.wf(),
    ensures
        s.persists_into(s.create_step(sender, id, store, amount, code_hash).0),
        s.persists_into(s.claim_step(id, digest).0),
{
}

/// The escrow holds exactly the unclaimed remittances: an empty book holds
/// nothing, and every creation or claim changes the unclaimed total by
/// exactly what its transfer moves into or out of the escrow.
pub proof fn lemma_escrow_holds_unclaimed(
    s: RemitView,
    sender: AccountId,
    id: u64,
    store: AccountId,
    amount: i128,
    code_hash: [u8; 32],
    digest: Seq<u8>,
)
    requires
        s.wf(),
    ensures
        (RemitView { remits: Map::empty(), ..s }).escrowed() == 0,
        s.create_step(sender, id, store, amount, code_hash).0.escrowed() == s.escrowed()
            + net_into_escrow(s.create_step(sender, id, store, amount, code_hash).1),
        s.claim_step(id, digest).0.escrowed() == s.escrowed() + net_into_escrow(s.claim_step(id, digest).1),
{
    let empty = RemitView { remits: Map::empty(), ..s };
    assert(empty.remits.dom() =~= Set::<u64>::empty());
    lemma_sum_empty(empty.unclaimed_amount());
    let (t, r) = s.create_step(sender, id, store, amount, code_hash);
    if r is Ok {
        assert(t.remits.dom() =~= s.remits.dom().insert(id));
        lemma_sum_agree(s.remits.dom(), s.unclaimed_amount(), t.unclaimed_amount());
        lemma_sum_insert(s.remits.dom(), t.unclaimed_amount(), id);
    }
    let (t, r) = s.claim_step(id, digest);
    if r is Ok {
        assert(t.remits.dom() =~= s.remits.dom());
        lemma_sum_update(s.remits.dom(), s.unclaimed_amount(), t.unclaimed_amount(), id);
    }
}

/// An operation on the remittance book; a claim is given by the digest of
/// the presented code.
pub enum RemitOp {
    Create { sender: AccountId, id: u64, store: AccountId, amount: i128, code_hash: [u8; 32] },
    Claim { id: u64, digest: Seq<u8> },
}

impl Machine for RemitView {
    type Op = RemitOp;

    type Out = Result<Transfer, Error>;

    open spec fn step(self, op: RemitOp) -> (RemitView, Result<Transfer, Error>) {
        match op {
            RemitOp::Create { sender, id, store, amount, code_hash } => self.create_step(
                sender,
                id,
                store,
                amount,
                code_hash,
            ),
            RemitOp::Claim { id, digest } => self.claim_step(id, digest),
        }
    }

    /// Every operation is accepted on a well-formed book.
    open spec fn allowed(self, op: RemitOp) -> bool {
        true
    }

    open spec fn into_escrow(out: Result<Transfer, Error>) -> int {
        net_into_escrow(out)
    }

    /// Creating needs the sender's authorization; claiming an existing
    /// remittance needs its store's; claiming a missing one is refused first.
    open spec fn signer(self, op: RemitOp) -> Option<AccountId> {
        match op {
            RemitOp::Create { sender, .. } => Some(sender),
            RemitOp::Claim { id, .. } => self.claim_signer_of(id),
        }
    }
}

impl RemitView {
    /// The store of remittance `id`, whose authorization a claim of it needs.
    pub open spec fn claim_signer_of(self, id: u64) -> Option<AccountId> {
        if self.remits.contains_key(id) {
            Some(self.remits[id].store)
        } else {
            None
        }
    }
}

/// Who must authorize: escrowed money comes only from the sender who
/// authorized the creation, and a remittance is cashed out only on the
/// authorization of its designated store, which receives the amount.
pub proof fn lemma_remit_authorization(s: RemitView, op: RemitOp)
    requires
        s.wf(),
    ensures
        s.step(op).1 is Ok ==> s.signer(op) is Some,
        s.step(op).1 matches Ok(t) ==> (t.to == Party::Escrow ==> t.from == Party::Account(s.signer(op)->Some_0)),
        s.step(op).1 matches Ok(t) ==> (t.from == Party::Escrow ==> {
            &&& op is Claim
            &&& s.signer(op) == Some(s.remits[op->Claim_id].store)
            &&& t.to == Party::Account(s.remits[op->Claim_id].store)
        }),
        op is Claim && s.remits.contains_key(op->Claim_id) ==> s.signer(op) == Some(s.remits[op->Claim_id].store),
{
}

/// Over any run from a well-formed book: every intermediate book is
/// well-formed with the same admin and token, and what the run moved into the
/// escrow is exactly the growth of the unclaimed total, so from an empty book
/// the escrow holds exactly the unclaimed remittances.
pub proof fn lemma_remit_run(s: RemitView, ops: Seq<RemitOp>, i: int)
    requires
        s.wf(),
        0 <= i <= ops.len(),
    ensures
        state_at(s, ops, i).wf(),
        state_at(s, ops, i).admin == s.admin,
        state_at(s, ops, i).token == s.token,
        escrow_flow(s, ops, i) == state_at(s, ops, i).escrowed() - s.escrowed(),
    decreases i,
{
    if i == 0 {
        assert(ops.take(0) =~= Seq::<RemitOp>::empty());
    } else {
        lemma_remit_run(s, ops, i - 1);
        lemma_state_at_next(s, ops, i - 1);
        let before = state_at(s, ops, i - 1);
        match ops[i - 1] {
            RemitOp::Create { sender, id, store, amount, code_hash } => {
                lemma_escrow_holds_unclaimed(before, sender, id, store, amount, code_hash, Seq::empty());
            },
            RemitOp::Claim { id, digest } => {
                lemma_escrow_holds_unclaimed(before, 0, id, 0, 0, arbitrary(), digest);
            },
        }
    }
}

/// Records persist along any run: a later book keeps every remittance of an
/// earlier one with the same sender, store, amount and digest, and claimed
/// ones stay claimed.
pub proof fn lemma_remit_run_persists(s: RemitView, ops: Seq<RemitOp>, i: int, j: int)
    requires
        s.wf(),
        0 <= i <= j <= ops.len(),
    ensures
        state_at(s, ops, i).persists_into(state_at(s, ops, j)),
    decreases j - i,
{
    if i < j {
        lemma_remit_run_persists(s, ops, i, j - 1);
        lemma_remit_run(s, ops, j - 1);
        lemma_state_at_next(s, ops, j - 1);
        let before = state_at(s, ops, j - 1);
        match ops[j - 1] {
            RemitOp::Create { sender, id, store, amount, code_hash } => {
                lemma_records_persist(before, sender, id, store, amount, code_hash, Seq::empty());
            },
            RemitOp::Claim { id, digest } => {
                lemma_records_persist(before, 0, id, 0, 0, arbitrary(), digest);
            },
        }
    }
}

/// Over any run, a remittance is paid out at most once, in full, to its
/// store: after a successful claim of an id, every later claim of it is
/// refused as already claimed, and the successful one released the amount of
/// the record as it stands at the end of the run to the record's store.
pub proof fn lemma_claimed_once_in_run(s: RemitView, ops: Seq<RemitOp>, i: int, j: int)
    requires
        s.wf(),
        0 <= i < j < ops.len(),
        ops[i] is Claim,
        ops[j] is Claim,
        ops[i]->Claim_id == ops[j]->Claim_id,
        outcome_at(s, ops, i) is Ok,
    ensures
        outcome_at(s, ops, j) == Err::<Transfer, Error>(Error::AlreadyClaimed),
        ({
            let z = state_at(s, ops, ops.len() as int);
            let r = z.remits[ops[i]->Claim_id];
            outcome_at(s, ops, i) == Ok::<Transfer, Error>(release(r.store, r.amount))
        }),
{
    let id = ops[i]->Claim_id;
    lemma_state_at_next(s, ops, i);
    lemma_remit_run_persists(s, ops, i, i + 1);
    lemma_remit_run_persists(s, ops, i + 1, j);
    lemma_remit_run_persists(s, ops, i, ops.len() as int);
    assert(state_at(s, ops, i).remits.contains_key(id));
    assert(state_at(s, ops, i + 1).remits.contains_key(id));
    assert(state_at(s, ops, j).remits.contains_key(id));
}

/// Creation is open to every sender, store and positive amount: on a fresh id
/// the amount is escrowed from the sender and an unclaimed record of exactly
/// the given sender, store, amount and digest is added; a non-positive amount
/// and a taken id are refused, leaving the book unchanged.
pub proof fn lemma_create_outcome(
    s: RemitView,
    sender: AccountId,
    id: u64,
    store: AccountId,
    amount: i128,
    code_hash: [u8; 32],
)
    requires
        s.wf(),
    ensures
        amount > 0 && !s.remits.contains_key(id) ==> {
            &&& s.create_step(sender, id, store, amount, code_hash).1 == Ok::<Transfer, Error>(
                Transfer { from: Party::Account(sender), to: Party::Escrow, amount },
            )
            &&& s.create_step(sender, id, store, amount, code_hash).0 == RemitView {
                remits: s.remits.insert(id, Remittance { sender, store, amount, code_hash, claimed: false }),
                ..s
            }
        },
        amount <= 0 ==> s.create_step(sender, id, store, amount, code_hash) == (s, Err::<Transfer, Error>(
            Error::InvalidAmount,
        )),
        amount > 0 && s.remits.contains_key(id) ==> s.create_step(sender, id, store, amount, code_hash) == (
            s,
            Err::<Transfer, Error>(Error::AlreadyExists),
        ),
{
}

/// A claim succeeds exactly on an existing, unclaimed remittance whose
/// committed digest is the presented one: it releases the whole amount to the
/// record's store and marks only that record claimed; otherwise it is refused
/// (not found, already claimed, or invalid code, in that order) and changes
/// nothing.
pub proof fn lemma_claim_outcome(s: RemitView, id: u64, digest: Seq<u8>)
    requires
        s.wf(),
    ensures
        s.remits.contains_key(id) && !s.remits[id].claimed && digest == s.remits[id].code_hash@ ==> {
            let r = s.remits[id];
            &&& s.claim_step(id, digest).1 == Ok::<Transfer, Error>(
                Transfer { from: Party::Escrow, to: Party::Account(r.store), amount: r.amount },
            )
            &&& s.claim_step(id, digest).0 == RemitView {
                remits: s.remits.insert(
                    id,
                    Remittance {
                        sender: r.sender,
                        store: r.store,
                        amount: r.amount,
                        code_hash: r.code_hash,
                        claimed: true,
                    },
                ),
                ..s
            }
        },
        !s.remits.contains_key(id) ==> s.claim_step(id, digest) == (s, Err::<Transfer, Error>(Error::NotFound)),
        s.remits.contains_key(id) && s.remits[id].claimed ==> s.claim_step(id, digest) == (s, Err::<
            Transfer,
            Error,
        >(Error::AlreadyClaimed)),
        s.remits.contains_key(id) && !s.remits[id].claimed && digest != s.remits[id].code_hash@
            ==> s.claim_step(id, digest) == (s, Err::<Transfer, Error>(Error::InvalidCode)),
{
}

} // verus!
