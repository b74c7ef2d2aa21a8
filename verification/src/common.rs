//! Types shared by the three contracts: accounts, the parties of a token
//! transfer, and the transfer itself.

use vstd::prelude::*;

verus! {

/// An account on the ledger. The host assigns each address a number and
/// keeps the correspondence; the contracts only compare and hand them back.
pub type AccountId = u64;

/// One side of a token transfer: the contract's own escrow balance, or an
/// outside account.
#[derive(Clone, Copy, Debug, PartialEq, Eq, Hash, Structural)]
pub enum Party {
    Escrow,
    Account(AccountId),
}

/// A movement of `amount` token units from `from` to `to`, which the host
/// performs through the token contract once an operation has succeeded.
#[derive(Clone, Copy, Debug, PartialEq, Eq, Structural)]
pub struct Transfer {
    pub from: Party,
    pub to: Party,
    pub amount: i128,
}

/// A deposit of `amount` from `account` into the escrow.
pub open spec fn deposit(account: AccountId, amount: i128) -> Transfer {
    Transfer { from: Party::Account(account), to: Party::Escrow, amount }
}

/// A release of `amount` from the escrow to `account`.
pub open spec fn release(account: AccountId, amount: i128) -> Transfer {
    Transfer { from: Party::Escrow, to: Party::Account(account), amount }
}

/// Whether `v` holds `x`.
pub fn vec_contains(v: &Vec<AccountId>, x: AccountId) -> (found: bool)
    ensures
        found == v@.contains(x),
{
    let mut i: usize = 0;
    while i < v.len()
        invariant
            i <= v.len(),
            forall|j: int| 0 <= j < i ==> v@[j] != x,
        decreases v.len() - i,
    {
        if v[i] == x {
            return true;
        }
        i = i + 1;
    }
    false
}

/// After a push, a sequence holds exactly what it held before and the pushed
/// element.
pub proof fn lemma_push_contains<A>(s: Seq<A>, x: A, p: A)
    ensures
        s.push(x).contains(p) <==> (s.contains(p) || p == x),
{
    if s.contains(p) {
        let i = choose|i: int| 0 <= i < s.len() && s[i] == p;
        assert(s.push(x)[i] == p);
    }
    if p == x {
        assert(s.push(x)[s.len() as int] == p);
    }
    if s.push(x).contains(p) {
        let i = choose|i: int| 0 <= i < s.push(x).len() && s.push(x)[i] == p;
        if i < s.len() {
            assert(s[i] == p);
        }
    }
}

/// How much a transfer moves into the escrow: its amount for a deposit, minus
/// its amount for a release, and nothing for a refused operation.
pub open spec fn net_into_escrow<E>(result: Result<Transfer, E>) -> int {
    match result {
        Ok(t) => if t.to == Party::Escrow {
            t.amount as int
        } else if t.from == Party::Escrow {
            -(t.amount as int)
        } else {
            0
        },
        Err(_) => 0,
    }
}

/// The step that adds `amount_of(id)` to a running total.
pub open spec fn add_amount(amount_of: spec_fn(u64) -> int) -> spec_fn(int, u64) -> int {
    |total: int, id: u64| total + amount_of(id)
}

/// The total of `amount_of` over the ids of `ids`.
pub open spec fn sum_over(ids: Set<u64>, amount_of: spec_fn(u64) -> int) -> int {
    ids.fold(0int, add_amount(amount_of))
}

proof fn lemma_add_amount_commutes(amount_of: spec_fn(u64) -> int)
    ensures
        vstd::set::fold::is_fun_commutative(add_amount(amount_of)),
{
}

/// Nothing is summed over no ids.
pub proof fn lemma_sum_empty(amount_of: spec_fn(u64) -> int)
    ensures
        sum_over(Set::empty(), amount_of) == 0,
{
    vstd::set::fold::lemma_fold_empty(0int, add_amount(amount_of));
}

/// Adding a new id adds its amount to the total.
pub proof fn lemma_sum_insert(ids: Set<u64>, amount_of: spec_fn(u64) -> int, id: u64)
    requires
        ids.finite(),
        !ids.contains(id),
    ensures
        sum_over(ids.insert(id), amount_of) == sum_over(ids, amount_of) + amount_of(id),
{
    lemma_add_amount_commutes(amount_of);
    vstd::set::fold::lemma_fold_insert(ids, 0int, add_amount(amount_of), id);
}

/// Totals over the same ids agree when the amounts agree on those ids.
pub proof fn lemma_sum_agree(ids: Set<u64>, f: spec_fn(u64) -> int, g: spec_fn(u64) -> int)
    requires
        ids.finite(),
        forall|id: u64| ids.contains(id) ==> f(id) == g(id),
    ensures
        sum_over(ids, f) == sum_over(ids, g),
    decreases ids.len(),
{
    if ids.len() == 0 {
        assert(ids =~= Set::empty());
        lemma_sum_empty(f);
        lemma_sum_empty(g);
    } else {
        let id = ids.choose();
        let rest = ids.remove(id);
        assert(rest.insert(id) =~= ids);
        lemma_sum_agree(rest, f, g);
        lemma_sum_insert(rest, f, id);
        lemma_sum_insert(rest, g, id);
    }
}

/// Changing the amount of one id changes the total by the difference.
pub proof fn lemma_sum_update(ids: Set<u64>, f: spec_fn(u64) -> int, g: spec_fn(u64) -> int, id: u64)
    requires
        ids.finite(),
        ids.contains(id),
        forall|k: u64| ids.contains(k) && k != id ==> f(k) == g(k),
    ensures
        sum_over(ids, g) == sum_over(ids, f) - f(id) + g(id),
{
    let rest = ids.remove(id);
    assert(rest.insert(id) =~= ids);
    lemma_sum_agree(rest, f, g);
    lemma_sum_insert(rest, f, id);
    lemma_sum_insert(rest, g, id);
}

/// A contract seen as a state machine: each operation takes the contract's
/// picture to a new one and yields a result.
pub trait Machine: Sized {
    type Op;
    type Out;

    /// The picture after `op`, and the result of `op`.
    spec fn step(self, op: Self::Op) -> (Self, Self::Out);

    /// Whether the operation's function accepts this state (its `requires`
    /// beyond well-formedness).
    spec fn allowed(self, op: Self::Op) -> bool;

    /// How much a result moves into the escrow (negative for a release).
    spec fn into_escrow(out: Self::Out) -> int;

    /// The account whose authorization the host must require before the
    /// operation goes on, or `None` where the operation needs none.
    spec fn signer(self, op: Self::Op) -> Option<AccountId>;
}

/// The picture after running `ops` in order from `s`.
pub open spec fn run<M: Machine>(s: M, ops: Seq<M::Op>) -> M
    decreases ops.len(),
{
    if ops.len() == 0 {
        s
    } else {
        run(s, ops.drop_last()).step(ops.last()).0
    }
}

/// The picture just before the `i`-th operation (after all of them for
/// `i == ops.len()`).
pub open spec fn state_at<M: Machine>(s: M, ops: Seq<M::Op>, i: int) -> M {
    run(s, ops.take(i))
}

/// The result of the `i`-th operation.
pub open spec fn outcome_at<M: Machine>(s: M, ops: Seq<M::Op>, i: int) -> M::Out {
    state_at(s, ops, i).step(ops[i]).1
}

/// Every operation of `ops` is accepted where it is made.
pub open spec fn all_allowed<M: Machine>(s: M, ops: Seq<M::Op>) -> bool {
    forall|i: int| 0 <= i < ops.len() ==> #[trigger] state_at(s, ops, i).allowed(ops[i])
}

/// What the first `i` operations moved into the escrow, in total.
pub open spec fn escrow_flow<M: Machine>(s: M, ops: Seq<M::Op>, i: int) -> int
    decreases i,
{
    if i <= 0 {
        0
    } else {
        escrow_flow(s, ops, i - 1) + M::into_escrow(outcome_at(s, ops, i - 1))
    }
}

/// The picture after operation `i` is the step of `ops[i]` from the picture
/// before it.
pub proof fn lemma_state_at_next<M: Machine>(s: M, ops: Seq<M::Op>, i: int)
    requires
        0 <= i < ops.len(),
    ensures
        state_at(s, ops, i + 1) == state_at(s, ops, i).step(ops[i]).0,
        state_at(s, ops, 0) == s,
{
    assert(ops.take(i + 1).drop_last() =~= ops.take(i));
    assert(ops.take(i + 1).last() == ops[i]);
    assert(ops.take(0) =~= Seq::<M::Op>::empty());
}

} // verus!
