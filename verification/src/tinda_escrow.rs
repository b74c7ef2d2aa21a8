//! Tinda escrow: deadline-protected escrow for trade. A buyer escrows an
//! invoice amount for a supplier; the buyer either confirms delivery, which
//! pays the supplier, or once the deadline has come takes the amount back.
//! Each invoice is settled at most once.

use crate::common::{
    deposit, escrow_flow, lemma_state_at_next, lemma_sum_agree, lemma_sum_empty, lemma_sum_insert,
    lemma_sum_update, net_into_escrow, outcome_at, release, state_at, sum_over, AccountId, Machine, Party,
    Transfer,
};
use std::collections::HashMap;
use vstd::prelude::*;

verus! {

broadcast use vstd::std_specs::hash::group_hash_axioms;

/// Why an operation on an invoice was refused.
#[derive(Clone, Copy, Debug, PartialEq, Eq, Structural)]
pub enum Error {
    AlreadyExists,
    NotFound,
    /// The invoice was released or refunded already.
    AlreadySettled,
    DeadlineNotReached,
    InvalidAmount,
}

/// Where an invoice stands.
#[derive(Clone, Copy, Debug, PartialEq, Eq, Structural)]
pub enum Status {
    Funded,
    Released,
    Refunded,
}

/// One escrowed invoice.
#[derive(Clone, Copy, Debug, PartialEq, Eq, Structural)]
pub struct Invoice {
    pub buyer: AccountId,
    pub supplier: AccountId,
    pub amount: i128,
    /// Ledger timestamp from which the buyer may refund.
    pub deadline: u64,
    pub status: Status,
}

/// The invoice book as the contracts speak of it.
#[verifier::ext_equal]
pub struct EscrowView {
    pub admin: AccountId,
    pub token: AccountId,
    pub invoices: Map<u64, Invoice>,
}

impl EscrowView {
    /// Finitely many invoices, each with a positive amount.
    pub open spec fn wf(self) -> bool {
        &&& self.invoices.dom().finite()
        &&& forall|id: u64| #[trigger] self.invoices.contains_key(id) ==> self.invoices[id].amount > 0
    }

    /// What the invoice under an id still holds in escrow: its amount while
    /// it is funded.
    pub open spec fn funded_amount(self) -> spec_fn(u64) -> int {
        |id: u64| if self.invoices[id].status == Status::Funded { self.invoices[id].amount as int } else { 0 }
    }

    /// The total that the escrow holds for funded invoices.
    pub open spec fn escrowed(self) -> int {
        sum_over(self.invoices.dom(), self.funded_amount())
    }

    /// `fund_invoice`: a positive amount under a fresh id is escrowed, funded.
    pub open spec fn fund_step(
        self,
        buyer: AccountId,
        id: u64,
        supplier: AccountId,
        amount: i128,
        deadline: u64,
    ) -> (EscrowView, Result<Transfer, Error>) {
        if amount <= 0 {
            (self, Err(Error::InvalidAmount))
        } else if self.invoices.contains_key(id) {
            (self, Err(Error::AlreadyExists))
        } else {
            let inv = Invoice { buyer, supplier, amount, deadline, status: Status::Funded };
            (EscrowView { invoices: self.invoices.insert(id, inv), ..self }, Ok(deposit(buyer, amount)))
        }
    }

    /// `confirm_delivery`: a funded invoice is released to its supplier.
    pub open spec fn confirm_step(self, id: u64) -> (EscrowView, Result<Transfer, Error>) {
        if !self.invoices.contains_key(id) {
            (self, Err(Error::NotFound))
        } else {
            let inv = self.invoices[id];
            if inv.status != Status::Funded {
                (self, Err(Error::AlreadySettled))
            } else {
                (
                    EscrowView {
                        invoices: self.invoices.insert(id, Invoice { status: Status::Released, ..inv }),
                        ..self
                    },
                    Ok(release(inv.supplier, inv.amount)),
                )
            }
        }
    }

    /// `refund` at ledger time `now`: a funded invoice whose deadline has come
    /// goes back to its buyer.
    pub open spec fn refund_step(self, id: u64, now: u64) -> (EscrowView, Result<Transfer, Error>) {
        if !self.invoices.contains_key(id) {
            (self, Err(Error::NotFound))
        } else {
            let inv = self.invoices[id];
            if inv.status != Status::Funded {
                (self, Err(Error::AlreadySettled))
            } else if now < inv.deadline {
                (self, Err(Error::DeadlineNotReached))
            } else {
                (
                    EscrowView {
                        invoices: self.invoices.insert(id, Invoice { status: Status::Refunded, ..inv }),
                        ..self
                    },
                    Ok(release(inv.buyer, inv.amount)),
                )
            }
        }
    }
}

/// The escrow contract's state: its configuration and every invoice ever
/// funded, by id.
pub struct TindaEscrow {
    pub admin: AccountId,
    pub token: AccountId,
    pub invoices: HashMap<u64, Invoice>,
}

impl View for TindaEscrow {
    type V = EscrowView;

    open spec fn view(&self) -> EscrowView {
        EscrowView { admin: self.admin, token: self.token, invoices: self.invoices@ }
    }
}

impl TindaEscrow {
    /// An empty book for the given admin and token.
    pub fn new(admin: AccountId, token: AccountId) -> (contract: Self)
        ensures
            contract@.wf(),
            contract@ == (EscrowView { admin, token, invoices: Map::empty() }),
    {
        TindaEscrow { admin, token, invoices: HashMap::new() }
    }

    /// The buyer escrows `amount` for `supplier` under a new invoice id,
    /// refundable from `deadline` on. On success the result is the deposit the
    /// buyer owes the escrow.
    pub fn fund_invoice(
        &mut self,
        buyer: AccountId,
        id: u64,
        supplier: AccountId,
        amount: i128,
        deadline: u64,
    ) -> (result: Result<Transfer, Error>)
        requires
            old(self)@.wf(),
        ensures
            final(self)@.wf(),
            final(self)@ == old(self)@.fund_step(buyer, id, supplier, amount, deadline).0,
            result == old(self)@.fund_step(buyer, id, supplier, amount, deadline).1,
    {
        if amount <= 0 {
            return Err(Error::InvalidAmount);
        }
        if self.invoices.contains_key(&id) {
            return Err(Error::AlreadyExists);
        }
        let inv = Invoice { buyer, supplier, amount, deadline, status: Status::Funded };
        self.invoices.insert(id, inv);
        proof {
            assert(self@ =~= old(self)@.fund_step(buyer, id, supplier, amount, deadline).0);
        }
        Ok(Transfer { from: Party::Account(buyer), to: Party::Escrow, amount })
    }

    /// The buyer confirms the goods arrived: a funded invoice is marked
    /// released and the result is the release of its amount to the supplier.
    pub fn confirm_delivery(&mut self, id: u64) -> (result: Result<Transfer, Error>)
        requires
            old(self)@.wf(),
        ensures
            final(self)@.wf(),
            final(self)@ == old(self)@.confirm_step(id).0,
            result == old(self)@.confirm_step(id).1,
    {
        let inv = match self.invoices.get(&id) {
            Some(i) => *i,
            None => {
                return Err(Error::NotFound);
            },
        };
        if inv.status != Status::Funded {
            return Err(Error::AlreadySettled);
        }
        self.invoices.insert(id, Invoice { status: Status::Released, ..inv });
        proof {
            assert(self@ =~= old(self)@.confirm_step(id).0);
        }
        Ok(Transfer { from: Party::Escrow, to: Party::Account(inv.supplier), amount: inv.amount })
    }

    /// At ledger time `now`, the buyer takes back a funded invoice whose
    /// deadline has come: it is marked refunded and the result is the release
    /// of its amount to the buyer.
    pub fn refund(&mut self, id: u64, now: u64) -> (result: Result<Transfer, Error>)
        requires
            old(self)@.wf(),
        ensures
            final(self)@.wf(),
            final(self)@ == old(self)@.refund_step(id, now).0,
            result == old(self)@.refund_step(id, now).1,
    {
        let inv = match self.invoices.get(&id) {
            Some(i) => *i,
            None => {
                return Err(Error::NotFound);
            },
        };
        if inv.status != Status::Funded {
            return Err(Error::AlreadySettled);
        }
        if now < inv.deadline {
            return Err(Error::DeadlineNotReached);
        }
        self.invoices.insert(id, Invoice { status: Status::Refunded, ..inv });
        proof {
            assert(self@ =~= old(self)@.refund_step(id, now).0);
        }
        Ok(Transfer { from: Party::Escrow, to: Party::Account(inv.buyer), amount: inv.amount })
    }

    /// The account whose authorization confirming or refunding `id` needs:
    /// the buyer of the invoice, or `None` when there is no such invoice (the
    /// operation is then refused as not found).
    pub fn settle_signer(&self, id: u64) -> (signer: Option<AccountId>)
        ensures
            signer == self@.settle_signer_of(id),
    {
        match self.invoices.get(&id) {
            Some(i) => Some(i.buyer),
            None => None,
        }
    }

    /// The invoice stored under `id`, if any.
    pub fn get_invoice(&self, id: u64) -> (found: Option<Invoice>)
        ensures
            found == (if self@.invoices.contains_key(id) {
                Some(self@.invoices[id])
            } else {
                None::<Invoice>
            }),
    {
        match self.invoices.get(&id) {
            Some(i) => Some(*i),
            None => None,
        }
    }
}

impl EscrowView {
    /// Going from `self` to `later`, no invoice disappears, none changes
    /// parties, amount or deadline, and a settled one keeps its status.
    pub open spec fn persists_into(self, later: EscrowView) -> bool {
        forall|id: u64| #[trigger] self.invoices.contains_key(id) ==> {
            let (a, b) = (self.invoices[id], later.invoices[id]);
            &&& later.invoices.contains_key(id)
            &&& b.buyer == a.buyer
            &&& b.supplier == a.supplier
            &&& b.amount == a.amount
            &&& b.deadline == a.deadline
            &&& a.status != Status::Funded ==> b.status == a.status
        }
    }
}

/// Settlement is final: once an invoice is released or refunded, both a
/// confirmation and a refund of it are refused and change nothing.
pub proof fn lemma_settlement_is_final(s: EscrowView, id: u64, now: u64)
    requires
        s.wf(),
        s.invoices.contains_key(id),
        s.invoices[id].status != Status::Funded,
    ensures
        s.confirm_step(id) == (s, Err::<Transfer, Error>(Error::AlreadySettled)),
        s.refund_step(id, now) == (s, Err::<Transfer, Error>(Error::AlreadySettled)),
{
}

/// An escrow is paid out once: after a successful confirmation or refund of
/// an invoice, no confirmation or refund of it succeeds again.
pub proof fn lemma_settled_once(s: EscrowView, id: u64, now: u64, later: u64)
    requires
        s.wf(),
        s.confirm_step(id).1 is Ok || s.refund_step(id, now).1 is Ok,
    ensures
        s.confirm_step(id).1 is Ok ==> {
            let t = s.confirm_step(id).0;
            &&& t.confirm_step(id).1 == Err::<Transfer, Error>(Error::AlreadySettled)
            &&& t.refund_step(id, later).1 == Err::<Transfer, Error>(Error::AlreadySettled)
        },
        s.refund_step(id, now).1 is Ok ==> {
            let t = s.refund_step(id, now).0;
            &&& t.confirm_step(id).1 == Err::<Transfer, Error>(Error::AlreadySettled)
            &&& t.refund_step(id, later).1 == Err::<Transfer, Error>(Error::AlreadySettled)
        },
{
}

/// Pay on delivery, refund on no-show: once an invoice is funded, confirming
/// delivery releases the whole amount to the supplier; a refund before the
/// deadline is refused, and from the deadline on it returns the whole amount
/// to the buyer.
pub proof fn lemma_fund_then_settle(
    s: EscrowView,
    buyer: AccountId,
    id: u64,
    supplier: AccountId,
    amount: i128,
    deadline: u64,
    now: u64,
)
    requires
        s.wf(),
        s.fund_step(buyer, id, supplier, amount, deadline).1 is Ok,
    ensures
        ({
            let t = s.fund_step(buyer, id, supplier, amount, deadline).0;
            &&& s.fund_step(buyer, id, supplier, amount, deadline).1 == Ok::<Transfer, Error>(deposit(buyer, amount))
            &&& t.confirm_step(id).1 == Ok::<Transfer, Error>(release(supplier, amount))
            &&& t.confirm_step(id).0.invoices[id].status == Status::Released
            &&& now < deadline ==> t.refund_step(id, now) == (t, Err::<Transfer, Error>(Error::DeadlineNotReached))
            &&& now >= deadline ==> t.refund_step(id, now).1 == Ok::<Transfer, Error>(release(buyer, amount))
            &&& now >= deadline ==> t.refund_step(id, now).0.invoices[id].status == Status::Refunded
        }),
{
}

/// No early refund: a refund succeeds only from the invoice's deadline on.
pub proof fn lemma_no_early_refund(s: EscrowView, id: u64, now: u64)
    requires
        s.wf(),
        s.refund_step(id, now).1 is Ok,
    ensures
        s.invoices.contains_key(id),
        now >= s.invoices[id].deadline,
        s.invoices[id].status == Status::Funded,
{
}

/// Records persist: no operation removes an invoice, alters its parties,
/// amount or deadline, or changes the status of a settled one.
pub proof fn lemma_records_persist(
    s: EscrowView,
    buyer: AccountId,
    id: u64,
    supplier: AccountId,
    amount: i128,
    deadline: u64,
    now: u64,
)
    requires
        s.wf(),
    ensures
        s.persists_into(s.fund_step(buyer, id, supplier, amount, deadline).0),
        s.persists_into(s.confirm_step(id).0),
        s.persists_into(s.refund_step(id, now).0),
{
}

/// The escrow holds exactly the funded invoices: an empty book holds nothing,
/// and every funding, confirmation or refund changes the funded total by
/// exactly what its transfer moves into or out of the escrow.
pub proof fn lemma_escrow_holds_funded(
    s: EscrowView,
    buyer: AccountId,
    id: u64,
    supplier: AccountId,
    amount: i128,
    deadline: u64,
    now: u64,
)
    requires
        s.wf(),
    ensures
        (EscrowView { invoices: Map::empty(), ..s }).escrowed() == 0,
        s.fund_step(buyer, id, supplier, amount, deadline).0.escrowed() == s.escrowed()
            + net_into_escrow(s.fund_step(buyer, id, supplier, amount, deadline).1),
        s.confirm_step(id).0.escrowed() == s.escrowed() + net_into_escrow(s.confirm_step(id).1),
        s.refund_step(id, now).0.escrowed() == s.escrowed() + net_into_escrow(s.refund_step(id, now).1),
{
    let empty = EscrowView { invoices: Map::empty(), ..s };
    assert(empty.invoices.dom() =~= Set::<u64>::empty());
    lemma_sum_empty(empty.funded_amount());
    let (t, r) = s.fund_step(buyer, id, supplier, amount, deadline);
    if r is Ok {
        assert(t.invoices.dom() =~= s.invoices.dom().insert(id));
        lemma_sum_agree(s.invoices.dom(), s.funded_amount(), t.funded_amount());
        lemma_sum_insert(s.invoices.dom(), t.funded_amount(), id);
    }
    let (t, r) = s.confirm_step(id);
    if r is Ok {
        assert(t.invoices.dom() =~= s.invoices.dom());
        lemma_sum_update(s.invoices.dom(), s.funded_amount(), t.funded_amount(), id);
    }
    let (t, r) = s.refund_step(id, now);
    if r is Ok {
        assert(t.invoices.dom() =~= s.invoices.dom());
        lemma_sum_update(s.invoices.dom(), s.funded_amount(), t.funded_amount(), id);
    }
}

/// An operation on the invoice book; a refund is made at ledger time `now`.
pub enum EscrowOp {
    Fund { buyer: AccountId, id: u64, supplier: AccountId, amount: i128, deadline: u64 },
    Confirm { id: u64 },
    Refund { id: u64, now: u64 },
}

impl EscrowOp {
    /// The invoice that a confirmation or a refund settles.
    pub open spec fn settles(self, id: u64) -> bool {
        ||| self matches EscrowOp::Confirm { id: i } && i == id
        ||| self matches EscrowOp::Refund { id: i, .. } && i == id
    }
}

impl Machine for EscrowView {
    type Op = EscrowOp;

    type Out = Result<Transfer, Error>;

    open spec fn step(self, op: EscrowOp) -> (EscrowView, Result<Transfer, Error>) {
        match op {
            EscrowOp::Fund { buyer, id, supplier, amount, deadline } => self.fund_step(
                buyer,
                id,
                supplier,
                amount,
                deadline,
            ),
            EscrowOp::Confirm { id } => self.confirm_step(id),
            EscrowOp::Refund { id, now } => self.refund_step(id, now),
        }
    }

    /// Every operation is accepted on a well-formed book.
    open spec fn allowed(self, op: EscrowOp) -> bool {
        true
    }

    open spec fn into_escrow(out: Result<Transfer, Error>) -> int {
        net_into_escrow(out)
    }

    /// Funding needs the buyer's authorization; confirming or refunding an
    /// existing invoice needs its buyer's; a missing one is refused first.
    open spec fn signer(self, op: EscrowOp) -> Option<AccountId> {
        match op {
            EscrowOp::Fund { buyer, .. } => Some(buyer),
            EscrowOp::Confirm { id } => self.settle_signer_of(id),
            EscrowOp::Refund { id, .. } => self.settle_signer_of(id),
        }
    }
}

impl EscrowView {
    /// The buyer of invoice `id`, whose authorization settling it needs.
    pub open spec fn settle_signer_of(self, id: u64) -> Option<AccountId> {
        if self.invoices.contains_key(id) {
            Some(self.invoices[id].buyer)
        } else {
            None
        }
    }
}

/// Who must authorize: escrowed money comes only from the buyer who
/// authorized the funding, and an invoice is released to its supplier or
/// refunded to its buyer only on the authorization of its buyer.
pub proof fn lemma_escrow_authorization(s: EscrowView, op: EscrowOp, id: u64)
    requires
        s.wf(),
    ensures
        s.step(op).1 is Ok ==> s.signer(op) is Some,
        s.step(op).1 matches Ok(t) ==> (t.to == Party::Escrow ==> t.from == Party::Account(s.signer(op)->Some_0)),
        op.settles(id) && s.invoices.contains_key(id) ==> s.signer(op) == Some(s.invoices[id].buyer),
        op.settles(id) ==> (s.step(op).1 matches Ok(t) ==> {
            &&& t.from == Party::Escrow
            &&& t.to == Party::Account(s.invoices[id].supplier) || t.to == Party::Account(s.invoices[id].buyer)
        }),
{
}

/// Over any run from a well-formed book: every intermediate book is
/// well-formed with the same admin and token, and what the run moved into the
/// escrow is exactly the growth of the funded total, so from an empty book
/// the escrow holds exactly the funded invoices.
pub proof fn lemma_escrow_run(s: EscrowView, ops: Seq<EscrowOp>, i: int)
    requires
        s.wf(),
        0 <= i <= ops.len(),
    ensures
        state_at(s, ops, i).wf(),
        state_at(s, ops, i).admin == s.admin,
        state_at(s, ops, i).token == s.token,
        escrow_flow(s, ops, i) == state_at(s, ops, i).escrowed() - s.escrowed(),
    decreases i,
{
    if i == 0 {
        assert(ops.take(0) =~= Seq::<EscrowOp>::empty());
    } else {
        lemma_escrow_run(s, ops, i - 1);
        lemma_state_at_next(s, ops, i - 1);
        let before = state_at(s, ops, i - 1);
        match ops[i - 1] {
            EscrowOp::Fund { buyer, id, supplier, amount, deadline } => {
                lemma_escrow_holds_funded(before, buyer, id, supplier, amount, deadline, 0);
            },
            EscrowOp::Confirm { id } => {
                lemma_escrow_holds_funded(before, 0, id, 0, 0, 0, 0);
            },
            EscrowOp::Refund { id, now } => {
                lemma_escrow_holds_funded(before, 0, id, 0, 0, 0, now);
            },
        }
    }
}

/// Records persist along any run: a later book keeps every invoice of an
/// earlier one with the same parties, amount and deadline, and a released or
/// refunded invoice keeps its status; a status only ever leaves `Funded`.
pub proof fn lemma_escrow_run_persists(s: EscrowView, ops: Seq<EscrowOp>, i: int, j: int)
    requires
        s.wf(),
        0 <= i <= j <= ops.len(),
    ensures
        state_at(s, ops, i).persists_into(state_at(s, ops, j)),
    decreases j - i,
{
    if i < j {
        lemma_escrow_run_persists(s, ops, i, j - 1);
        lemma_escrow_run(s, ops, j - 1);
        lemma_state_at_next(s, ops, j - 1);
        let before = state_at(s, ops, j - 1);
        match ops[j - 1] {
            EscrowOp::Fund { buyer, id, supplier, amount, deadline } => {
                lemma_records_persist(before, buyer, id, supplier, amount, deadline, 0);
            },
            EscrowOp::Confirm { id } => {
                lemma_records_persist(before, 0, id, 0, 0, 0, 0);
            },
            EscrowOp::Refund { id, now } => {
                lemma_records_persist(before, 0, id, 0, 0, 0, now);
            },
        }
    }
}

/// Over any run, an invoice is settled at most once: after a successful
/// confirmation or refund of an id, every later confirmation or refund of it
/// is refused as already settled.
pub proof fn lemma_settled_once_in_run(s: EscrowView, ops: Seq<EscrowOp>, id: u64, i: int, j: int)
    requires
        s.wf(),
        0 <= i < j < ops.len(),
        ops[i].settles(id),
        ops[j].settles(id),
        outcome_at(s, ops, i) is Ok,
    ensures
        outcome_at(s, ops, j) == Err::<Transfer, Error>(Error::AlreadySettled),
{
    lemma_state_at_next(s, ops, i);
    lemma_escrow_run_persists(s, ops, i + 1, j);
    assert(state_at(s, ops, i + 1).invoices.contains_key(id));
    assert(state_at(s, ops, i + 1).invoices[id].status != Status::Funded);
    assert(state_at(s, ops, j).invoices.contains_key(id));
}

/// Funding is open to every buyer, supplier, positive amount and deadline:
/// on a fresh id the amount is escrowed from the buyer and a funded invoice of
/// exactly the given parties, amount and deadline is added; a non-positive
/// amount and a taken id are refused, leaving the book unchanged.
pub proof fn lemma_fund_outcome(
    s: EscrowView,
    buyer: AccountId,
    id: u64,
    supplier: AccountId,
    amount: i128,
    deadline: u64,
)
    requires
        s.wf(),
    ensures
        amount > 0 && !s.invoices.contains_key(id) ==> {
            &&& s.fund_step(buyer, id, supplier, amount, deadline).1 == Ok::<Transfer, Error>(
                Transfer { from: Party::Account(buyer), to: Party::Escrow, amount },
            )
            &&& s.fund_step(buyer, id, supplier, amount, deadline).0 == EscrowView {
                invoices: s.invoices.insert(
                    id,
                    Invoice { buyer, supplier, amount, deadline, status: Status::Funded },
                ),
                ..s
            }
        },
        amount <= 0 ==> s.fund_step(buyer, id, supplier, amount, deadline) == (s, Err::<Transfer, Error>(
            Error::InvalidAmount,
        )),
        amount > 0 && s.invoices.contains_key(id) ==> s.fund_step(buyer, id, supplier, amount, deadline) == (
            s,
            Err::<Transfer, Error>(Error::AlreadyExists),
        ),
{
}

/// Confirmation succeeds exactly on an existing funded invoice: it releases
/// the whole amount to the supplier and marks the invoice released; otherwise
/// it is refused (not found, or already settled) and changes nothing.
pub proof fn lemma_confirm_outcome(s: EscrowView, id: u64)
    requires
        s.wf(),
    ensures
        s.invoices.contains_key(id) && s.invoices[id].status == Status::Funded ==> {
            let i = s.invoices[id];
            &&& s.confirm_step(id).1 == Ok::<Transfer, Error>(
                Transfer { from: Party::Escrow, to: Party::Account(i.supplier), amount: i.amount },
            )
            &&& s.confirm_step(id).0 == EscrowView {
                invoices: s.invoices.insert(
                    id,
                    Invoice {
                        buyer: i.buyer,
                        supplier: i.supplier,
                        amount: i.amount,
                        deadline: i.deadline,
                        status: Status::Released,
                    },
                ),
                ..s
            }
        },
        !s.invoices.contains_key(id) ==> s.confirm_step(id) == (s, Err::<Transfer, Error>(Error::NotFound)),
        s.invoices.contains_key(id) && s.invoices[id].status != Status::Funded ==> s.confirm_step(id) == (
            s,
            Err::<Transfer, Error>(Error::AlreadySettled),
        ),
{
}

/// A refund succeeds exactly on an existing funded invoice once the ledger
/// time has reached its deadline, whatever that deadline is: it returns the
/// whole amount to the buyer and marks the invoice refunded; otherwise it is
/// refused (not found, already settled, or before the deadline, in that
/// order) and changes nothing.
pub proof fn lemma_refund_outcome(s: EscrowView, id: u64, now: u64)
    requires
        s.wf(),
    ensures
        s.invoices.contains_key(id) && s.invoices[id].status == Status::Funded && now >= s.invoices[id].deadline
            ==> {
            let i = s.invoices[id];
            &&& s.refund_step(id, now).1 == Ok::<Transfer, Error>(
                Transfer { from: Party::Escrow, to: Party::Account(i.buyer), amount: i.amount },
            )
            &&& s.refund_step(id, now).0 == EscrowView {
                invoices: s.invoices.insert(
                    id,
                    Invoice {
                        buyer: i.buyer,
                        supplier: i.supplier,
                        amount: i.amount,
                        deadline: i.deadline,
                        status: Status::Refunded,
                    },
                ),
                ..s
            }
        },
        !s.invoices.contains_key(id) ==> s.refund_step(id, now) == (s, Err::<Transfer, Error>(Error::NotFound)),
        s.invoices.contains_key(id) && s.invoices[id].status != Status::Funded ==> s.refund_step(id, now) == (
            s,
            Err::<Transfer, Error>(Error::AlreadySettled),
        ),
        s.invoices.contains_key(id) && s.invoices[id].status == Status::Funded && now < s.invoices[id].deadline
            ==> s.refund_step(id, now) == (s, Err::<Transfer, Error>(Error::DeadlineNotReached)),
{
}

} // verus!
