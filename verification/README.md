# remit_contracts

Verified decision logic for three USDC escrow contracts on Stellar/Soroban:

- `paluwagan_pool`: a rotating savings circle. Members join in order, each pays a
  fixed contribution per round, and once every member has funded the current
  round the whole pot goes to the member whose turn it is.
- `sari_pay_remit`: code-redeemable remittances. A sender escrows an amount under
  the SHA-256 digest of a one-time code; the named store cashes it out once with
  the code.
- `tinda_escrow`: deadline-protected trade escrow. The buyer releases the amount
  to the supplier on delivery, or takes it back once the deadline has come.

Each contract is a state machine in `src/`, proved with Verus against a
spec-level model (`PoolView`, `RemitView`, `EscrowView`): every operation's
result and new state are given exactly by a step function of the model, and
the `lemma_*` proof functions state the laws of each contract (one payout per
round in join order, paid-in-full pots, claim at most once, final settlement,
escrow totals that match the transfers). Operations return the token transfer
that the host must perform. `src/host.rs` holds the host service the logic
calls: SHA-256. The `Machine` trait in `src/common.rs` lets the laws speak of
whole runs of operations (`state_at`, `outcome_at`, `escrow_flow`).

Each contract also names the account whose authorization an operation needs
(`Machine::signer`, `claim_signer`, `settle_signer`), with laws saying that
money leaves an account only on that account's authorization and leaves the
escrow only to the record's parties.

The library keeps its state in std collections, with accounts as numbers.
Soroban's `Vec`, `Map`, `Address` and storage entries are handles on host
objects: they need an environment, compare through the host, and live in
contract storage, so they stay in `app/`.

`app/` runs the contracts on the Soroban host: authentication of the signer the
library names, the contracts' storage (one persistent entry per remittance,
invoice and contribution flag) and the address book, the ledger clock, and the
token transfers.
