//! Verified decision logic of three USDC escrow contracts for remittance and
//! trade: a rotating savings circle, code-redeemable remittances, and
//! deadline-protected invoice escrow. Each contract is a state machine whose
//! operations return the token transfer that the host must carry out.

pub mod common;
pub mod host;
pub mod paluwagan_pool;
pub mod sari_pay_remit;
pub mod tinda_escrow;
