//! A verifiable, append-only token ledger built from four layers:
//! a generic state-transition interface, a bill-based (UTXO-style) cash
//! ledger that enforces conservation and anti-forgery rules, a hash-linked
//! block chain that batches transitions, and a pluggable proof-of-work
//! consensus rule that decides header admissibility independently of what
//! the extrinsics do.

pub mod accounted_currency;
pub mod block_chain;
pub mod consensus;
pub mod digital_cash;
pub mod extrinsic_chain;
pub mod hashing;
pub mod laundry;
pub mod state_machine;
pub mod tic_tac_toe;
