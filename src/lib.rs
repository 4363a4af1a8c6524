//! Core of a proof-of-work chain daemon.
//!
//! - `blockchain`: the chain state machine, which validates blocks against
//!   the tip and applies them with exact accounting of the supply.
//! - `rules`: the transaction checks and their execution on the accounts.
//! - `accounts`, `mempool`: the ledger and the pending transactions.
//! - `transaction`, `block`, `decode`, `codec`: the data and its byte and
//!   hex encodings.
//! - `difficulty`, `emission`: proof of work, retargeting, rewards and fees.
//! - `peer_list`: the live peers and the per-address access policy.
//! - `reference`: the checks of a transaction's reference to a past state.
//! - `crypto`: digests, keys, signatures and addresses.

pub mod accounts;
pub mod block;
pub mod blockchain;
pub mod codec;
pub mod config;
pub mod crypto;
pub mod decode;
pub mod difficulty;
pub mod emission;
pub mod keyed;
pub mod mempool;
pub mod peer_list;
pub mod reference;
pub mod rules;
pub mod transaction;
