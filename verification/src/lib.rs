//! Ledger core of a hierarchical city-chain network: transactions enter at a
//! municipal tier, are approved by an elected representative, batched into
//! hash-linked blocks and exchanged between peers.

pub mod block;
pub mod clock;
pub mod consensus;
pub mod digest;
pub mod dpos;
pub mod error;
pub mod evaluation;
pub mod json;
pub mod keys;
pub mod node;
pub mod pending;
pub mod poh;
pub mod routing;
pub mod text;
pub mod transaction;
