//! What a wallet for a CKB chain decides: which cells to collect, which cells a transaction has to
//! name, what to ask a node for and what to remember of its answers, and how to sign.

pub mod bytes;
pub mod types;
pub mod views;
pub mod table;
pub mod cell_dep;
pub mod gather;
pub mod offchain;
pub mod chain_check;
pub mod collector;
pub mod collect_run;
pub mod collect_steps;
pub mod cache;
pub mod tx_dep;
pub mod header_dep;
pub mod secp;
pub mod signer;
