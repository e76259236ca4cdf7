//! The decisions of a wallet that builds confidential transactions.
//!
//! The crate decides which owned outputs a transaction spends, which ledger
//! outputs surround each of them as decoys, what every output and every
//! change output is worth, and how orphaned outputs are attributed when a new
//! subaddress is assigned. It also writes and reads the JSON models of
//! proposed transactions.
//!
//! Every function is verified against a contract over mathematical models of
//! the wallet's data. Five small functions are trusted instead: they call
//! `rand`, `hex` and the number formatting of std, and their contracts say
//! what those document. Reading the ledger and the wallet store, deriving
//! keys and signing stay with the caller, who hands their answers in as plain
//! values.

pub mod amount;
pub mod assigned_subaddress;
pub mod encoding;
pub mod error;
pub mod json;
pub mod ledger;
pub mod mixin;
pub mod ring;
pub mod settlement;
pub mod sorted;
pub mod transaction_builder;
pub mod transaction_memo;
pub mod tx_proposal;
pub mod txo;
pub mod utxo_selector;
