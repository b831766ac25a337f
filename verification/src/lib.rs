//! A ledger of paired, non-transferable connection tokens with a funded reward pool.

pub mod account;
pub mod error;
pub mod token;
pub mod index;
pub mod ledger;
pub mod history;
