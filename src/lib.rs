//! Settlement of fungible rune balances for the transactions of a block.

pub mod types;
pub mod rune;
pub mod entry;
pub mod balances;
pub mod allocate;
pub mod settle;
pub mod outputs;
pub mod transaction;
pub mod event;
pub mod commit;
pub mod flows;
pub mod updater;
pub mod laws;

