//! A ledger for non-fungible tokens: who owns which token, who may move it,
//! which tokens an account holds, and how two tokens breed a third.

pub mod kitties;
pub mod ledger_laws;
pub mod linked_item;
pub mod linked_laws;
pub mod nfts;
pub mod state;
pub mod types;
