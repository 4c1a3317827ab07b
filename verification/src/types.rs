//! Identifiers, errors and events shared by the ledger's modules.

use vstd::prelude::*;

verus! {

/// Identifies an account. The ledger never looks inside it.
pub type AccountId = u64;

/// Identifies a token. Ids are handed out in increasing order.
pub type TokenId = u64;

/// Why an operation was rejected. A rejected operation changes nothing.
#[derive(Clone, Copy, Debug, PartialEq, Eq)]
pub enum Error {
    /// The token has no owner.
    NotFound,
    /// The account is not the owner that the operation needs.
    NotOwner,
    /// The delegate or operator is the acting account itself.
    SelfApproval,
    /// The id that would be issued next is already owned.
    AlreadyExists,
    /// A balance would pass its bound.
    BalanceOverflow,
    /// A balance would fall below zero.
    BalanceUnderflow,
    /// The total supply would pass its bound.
    SupplyOverflow,
    /// The total supply would fall below zero.
    SupplyUnderflow,
    /// Both parents are the same token.
    IdenticalParents,
    /// A parent token does not exist.
    InvalidParent,
    /// No token id is left to hand out.
    IdCounterExhausted,
}

/// What the ledger tells its observers, in the order in which it happened.
#[derive(Clone, Copy, Debug, PartialEq, Eq)]
pub enum Event {
    /// A token moved: from nobody when issued, to nobody when burned.
    Transfer(Option<AccountId>, Option<AccountId>, TokenId),
    /// An owner named a delegate for one token.
    Approval(AccountId, AccountId, TokenId),
    /// An owner switched an operator on or off for all of its tokens.
    ApprovalForAll(AccountId, AccountId, bool),
}

} // verus!
