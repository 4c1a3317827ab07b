//! The ledger as a mathematical value, and each operation as a function
//! from one such value to the next.

use crate::linked_item::{append_nodes, remove_nodes, tokens, well_linked, without, Nodes};
use crate::types::{AccountId, Error, Event, TokenId};
use vstd::prelude::*;

verus! {

/// Everything the ledger knows at one moment.
#[verifier::ext_equal]
pub struct LedgerState {
    /// The owner of each living token.
    pub owners: Map<TokenId, AccountId>,
    /// How many tokens each account holds; an account without entry holds none.
    pub balances: Map<AccountId, TokenId>,
    /// The delegate who may move a token for its owner.
    pub approvals: Map<TokenId, AccountId>,
    /// Whether the second account may act for all tokens of the first.
    pub operators: Map<(AccountId, AccountId), bool>,
    /// How many tokens live; also the id that is issued next.
    pub total_supply: TokenId,
    /// The payload of each living token.
    pub uris: Map<TokenId, Seq<u8>>,
    /// Counts the issues and burns.
    pub nonce: u64,
    /// The per-owner lists of tokens.
    pub owned: Nodes,
    /// The events that happened and were not yet collected.
    pub events: Seq<Event>,
    /// The largest value that the supply and a balance may take.
    pub id_bound: TokenId,
}

/// The counter after one more issue or burn. It starts over after the
/// largest value.
pub open spec fn next_nonce(nonce: u64) -> u64 {
    if nonce == u64::MAX {
        0
    } else {
        (nonce + 1) as u64
    }
}

impl LedgerState {
    /// The ledger before anything happened.
    pub open spec fn fresh(id_bound: TokenId) -> LedgerState {
        LedgerState {
            owners: Map::empty(),
            balances: Map::empty(),
            approvals: Map::empty(),
            operators: Map::empty(),
            total_supply: 0,
            uris: Map::empty(),
            nonce: 0,
            owned: Map::empty(),
            events: Seq::empty(),
            id_bound,
        }
    }

    /// How many tokens `who` holds.
    pub open spec fn balance_of(self, who: AccountId) -> TokenId {
        if self.balances.contains_key(who) {
            self.balances[who]
        } else {
            0
        }
    }

    /// The owner of token `id`, if it lives.
    pub open spec fn owner_of(self, id: TokenId) -> Option<AccountId> {
        if self.owners.contains_key(id) {
            Some(self.owners[id])
        } else {
            None
        }
    }

    /// The delegate of token `id`, if it has one.
    pub open spec fn get_approved(self, id: TokenId) -> Option<AccountId> {
        if self.approvals.contains_key(id) {
            Some(self.approvals[id])
        } else {
            None
        }
    }

    /// Whether `operator` may act for all tokens of `owner`.
    pub open spec fn is_approved_for_all(self, owner: AccountId, operator: AccountId) -> bool {
        self.operators.contains_key((owner, operator)) && self.operators[(owner, operator)]
    }

    /// The payload of token `id`; empty if it has none.
    pub open spec fn token_uri(self, id: TokenId) -> Seq<u8> {
        if self.uris.contains_key(id) {
            self.uris[id]
        } else {
            Seq::empty()
        }
    }

    /// Whether `caller` may move token `id`: it is the owner, the token's
    /// delegate, or an operator of the owner.
    pub open spec fn may_transfer(self, caller: AccountId, id: TokenId) -> bool {
        self.owners.contains_key(id) && (self.owners[id] == caller || self.get_approved(id) == Some(
            caller,
        ) || self.is_approved_for_all(self.owners[id], caller))
    }

    /// The tokens of `who`, oldest holding first.
    pub open spec fn tokens_of(self, who: AccountId) -> Seq<TokenId> {
        tokens(self.owned, who)
    }

    /// The tokens whose owner is `who`, as a set.
    pub open spec fn owned_by(self, who: AccountId) -> Set<TokenId> {
        Set::new(|id: TokenId| self.owner_of(id) == Some(who))
    }

    /// The tokens that live.
    pub open spec fn living(self) -> Set<TokenId> {
        Set::new(|id: TokenId| self.owner_of(id) is Some)
    }

    /// The ledger is consistent: the supply counts the living tokens, each
    /// account's list holds exactly its tokens, its balance is the length
    /// of that list, and only a living token has a delegate.
    pub open spec fn inv(self) -> bool {
        &&& self.owners.dom().finite()
        &&& forall|id: TokenId| #[trigger]
            self.approvals.contains_key(id) ==> self.owners.contains_key(id)
        &&& self.total_supply == self.owners.dom().len()
        &&& self.total_supply <= self.id_bound
        &&& well_linked(self.owned)
        &&& forall|who: AccountId, id: TokenId| #[trigger]
            tokens(self.owned, who).contains(id) ==> self.owner_of(id) == Some(who)
        &&& forall|id: TokenId| #[trigger]
            self.owners.contains_key(id) ==> tokens(self.owned, self.owners[id]).contains(id)
        &&& forall|who: AccountId| #[trigger]
            self.balance_of(who) == tokens(self.owned, who).len()
    }

    /// Whether a token can be issued to `who`, and under which id. The
    /// checks come in this order: the next id is free, the balance of `who`
    /// can grow, and the supply can grow.
    pub open spec fn issue_outcome(self, who: AccountId) -> Result<TokenId, Error> {
        if self.owners.contains_key(self.total_supply) {
            Err(Error::AlreadyExists)
        } else if self.balance_of(who) >= self.id_bound {
            Err(Error::BalanceOverflow)
        } else if self.total_supply >= self.id_bound {
            Err(Error::IdCounterExhausted)
        } else {
            Ok(self.total_supply)
        }
    }

    /// The ledger after a token with payload `uri` was issued to `who`.
    pub open spec fn issued(self, who: AccountId, uri: Seq<u8>) -> LedgerState {
        let id = self.total_supply;
        LedgerState {
            owners: self.owners.insert(id, who),
            balances: self.balances.insert(who, (self.balance_of(who) + 1) as TokenId),
            total_supply: (self.total_supply + 1) as TokenId,
            uris: self.uris.insert(id, uri),
            nonce: next_nonce(self.nonce),
            owned: append_nodes(self.owned, who, id),
            events: self.events.push(Event::Transfer(None, Some(who), id)),
            ..self
        }
    }

    /// Whether token `id` can be burned.
    pub open spec fn burn_outcome(self, id: TokenId) -> Result<(), Error> {
        if !self.owners.contains_key(id) {
            Err(Error::NotFound)
        } else if self.balance_of(self.owners[id]) == 0 {
            Err(Error::BalanceUnderflow)
        } else if self.total_supply == 0 {
            Err(Error::SupplyUnderflow)
        } else {
            Ok(())
        }
    }

    /// The ledger after token `id` was burned.
    pub open spec fn burned(self, id: TokenId) -> LedgerState {
        let owner = self.owners[id];
        LedgerState {
            owners: self.owners.remove(id),
            balances: self.balances.insert(owner, (self.balance_of(owner) - 1) as TokenId),
            approvals: self.approvals.remove(id),
            total_supply: (self.total_supply - 1) as TokenId,
            uris: self.uris.remove(id),
            nonce: next_nonce(self.nonce),
            owned: remove_nodes(self.owned, owner, id),
            events: self.events.push(Event::Transfer(Some(owner), None, id)),
            ..self
        }
    }

    /// Whether token `id` can move from `from` to `to`.
    pub open spec fn transfer_outcome(self, from: AccountId, to: AccountId, id: TokenId) -> Result<
        (),
        Error,
    > {
        if !self.owners.contains_key(id) {
            Err(Error::NotFound)
        } else if self.owners[id] != from {
            Err(Error::NotOwner)
        } else if self.balance_of(from) == 0 {
            Err(Error::BalanceUnderflow)
        } else if self.balance_of(to) >= self.id_bound {
            Err(Error::BalanceOverflow)
        } else {
            Ok(())
        }
    }

    /// The ledger after token `id` moved from `from` to `to`. The sender's
    /// balance goes down before the receiver's goes up, so a transfer to
    /// oneself leaves the balance as it was.
    pub open spec fn transferred(self, from: AccountId, to: AccountId, id: TokenId) -> LedgerState {
        let debited = self.balances.insert(from, (self.balance_of(from) - 1) as TokenId);
        let held = if debited.contains_key(to) {
            debited[to]
        } else {
            0
        };
        LedgerState {
            owners: self.owners.insert(id, to),
            balances: debited.insert(to, (held + 1) as TokenId),
            approvals: self.approvals.remove(id),
            owned: append_nodes(remove_nodes(self.owned, from, id), to, id),
            events: self.events.push(Event::Transfer(Some(from), Some(to), id)),
            ..self
        }
    }

    /// Whether `caller` can name `delegate` for token `id`.
    pub open spec fn approve_outcome(self, caller: AccountId, delegate: AccountId, id: TokenId)
        -> Result<(), Error> {
        if self.owner_of(id) != Some(caller) {
            Err(Error::NotOwner)
        } else if delegate == caller {
            Err(Error::SelfApproval)
        } else {
            Ok(())
        }
    }

    /// The ledger after `caller` named `delegate` for token `id`.
    pub open spec fn approved(self, caller: AccountId, delegate: AccountId, id: TokenId)
        -> LedgerState {
        LedgerState {
            approvals: self.approvals.insert(id, delegate),
            events: self.events.push(Event::Approval(caller, delegate, id)),
            ..self
        }
    }

    /// Whether `caller` can switch `operator` on or off.
    pub open spec fn operator_outcome(self, caller: AccountId, operator: AccountId) -> Result<
        (),
        Error,
    > {
        if operator == caller {
            Err(Error::SelfApproval)
        } else {
            Ok(())
        }
    }

    /// The ledger after `caller` switched `operator` on or off.
    pub open spec fn operator_set(self, caller: AccountId, operator: AccountId, on: bool)
        -> LedgerState {
        LedgerState {
            operators: self.operators.insert((caller, operator), on),
            events: self.events.push(Event::ApprovalForAll(caller, operator, on)),
            ..self
        }
    }

    /// The ledger after the delegate of token `id` was forgotten.
    pub open spec fn approval_cleared(self, id: TokenId) -> LedgerState {
        LedgerState { approvals: self.approvals.remove(id), ..self }
    }
}

/// The list of `a` after a token was issued to `who`: the new token comes
/// last in the list of `who`.
pub open spec fn issued_list(s: LedgerState, who: AccountId, a: AccountId) -> Seq<TokenId> {
    if a == who {
        s.tokens_of(a).push(s.total_supply)
    } else {
        s.tokens_of(a)
    }
}

/// The list of `a` after token `id` was burned: the token leaves its
/// owner's list.
pub open spec fn burned_list(s: LedgerState, id: TokenId, a: AccountId) -> Seq<TokenId> {
    if s.owner_of(id) == Some(a) {
        without(s.tokens_of(a), id)
    } else {
        s.tokens_of(a)
    }
}

/// The list of `a` after token `id` moved from `from` to `to`: the token
/// leaves the sender's list and comes last in the receiver's.
pub open spec fn moved_list(
    s: LedgerState,
    from: AccountId,
    to: AccountId,
    id: TokenId,
    a: AccountId,
) -> Seq<TokenId> {
    let left = if a == from {
        without(s.tokens_of(a), id)
    } else {
        s.tokens_of(a)
    };
    if a == to {
        left.push(id)
    } else {
        left
    }
}

} // verus!
