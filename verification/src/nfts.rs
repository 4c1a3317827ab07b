//! The token ledger: ownership, balances, supply and approvals, with the
//! operations that change them.

use crate::ledger_laws::{
    lemma_balance_counts_owned, lemma_burn_inv, lemma_consistent_outcomes, lemma_fresh_inv,
    lemma_issue_inv, lemma_list_holds_own_tokens, lemma_same_holdings_inv,
    lemma_supply_counts_living, lemma_transfer_inv,
};
use crate::linked_item::{LinkedItem, LinkedList, NodeKey};
use crate::state::{burned_list, issued_list, moved_list, LedgerState};
use crate::types::{AccountId, Error, Event, TokenId};
use std::collections::BTreeMap;
use vstd::prelude::*;

verus! {

broadcast use {vstd::std_specs::btree::group_btree_axioms, vstd::laws_cmp::group_laws_cmp};

/// The supply after one more token, or `SupplyOverflow` at the bound.
pub fn supply_increase(total_supply: TokenId, bound: TokenId) -> (r: Result<TokenId, Error>)
    ensures
        r == if total_supply >= bound {
            Err::<TokenId, Error>(Error::SupplyOverflow)
        } else {
            Ok::<TokenId, Error>((total_supply + 1) as TokenId)
        },
{
    if total_supply >= bound {
        Err(Error::SupplyOverflow)
    } else {
        Ok(total_supply + 1)
    }
}

/// The supply after one token less, or `SupplyUnderflow` at zero.
pub fn supply_decrease(total_supply: TokenId) -> (r: Result<TokenId, Error>)
    ensures
        r == if total_supply == 0 {
            Err::<TokenId, Error>(Error::SupplyUnderflow)
        } else {
            Ok::<TokenId, Error>((total_supply - 1) as TokenId)
        },
{
    if total_supply == 0 {
        Err(Error::SupplyUnderflow)
    } else {
        Ok(total_supply - 1)
    }
}

/// The operations of a ledger of non-fungible tokens. Each one checks all it
/// has to check before it changes anything: a rejected operation leaves the
/// ledger as it was. Each one keeps a consistent ledger consistent.
pub trait NFTS: View<V = LedgerState> + Sized {
    /// Moves token `token_id` from `from` to `to` and forgets its delegate.
    /// The caller has made sure that whoever asks may move the token.
    fn transfer_from(&mut self, from: AccountId, to: AccountId, token_id: TokenId) -> (r: Result<
        (),
        Error,
    >)
        ensures
            r == old(self)@.transfer_outcome(from, to, token_id),
            r is Ok ==> final(self)@ == old(self)@.transferred(from, to, token_id),
            r is Err ==> final(self)@ == old(self)@,
            r is Ok ==> final(self)@.get_approved(token_id) is None,
            old(self)@.inv() ==> final(self)@.inv(),
            old(self)@.inv() && r is Ok ==> forall|a: AccountId| #[trigger]
                final(self)@.tokens_of(a) == moved_list(old(self)@, from, to, token_id, a),
    ;

    /// Lets `to` move token `token_id`, which `origin` owns.
    fn _approve(&mut self, origin: AccountId, to: AccountId, token_id: TokenId) -> (r: Result<
        (),
        Error,
    >)
        ensures
            r == old(self)@.approve_outcome(origin, to, token_id),
            old(self)@.owner_of(token_id) != Some(origin) ==> r == Err::<(), Error>(
                Error::NotOwner,
            ),
            r is Ok ==> final(self)@ == old(self)@.approved(origin, to, token_id),
            r is Err ==> final(self)@ == old(self)@,
            old(self)@.inv() ==> final(self)@.inv(),
    ;

    /// Lets `to` act for all tokens of `origin`, or no longer.
    fn _set_approval_for_all(&mut self, origin: AccountId, to: AccountId, approved: bool) -> (r:
        Result<(), Error>)
        ensures
            r == old(self)@.operator_outcome(origin, to),
            r is Ok ==> final(self)@ == old(self)@.operator_set(origin, to, approved),
            r is Err ==> final(self)@ == old(self)@,
            old(self)@.inv() ==> final(self)@.inv(),
    ;

    /// Issues a token with payload `uri` to `who`, under the next id, and
    /// returns that id. In a consistent ledger the new token has no delegate.
    fn _issue_with_uri(&mut self, who: &AccountId, uri: Vec<u8>) -> (r: Result<TokenId, Error>)
        ensures
            r == old(self)@.issue_outcome(*who),
            r is Ok ==> final(self)@ == old(self)@.issued(*who, uri@),
            r is Err ==> final(self)@ == old(self)@,
            old(self)@.inv() ==> final(self)@.inv(),
            old(self)@.inv() && r is Ok ==> final(self)@.get_approved(old(self)@.total_supply)
                is None,
            old(self)@.inv() && r is Ok ==> forall|a: AccountId| #[trigger]
                final(self)@.tokens_of(a) == issued_list(old(self)@, *who, a),
    ;

    /// Burns token `token_id`: it has no owner, payload or delegate afterwards.
    fn _burn(&mut self, token_id: TokenId) -> (r: Result<(), Error>)
        ensures
            r == old(self)@.burn_outcome(token_id),
            old(self)@.owner_of(token_id) is None ==> r == Err::<(), Error>(Error::NotFound),
            r is Ok ==> final(self)@ == old(self)@.burned(token_id),
            r is Err ==> final(self)@ == old(self)@,
            r is Ok ==> final(self)@.owner_of(token_id) is None,
            old(self)@.inv() ==> final(self)@.inv(),
            old(self)@.inv() && r is Ok ==> forall|a: AccountId| #[trigger]
                final(self)@.tokens_of(a) == burned_list(old(self)@, token_id, a),
    ;

    /// Forgets the delegate of token `token_id`. This never fails.
    fn _clear_approval(&mut self, token_id: TokenId) -> (r: Result<(), Error>)
        ensures
            r is Ok,
            final(self)@ == old(self)@.approval_cleared(token_id),
            old(self)@.inv() ==> final(self)@.inv(),
    ;
}

/// The records of a ledger, in ordered maps. Nothing here says that the
/// records agree with each other: that is what `TokenLedger` adds.
struct Records {
    owners: BTreeMap<TokenId, AccountId>,
    balances: BTreeMap<AccountId, TokenId>,
    approvals: BTreeMap<TokenId, AccountId>,
    operators: BTreeMap<(AccountId, AccountId), bool>,
    total_supply: TokenId,
    uris: BTreeMap<TokenId, Vec<u8>>,
    nonce: u64,
    owned: LinkedList,
    events: Vec<Event>,
    id_bound: TokenId,
}

impl View for Records {
    type V = LedgerState;

    closed spec fn view(&self) -> LedgerState {
        LedgerState {
            owners: self.owners@,
            balances: self.balances@,
            approvals: self.approvals@,
            operators: self.operators@,
            total_supply: self.total_supply,
            uris: self.uris@.map_values(|uri: Vec<u8>| uri@),
            nonce: self.nonce,
            owned: self.owned@,
            events: self.events@,
            id_bound: self.id_bound,
        }
    }
}

impl Records {
    fn new(id_bound: TokenId) -> (records: Self)
        ensures
            records@ == LedgerState::fresh(id_bound),
    {
        let records = Records {
            owners: BTreeMap::new(),
            balances: BTreeMap::new(),
            approvals: BTreeMap::new(),
            operators: BTreeMap::new(),
            total_supply: 0,
            uris: BTreeMap::new(),
            nonce: 0,
            owned: LinkedList::new(),
            events: Vec::new(),
            id_bound,
        };
        assert(records@.uris =~= Map::<TokenId, Seq<u8>>::empty());
        records
    }

    fn balance_of(&self, who: &AccountId) -> (balance: TokenId)
        ensures
            balance == self@.balance_of(*who),
    {
        match self.balances.get(who) {
            Some(balance) => *balance,
            None => 0,
        }
    }

    fn owner_of(&self, token_id: TokenId) -> (owner: Option<AccountId>)
        ensures
            owner == self@.owner_of(token_id),
    {
        match self.owners.get(&token_id) {
            Some(owner) => Some(*owner),
            None => None,
        }
    }

    fn take_events(&mut self) -> (events: Vec<Event>)
        ensures
            events@ == old(self)@.events,
            final(self)@ == (LedgerState { events: Seq::empty(), ..old(self)@ }),
            old(self)@.inv() ==> final(self)@.inv(),
    {
        let mut events: Vec<Event> = Vec::new();
        std::mem::swap(&mut events, &mut self.events);
        proof {
            if old(self)@.inv() {
                lemma_same_holdings_inv(old(self)@, self@);
            }
        }
        events
    }
}

impl NFTS for Records {
    fn transfer_from(&mut self, from: AccountId, to: AccountId, token_id: TokenId) -> (r: Result<
        (),
        Error,
    >) {
        let owner = match self.owner_of(token_id) {
            Some(owner) => owner,
            None => {
                return Err(Error::NotFound);
            },
        };
        if owner != from {
            return Err(Error::NotOwner);
        }
        let balance_of_from = self.balance_of(&from);
        if balance_of_from == 0 {
            return Err(Error::BalanceUnderflow);
        }
        if self.balance_of(&to) >= self.id_bound {
            return Err(Error::BalanceOverflow);
        }
        proof {
            if old(self)@.inv() {
                lemma_transfer_inv(old(self)@, from, to, token_id);
            }
        }
        self.balances.insert(from, balance_of_from - 1);
        let held = self.balance_of(&to);
        self.balances.insert(to, held + 1);
        self.owners.insert(token_id, to);
        self.approvals.remove(&token_id);
        self.owned.remove(&from, token_id);
        self.owned.append(&to, token_id);
        self.events.push(Event::Transfer(Some(from), Some(to), token_id));
        Ok(())
    }

    fn _approve(&mut self, origin: AccountId, to: AccountId, token_id: TokenId) -> (r: Result<
        (),
        Error,
    >) {
        match self.owner_of(token_id) {
            Some(owner) => {
                if owner != origin {
                    return Err(Error::NotOwner);
                }
            },
            None => {
                return Err(Error::NotOwner);
            },
        }
        if to == origin {
            return Err(Error::SelfApproval);
        }
        self.approvals.insert(token_id, to);
        self.events.push(Event::Approval(origin, to, token_id));
        proof {
            if old(self)@.inv() {
                assert forall|id: TokenId| #[trigger]
                    self@.approvals.contains_key(id) implies self@.owners.contains_key(id) by {
                    if id != token_id {
                        assert(old(self)@.approvals.contains_key(id));
                    }
                }
                lemma_same_holdings_inv(old(self)@, self@);
            }
        }
        Ok(())
    }

    fn _set_approval_for_all(&mut self, origin: AccountId, to: AccountId, approved: bool) -> (r:
        Result<(), Error>) {
        if to == origin {
            return Err(Error::SelfApproval);
        }
        self.operators.insert((origin, to), approved);
        self.events.push(Event::ApprovalForAll(origin, to, approved));
        proof {
            if old(self)@.inv() {
                assert forall|id: TokenId| #[trigger]
                    self@.approvals.contains_key(id) implies self@.owners.contains_key(id) by {
                    assert(old(self)@.approvals.contains_key(id));
                }
                lemma_same_holdings_inv(old(self)@, self@);
            }
        }
        Ok(())
    }

    fn _issue_with_uri(&mut self, who: &AccountId, uri: Vec<u8>) -> (r: Result<TokenId, Error>) {
        let token_id = self.total_supply;
        if self.owners.contains_key(&token_id) {
            return Err(Error::AlreadyExists);
        }
        let balance = self.balance_of(who);
        if balance >= self.id_bound {
            return Err(Error::BalanceOverflow);
        }
        let new_total_supply = match supply_increase(self.total_supply, self.id_bound) {
            Ok(supply) => supply,
            Err(_) => {
                return Err(Error::IdCounterExhausted);
            },
        };
        proof {
            if old(self)@.inv() {
                lemma_issue_inv(old(self)@, *who, uri@);
            }
        }
        let ghost payload = uri@;
        self.total_supply = new_total_supply;
        self.uris.insert(token_id, uri);
        self.owners.insert(token_id, *who);
        self.balances.insert(*who, balance + 1);
        self.nonce = if self.nonce == u64::MAX {
            0
        } else {
            self.nonce + 1
        };
        self.owned.append(who, token_id);
        self.events.push(Event::Transfer(None, Some(*who), token_id));
        assert(self@.uris =~= old(self)@.uris.insert(token_id, payload));
        Ok(token_id)
    }

    fn _burn(&mut self, token_id: TokenId) -> (r: Result<(), Error>) {
        let owner = match self.owner_of(token_id) {
            Some(owner) => owner,
            None => {
                return Err(Error::NotFound);
            },
        };
        let balance = self.balance_of(&owner);
        if balance == 0 {
            return Err(Error::BalanceUnderflow);
        }
        let new_total_supply = match supply_decrease(self.total_supply) {
            Ok(supply) => supply,
            Err(e) => {
                return Err(e);
            },
        };
        proof {
            if old(self)@.inv() {
                lemma_burn_inv(old(self)@, token_id);
            }
        }
        self.total_supply = new_total_supply;
        self.uris.remove(&token_id);
        self.approvals.remove(&token_id);
        self.balances.insert(owner, balance - 1);
        self.owners.remove(&token_id);
        self.nonce = if self.nonce == u64::MAX {
            0
        } else {
            self.nonce + 1
        };
        self.owned.remove(&owner, token_id);
        self.events.push(Event::Transfer(Some(owner), None, token_id));
        assert(self@.uris =~= old(self)@.uris.remove(token_id));
        Ok(())
    }

    fn _clear_approval(&mut self, token_id: TokenId) -> (r: Result<(), Error>) {
        self.approvals.remove(&token_id);
        proof {
            if old(self)@.inv() {
                lemma_same_holdings_inv(old(self)@, self@);
            }
        }
        Ok(())
    }
}

/// A ledger that keeps its records in ordered maps. Its records agree with
/// each other at all times: whatever was done to a ledger, its view
/// satisfies `LedgerState::inv`. So its operations promise more than the
/// trait asks: a living token can always be burned, and its owner can
/// always send it to another account.
pub struct TokenLedger {
    records: Records,
}

impl View for TokenLedger {
    type V = LedgerState;

    closed spec fn view(&self) -> LedgerState {
        self.records@
    }
}

impl TokenLedger {
    #[verifier::type_invariant]
    spec fn consistent(self) -> bool {
        self.records@.inv()
    }

    /// An empty ledger whose supply and balances may grow up to the largest
    /// number there is.
    pub fn new() -> (ledger: Self)
        ensures
            ledger@ == LedgerState::fresh(u64::MAX),
            ledger@.inv(),
    {
        Self::with_id_bound(u64::MAX)
    }

    /// An empty ledger whose supply and balances may grow up to `id_bound`:
    /// it hands out the ids below `id_bound`.
    pub fn with_id_bound(id_bound: TokenId) -> (ledger: Self)
        ensures
            ledger@ == LedgerState::fresh(id_bound),
            ledger@.inv(),
    {
        proof {
            lemma_fresh_inv(id_bound);
        }
        TokenLedger { records: Records::new(id_bound) }
    }

    /// Takes the records out to work on them, and leaves empty ones behind.
    fn open(&mut self) -> (records: Records)
        ensures
            records@ == old(self)@,
            records@.inv(),
    {
        proof {
            use_type_invariant(&*self);
            lemma_fresh_inv(0);
        }
        let mut records = Records::new(0);
        std::mem::swap(&mut records, &mut self.records);
        records
    }

    /// Puts the records back.
    fn close(&mut self, records: Records)
        requires
            records@.inv(),
        ensures
            final(self)@ == records@,
    {
        self.records = records;
    }

    /// How many tokens `who` holds: as many as it owns, and as its list has.
    pub fn balance_of(&self, who: &AccountId) -> (balance: TokenId)
        ensures
            self@.inv(),
            balance == self@.balance_of(*who),
            balance == self@.tokens_of(*who).len(),
            balance == self@.owned_by(*who).len(),
    {
        proof {
            use_type_invariant(self);
            lemma_balance_counts_owned(self@, *who);
        }
        self.records.balance_of(who)
    }

    /// The owner of token `token_id`, if it lives.
    pub fn owner_of(&self, token_id: TokenId) -> (owner: Option<AccountId>)
        ensures
            self@.inv(),
            owner == self@.owner_of(token_id),
    {
        proof {
            use_type_invariant(self);
        }
        self.records.owner_of(token_id)
    }

    /// The delegate of token `token_id`, if it has one.
    pub fn get_approved(&self, token_id: &TokenId) -> (delegate: Option<AccountId>)
        ensures
            delegate == self@.get_approved(*token_id),
    {
        match self.records.approvals.get(token_id) {
            Some(delegate) => Some(*delegate),
            None => None,
        }
    }

    /// Whether the second account may act for all tokens of the first.
    pub fn is_approved_for_all(&self, pair: (AccountId, AccountId)) -> (on: bool)
        ensures
            on == self@.is_approved_for_all(pair.0, pair.1),
    {
        match self.records.operators.get(&pair) {
            Some(on) => *on,
            None => false,
        }
    }

    /// Whether `caller` may move token `token_id`: it is the owner, the
    /// token's delegate, or an operator of the owner. `transfer_from` does
    /// not ask this; whoever calls it does.
    pub fn may_transfer(&self, caller: &AccountId, token_id: TokenId) -> (allowed: bool)
        ensures
            allowed == self@.may_transfer(*caller, token_id),
    {
        match self.records.owner_of(token_id) {
            Some(owner) => {
                if owner == *caller {
                    return true;
                }
                match self.get_approved(&token_id) {
                    Some(delegate) => {
                        if delegate == *caller {
                            return true;
                        }
                    },
                    None => {},
                }
                self.is_approved_for_all((owner, *caller))
            },
            None => false,
        }
    }

    /// How many tokens live.
    pub fn total_supply(&self) -> (supply: TokenId)
        ensures
            self@.inv(),
            supply == self@.total_supply,
            supply == self@.living().len(),
    {
        proof {
            use_type_invariant(self);
            lemma_supply_counts_living(self@);
        }
        self.records.total_supply
    }

    /// The largest value that the supply and a balance may take.
    pub fn id_bound(&self) -> (bound: TokenId)
        ensures
            bound == self@.id_bound,
    {
        self.records.id_bound
    }

    /// How many issues and burns there were.
    pub fn nonce(&self) -> (nonce: u64)
        ensures
            nonce == self@.nonce,
    {
        self.records.nonce
    }

    /// The payload of token `token_id`; empty if it has none.
    pub fn token_uri(&self, token_id: TokenId) -> (uri: Vec<u8>)
        ensures
            uri@ == self@.token_uri(token_id),
    {
        match self.records.uris.get(&token_id) {
            Some(stored) => {
                let mut uri: Vec<u8> = Vec::new();
                let mut i: usize = 0;
                while i < stored.len()
                    invariant
                        i <= stored.len(),
                        uri@ == stored@.subrange(0, i as int),
                    decreases stored.len() - i,
                {
                    uri.push(stored[i]);
                    i += 1;
                    assert(uri@ =~= stored@.subrange(0, i as int));
                }
                assert(uri@ =~= stored@);
                uri
            },
            None => Vec::new(),
        }
    }

    /// The tokens of `who`, in the order in which it came to hold them: no
    /// token twice, and exactly the tokens that `who` owns.
    pub fn tokens_of(&self, who: &AccountId) -> (ids: Vec<TokenId>)
        ensures
            self@.inv(),
            ids@ == self@.tokens_of(*who),
            ids@.no_duplicates(),
            forall|id: TokenId| #[trigger] ids@.contains(id) <==> self@.owner_of(id) == Some(*who),
    {
        proof {
            use_type_invariant(self);
            lemma_list_holds_own_tokens(self@, *who);
        }
        self.records.owned.iterate(who)
    }

    /// The node of the per-owner lists that is stored under `key`.
    pub fn owned_item(&self, key: &NodeKey) -> (item: Option<LinkedItem>)
        ensures
            item == if self@.owned.contains_key(*key) {
                Some(self@.owned[*key])
            } else {
                None::<LinkedItem>
            },
    {
        self.records.owned.get(key)
    }

    /// Hands out the events that happened since the last call, oldest first, and
    /// forgets them.
    pub fn take_events(&mut self) -> (events: Vec<Event>)
        ensures
            events@ == old(self)@.events,
            final(self)@ == (LedgerState { events: Seq::empty(), ..old(self)@ }),
            old(self)@.inv(),
            final(self)@.inv(),
    {
        let mut records = self.open();
        let events = records.take_events();
        self.close(records);
        events
    }
}

impl NFTS for TokenLedger {
    fn transfer_from(&mut self, from: AccountId, to: AccountId, token_id: TokenId) -> (r: Result<
        (),
        Error,
    >)
        ensures
            old(self)@.inv(),
            final(self)@.inv(),
            to != from ==> (r is Ok <==> old(self)@.owner_of(token_id) == Some(from)),
            r != Err::<(), Error>(Error::BalanceUnderflow),
    {
        let mut records = self.open();
        proof {
            lemma_consistent_outcomes(records@, from, to, token_id);
        }
        let r = records.transfer_from(from, to, token_id);
        self.close(records);
        r
    }

    fn _approve(&mut self, origin: AccountId, to: AccountId, token_id: TokenId) -> (r: Result<
        (),
        Error,
    >)
        ensures
            old(self)@.inv(),
            final(self)@.inv(),
    {
        let mut records = self.open();
        let r = records._approve(origin, to, token_id);
        self.close(records);
        r
    }

    fn _set_approval_for_all(&mut self, origin: AccountId, to: AccountId, approved: bool) -> (r:
        Result<(), Error>)
        ensures
            old(self)@.inv(),
            final(self)@.inv(),
    {
        let mut records = self.open();
        let r = records._set_approval_for_all(origin, to, approved);
        self.close(records);
        r
    }

    fn _issue_with_uri(&mut self, who: &AccountId, uri: Vec<u8>) -> (r: Result<TokenId, Error>)
        ensures
            old(self)@.inv(),
            final(self)@.inv(),
            r is Ok <==> old(self)@.total_supply < old(self)@.id_bound && old(self)@.owner_of(
                old(self)@.total_supply,
            ) is None,
            r is Ok ==> final(self)@.get_approved(old(self)@.total_supply) is None,
    {
        let mut records = self.open();
        proof {
            lemma_consistent_outcomes(records@, *who, *who, 0);
        }
        let r = records._issue_with_uri(who, uri);
        self.close(records);
        r
    }

    fn _burn(&mut self, token_id: TokenId) -> (r: Result<(), Error>)
        ensures
            old(self)@.inv(),
            final(self)@.inv(),
            r is Ok <==> old(self)@.owner_of(token_id) is Some,
    {
        let mut records = self.open();
        proof {
            lemma_consistent_outcomes(records@, 0, 0, token_id);
        }
        let r = records._burn(token_id);
        self.close(records);
        r
    }

    fn _clear_approval(&mut self, token_id: TokenId) -> (r: Result<(), Error>)
        ensures
            old(self)@.inv(),
            final(self)@.inv(),
    {
        let mut records = self.open();
        let r = records._clear_approval(token_id);
        self.close(records);
        r
    }
}

} // verus!
