//! What holds of every ledger that the operations can reach.

use crate::linked_item::{linked, remove_nodes, tokens, without};
use crate::linked_laws::{
    lemma_append_then_remove, lemma_append_well_linked, lemma_empty_well_linked,
    lemma_remove_well_linked,
};
use crate::state::{burned_list, issued_list, moved_list, LedgerState};
use crate::types::{AccountId, Error, TokenId};
use vstd::prelude::*;

verus! {

/// What is left of a list without duplicates when one token is taken out:
/// every other token, and not that one.
proof fn lemma_remove_contains(s: Seq<TokenId>, id: TokenId)
    requires
        s.no_duplicates(),
        s.contains(id),
    ensures
        without(s, id).len() == s.len() - 1,
        forall|t: TokenId| #[trigger] without(s, id).contains(t) <==> s.contains(t) && t != id,
{
    let k = s.index_of(id);
    let r = s.remove(k);
    s.remove_ensures(k);
    assert forall|t: TokenId| #[trigger] r.contains(t) <==> s.contains(t) && t != id by {
        if r.contains(t) {
            let j = r.index_of(t);
            if j < k {
                assert(s[j] == t);
            } else {
                assert(s[j + 1] == t);
            }
        }
        if s.contains(t) && t != id {
            let i = s.index_of(t);
            if i < k {
                assert(r[i] == t);
            } else {
                assert(r[i - 1] == t);
            }
        }
    }
}

/// What a list holds after one more token: that token and all it held.
proof fn lemma_push_contains(s: Seq<TokenId>, id: TokenId)
    ensures
        forall|t: TokenId| #[trigger] s.push(id).contains(t) <==> s.contains(t) || t == id,
{
    let p = s.push(id);
    assert forall|t: TokenId| #[trigger] p.contains(t) <==> s.contains(t) || t == id by {
        if p.contains(t) {
            let j = p.index_of(t);
            if j < s.len() {
                assert(s[j] == t);
            }
        }
        if s.contains(t) {
            let i = s.index_of(t);
            assert(p[i] == t);
        }
        if t == id {
            assert(p[s.len() as int] == t);
        }
    }
}

/// Consistency speaks of owners, balances, supply, lists and of which
/// tokens have a delegate: operators, payloads, the counter and the events
/// do not matter to it, nor who the delegate of a living token is.
pub proof fn lemma_same_holdings_inv(s: LedgerState, after: LedgerState)
    requires
        s.inv(),
        after.owners == s.owners,
        after.balances == s.balances,
        after.total_supply == s.total_supply,
        after.owned == s.owned,
        after.id_bound == s.id_bound,
        forall|id: TokenId| #[trigger]
            after.approvals.contains_key(id) ==> after.owners.contains_key(id),
    ensures
        after.inv(),
{
    assert forall|a: AccountId, t: TokenId| #[trigger]
        tokens(after.owned, a).contains(t) implies after.owner_of(t) == Some(a) by {
        assert(s.owner_of(t) == Some(a));
    }
    assert forall|a: AccountId| #[trigger]
        after.balance_of(a) == tokens(after.owned, a).len() by {
        assert(s.balance_of(a) == tokens(s.owned, a).len());
    }
}

/// A ledger in which nothing has happened is consistent.
pub proof fn lemma_fresh_inv(id_bound: TokenId)
    ensures
        LedgerState::fresh(id_bound).inv(),
{
    lemma_empty_well_linked();
}

/// Issuing a token keeps the ledger consistent, and puts the token last in
/// the owner's list. The new token has no delegate.
pub proof fn lemma_issue_inv(s: LedgerState, who: AccountId, uri: Seq<u8>)
    requires
        s.inv(),
        s.issue_outcome(who) is Ok,
    ensures
        s.issued(who, uri).inv(),
        s.issued(who, uri).get_approved(s.total_supply) is None,
        forall|a: AccountId| #[trigger] s.issued(who, uri).tokens_of(a) == issued_list(s, who, a),
{
    let id = s.total_supply;
    let after = s.issued(who, uri);
    assert(!tokens(s.owned, who).contains(id));
    lemma_append_well_linked(s.owned, who, id);
    lemma_push_contains(tokens(s.owned, who), id);
    assert forall|a: AccountId, t: TokenId| #[trigger]
        tokens(after.owned, a).contains(t) implies after.owner_of(t) == Some(a) by {
        if a == who {
            if t != id {
                assert(tokens(s.owned, who).contains(t));
            }
        } else {
            assert(tokens(after.owned, a) == tokens(s.owned, a));
            assert(tokens(s.owned, a).contains(t));
        }
    }
    assert forall|t: TokenId| #[trigger] after.owners.contains_key(t) implies tokens(
        after.owned,
        after.owners[t],
    ).contains(t) by {
        if t != id {
            let a = s.owners[t];
            assert(tokens(s.owned, a).contains(t));
            if a != who {
                assert(tokens(after.owned, a) == tokens(s.owned, a));
            }
        }
    }
    assert forall|a: AccountId| #[trigger]
        after.balance_of(a) == tokens(after.owned, a).len() by {
        assert(s.balance_of(a) == tokens(s.owned, a).len());
        if a != who {
            assert(tokens(after.owned, a) == tokens(s.owned, a));
        }
    }
}

/// Burning a token keeps the ledger consistent, and takes the token out of
/// the owner's list.
pub proof fn lemma_burn_inv(s: LedgerState, id: TokenId)
    requires
        s.inv(),
        s.burn_outcome(id) is Ok,
    ensures
        s.burned(id).inv(),
        forall|a: AccountId| #[trigger] s.burned(id).tokens_of(a) == burned_list(s, id, a),
{
    let owner = s.owners[id];
    let after = s.burned(id);
    let list = tokens(s.owned, owner);
    assert(list.contains(id));
    lemma_remove_well_linked(s.owned, owner, id);
    lemma_remove_contains(list, id);
    assert forall|a: AccountId, t: TokenId| #[trigger]
        tokens(after.owned, a).contains(t) implies after.owner_of(t) == Some(a) by {
        if a == owner {
            assert(list.contains(t) && t != id);
        } else {
            assert(tokens(after.owned, a) == tokens(s.owned, a));
            assert(tokens(s.owned, a).contains(t));
        }
    }
    assert forall|t: TokenId| #[trigger] after.owners.contains_key(t) implies tokens(
        after.owned,
        after.owners[t],
    ).contains(t) by {
        let a = s.owners[t];
        assert(tokens(s.owned, a).contains(t));
        if a != owner {
            assert(tokens(after.owned, a) == tokens(s.owned, a));
        }
    }
    assert forall|a: AccountId| #[trigger]
        after.balance_of(a) == tokens(after.owned, a).len() by {
        assert(s.balance_of(a) == tokens(s.owned, a).len());
        if a != owner {
            assert(tokens(after.owned, a) == tokens(s.owned, a));
        }
    }
}

/// Moving a token keeps the ledger consistent, and moves it between the
/// two lists.
pub proof fn lemma_transfer_inv(s: LedgerState, from: AccountId, to: AccountId, id: TokenId)
    requires
        s.inv(),
        s.transfer_outcome(from, to, id) is Ok,
    ensures
        s.transferred(from, to, id).inv(),
        forall|a: AccountId| #[trigger]
            s.transferred(from, to, id).tokens_of(a) == moved_list(s, from, to, id, a),
{
    let after = s.transferred(from, to, id);
    let list = tokens(s.owned, from);
    let m1 = remove_nodes(s.owned, from, id);
    assert(list.contains(id));
    lemma_remove_well_linked(s.owned, from, id);
    lemma_remove_contains(list, id);
    assert(!tokens(m1, to).contains(id)) by {
        if to != from {
            assert(tokens(m1, to) == tokens(s.owned, to));
            if tokens(s.owned, to).contains(id) {
                assert(s.owner_of(id) == Some(to));
            }
        }
    }
    lemma_append_well_linked(m1, to, id);
    lemma_push_contains(tokens(m1, to), id);
    assert(after.owners.dom() =~= s.owners.dom());
    assert forall|a: AccountId| a != from && a != to implies #[trigger] tokens(after.owned, a)
        == tokens(s.owned, a) by {
        assert(tokens(after.owned, a) == tokens(m1, a));
        assert(tokens(m1, a) == tokens(s.owned, a));
    }
    if from != to {
        assert(tokens(after.owned, from) == tokens(m1, from));
    }
    assert forall|a: AccountId, t: TokenId| #[trigger]
        tokens(after.owned, a).contains(t) implies after.owner_of(t) == Some(a) by {
        if a == to {
            if t != id {
                assert(tokens(m1, to).contains(t));
                if to == from {
                    assert(list.contains(t));
                } else {
                    assert(tokens(s.owned, to).contains(t));
                }
            }
        } else if a == from {
            assert(list.contains(t) && t != id);
        } else {
            assert(tokens(s.owned, a).contains(t));
        }
    }
    assert forall|t: TokenId| #[trigger] after.owners.contains_key(t) implies tokens(
        after.owned,
        after.owners[t],
    ).contains(t) by {
        if t != id {
            let a = s.owners[t];
            assert(tokens(s.owned, a).contains(t));
            if a == to {
                if to != from {
                    assert(tokens(m1, to) == tokens(s.owned, to));
                }
                assert(tokens(m1, to).contains(t));
            }
        }
    }
    assert forall|a: AccountId| #[trigger]
        after.balance_of(a) == tokens(after.owned, a).len() by {
        assert(s.balance_of(a) == tokens(s.owned, a).len());
        assert(s.balance_of(from) == tokens(s.owned, from).len());
        assert(s.balance_of(to) == tokens(s.owned, to).len());
        if to != from {
            assert(tokens(m1, to) == tokens(s.owned, to));
        }
    }
}

/// In a consistent ledger an account's balance is the number of tokens
/// that it owns, and the length of its list.
pub proof fn lemma_balance_counts_owned(s: LedgerState, who: AccountId)
    requires
        s.inv(),
    ensures
        s.owned_by(who).finite(),
        s.balance_of(who) == s.owned_by(who).len(),
        s.balance_of(who) == s.tokens_of(who).len(),
{
    let list = s.tokens_of(who);
    assert(linked(s.owned, who, list));
    assert(list.to_set() =~= s.owned_by(who)) by {
        assert forall|t: TokenId| list.to_set().contains(t) == s.owned_by(who).contains(t) by {
            if list.contains(t) {
                assert(s.owner_of(t) == Some(who));
            }
            if s.owner_of(t) == Some(who) {
                assert(s.owners.contains_key(t));
                assert(tokens(s.owned, s.owners[t]).contains(t));
            }
        }
    }
    list.unique_seq_to_set();
    vstd::seq_lib::seq_to_set_is_finite(list);
}

/// In a consistent ledger the total supply is the number of living tokens.
pub proof fn lemma_supply_counts_living(s: LedgerState)
    requires
        s.inv(),
    ensures
        s.living().finite(),
        s.total_supply == s.living().len(),
{
    assert(s.living() =~= s.owners.dom());
}

/// In a consistent ledger an account's list holds no token twice, and holds
/// exactly the tokens that the account owns.
pub proof fn lemma_list_holds_own_tokens(s: LedgerState, who: AccountId)
    requires
        s.inv(),
    ensures
        s.tokens_of(who).no_duplicates(),
        forall|id: TokenId| #[trigger]
            s.tokens_of(who).contains(id) <==> s.owner_of(id) == Some(who),
{
    let list = s.tokens_of(who);
    assert(linked(s.owned, who, list));
    assert forall|id: TokenId| #[trigger] list.contains(id) <==> s.owner_of(id) == Some(who) by {
        if s.owner_of(id) == Some(who) {
            assert(s.owners.contains_key(id));
            assert(tokens(s.owned, s.owners[id]).contains(id));
        }
    }
}

/// A token that was just issued can be burned, and burning it brings the
/// total supply and the owner's balance back to what they were; in a
/// consistent ledger also the owner's list.
pub proof fn lemma_issue_then_burn(s: LedgerState, who: AccountId, uri: Seq<u8>)
    requires
        s.issue_outcome(who) is Ok,
    ensures
        s.issued(who, uri).burn_outcome(s.total_supply) is Ok,
        s.issued(who, uri).burned(s.total_supply).total_supply == s.total_supply,
        s.issued(who, uri).burned(s.total_supply).balance_of(who) == s.balance_of(who),
        s.issued(who, uri).burned(s.total_supply).owners == s.owners,
        s.inv() ==> s.issued(who, uri).burned(s.total_supply).tokens_of(who) == s.tokens_of(who),
{
    let id = s.total_supply;
    let back = s.issued(who, uri).burned(id);
    assert(back.owners =~= s.owners);
    if s.inv() {
        assert(linked(s.owned, who, tokens(s.owned, who)));
        lemma_append_then_remove(s.owned, who, id, tokens(s.owned, who));
    }
}

/// In a consistent ledger the checked arithmetic does not stand in the
/// way: a token can be burned exactly if it lives, its owner can send it to
/// any other account, and a token can be issued exactly if the id counter
/// is below the bound and the next id is free.
pub proof fn lemma_consistent_outcomes(s: LedgerState, who: AccountId, to: AccountId, id: TokenId)
    requires
        s.inv(),
    ensures
        s.burn_outcome(id) is Ok <==> s.owner_of(id) is Some,
        to != who ==> (s.transfer_outcome(who, to, id) is Ok <==> s.owner_of(id) == Some(who)),
        s.transfer_outcome(who, to, id) != Err::<(), Error>(Error::BalanceUnderflow),
        s.issue_outcome(who) is Ok <==> s.total_supply < s.id_bound && s.owner_of(s.total_supply)
            is None,
{
    lemma_balance_counts_owned(s, who);
    lemma_balance_counts_owned(s, to);
    lemma_supply_counts_living(s);
    assert(s.living() =~= s.owners.dom());
    vstd::set_lib::lemma_len_subset(s.owned_by(who), s.owners.dom());
    if s.owner_of(id) is Some {
        let owner = s.owners[id];
        lemma_balance_counts_owned(s, owner);
        assert(tokens(s.owned, owner).contains(id));
    }
    if s.owner_of(id) == Some(who) && to != who {
        assert(s.owned_by(who).disjoint(s.owned_by(to)));
        vstd::set_lib::lemma_set_disjoint_lens(s.owned_by(who), s.owned_by(to));
        vstd::set_lib::lemma_len_subset(s.owned_by(who) + s.owned_by(to), s.owners.dom());
    }
}

} // verus!
