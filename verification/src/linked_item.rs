//! The per-owner enumeration of tokens: a doubly linked list that lives in a
//! flat map. Under the key `(owner, Some(id))` stands the node of a token,
//! under `(owner, None)` the owner's anchor, whose `next` is the first token
//! and whose `prev` is the last one.

use crate::linked_laws::{
    lemma_append_well_linked, lemma_empty_well_linked, lemma_remove_absent,
    lemma_remove_well_linked,
};
use crate::types::{AccountId, TokenId};
use std::collections::BTreeMap;
use vstd::prelude::*;

verus! {

broadcast use {vstd::std_specs::btree::group_btree_axioms, vstd::laws_cmp::group_laws_cmp};

/// One node of a list: the neighbours of a token, or of the anchor.
#[derive(Clone, Copy, Debug, PartialEq, Eq)]
pub struct LinkedItem {
    pub prev: Option<TokenId>,
    pub next: Option<TokenId>,
}

/// The key of a node: the owner, and the token or `None` for the anchor.
pub type NodeKey = (AccountId, Option<TokenId>);

/// All nodes of all owners.
pub type Nodes = Map<NodeKey, LinkedItem>;

/// The node under `(owner, at)`; a missing node reads as one without neighbours.
pub open spec fn read(m: Nodes, owner: AccountId, at: Option<TokenId>) -> LinkedItem {
    if m.contains_key((owner, at)) {
        m[(owner, at)]
    } else {
        LinkedItem { prev: None, next: None }
    }
}

/// The nodes after `id` was linked in behind the owner's last token.
pub open spec fn append_nodes(m: Nodes, owner: AccountId, id: TokenId) -> Nodes {
    let head = read(m, owner, None);
    let m1 = m.insert((owner, None), LinkedItem { prev: Some(id), next: head.next });
    let last = read(m1, owner, head.prev);
    let m2 = m1.insert((owner, head.prev), LinkedItem { prev: last.prev, next: Some(id) });
    m2.insert((owner, Some(id)), LinkedItem { prev: head.prev, next: None })
}

/// The nodes after `id` was unlinked from the owner's list. Without a node
/// for `id` nothing changes.
pub open spec fn remove_nodes(m: Nodes, owner: AccountId, id: TokenId) -> Nodes {
    if m.contains_key((owner, Some(id))) {
        let item = m[(owner, Some(id))];
        let m0 = m.remove((owner, Some(id)));
        let before = read(m0, owner, item.prev);
        let m1 = m0.insert((owner, item.prev), LinkedItem { prev: before.prev, next: item.next });
        let after = read(m1, owner, item.next);
        m1.insert((owner, item.next), LinkedItem { prev: item.prev, next: after.next })
    } else {
        m
    }
}

/// The tokens met from `cur` on by following `next`, at most `fuel` of them.
pub open spec fn walk(m: Nodes, owner: AccountId, cur: Option<TokenId>, fuel: nat) -> Seq<TokenId>
    decreases fuel,
{
    match cur {
        Some(t) => if fuel == 0 {
            Seq::empty()
        } else {
            seq![t] + walk(m, owner, read(m, owner, Some(t)).next, (fuel - 1) as nat)
        },
        None => Seq::empty(),
    }
}

/// The owner's tokens in list order: the walk from the anchor. No walk
/// through distinct nodes is longer than the map, which bounds it.
pub open spec fn tokens(m: Nodes, owner: AccountId) -> Seq<TokenId> {
    walk(m, owner, read(m, owner, None).next, m.len())
}

/// The list without the token `id`, the others in their order.
pub open spec fn without(list: Seq<TokenId>, id: TokenId) -> Seq<TokenId> {
    if list.contains(id) {
        list.remove(list.index_of(id))
    } else {
        list
    }
}

/// The `i`-th token of `s`, or `None` outside of it.
pub open spec fn at(s: Seq<TokenId>, i: int) -> Option<TokenId> {
    if 0 <= i < s.len() {
        Some(s[i])
    } else {
        None
    }
}

/// The owner's nodes form exactly the list `s`: no token twice, a node for
/// each token of `s` and for no other, the anchor pointing at both ends, and
/// each node pointing at its neighbours in `s`.
pub open spec fn linked(m: Nodes, owner: AccountId, s: Seq<TokenId>) -> bool {
    &&& s.no_duplicates()
    &&& forall|t: TokenId| #![trigger m.contains_key((owner, Some(t)))]
        m.contains_key((owner, Some(t))) <==> s.contains(t)
    &&& read(m, owner, None) == LinkedItem { prev: at(s, s.len() - 1), next: at(s, 0) }
    &&& forall|i: int| #![trigger s[i]]
        0 <= i < s.len() ==> m[(owner, Some(s[i]))] == LinkedItem {
            prev: at(s, i - 1),
            next: at(s, i + 1),
        }
}

/// Every owner's nodes form a list, and the walk from the owner's anchor
/// yields it.
pub open spec fn well_linked(m: Nodes) -> bool {
    &&& m.dom().finite()
    &&& forall|owner: AccountId| linked(m, owner, #[trigger] tokens(m, owner))
}

/// The lists of all owners, held in one ordered map.
pub struct LinkedList {
    map: BTreeMap<NodeKey, LinkedItem>,
}

impl View for LinkedList {
    type V = Nodes;

    closed spec fn view(&self) -> Nodes {
        self.map@
    }
}

impl LinkedList {
    /// A store without any node: every owner's list is empty.
    pub fn new() -> (list: Self)
        ensures
            list@ == Map::<NodeKey, LinkedItem>::empty(),
            well_linked(list@),
            forall|owner: AccountId| #[trigger] tokens(list@, owner) == Seq::<TokenId>::empty(),
    {
        proof {
            lemma_empty_well_linked();
        }
        LinkedList { map: BTreeMap::new() }
    }

    /// The node stored under `key`, if there is one.
    pub fn get(&self, key: &NodeKey) -> (item: Option<LinkedItem>)
        ensures
            item == if self@.contains_key(*key) {
                Some(self@[*key])
            } else {
                None::<LinkedItem>
            },
    {
        match self.map.get(key) {
            Some(item) => Some(*item),
            None => None,
        }
    }

    fn read(&self, owner: &AccountId, at: Option<TokenId>) -> (item: LinkedItem)
        ensures
            item == read(self@, *owner, at),
    {
        match self.get(&(*owner, at)) {
            Some(item) => item,
            None => LinkedItem { prev: None, next: None },
        }
    }

    fn write(&mut self, owner: &AccountId, at: Option<TokenId>, item: LinkedItem)
        ensures
            final(self)@ == old(self)@.insert((*owner, at), item),
    {
        self.map.insert((*owner, at), item);
    }

    /// Whether `id` has a node in the owner's list.
    pub fn contains(&self, owner: &AccountId, id: TokenId) -> (found: bool)
        ensures
            found == self@.contains_key((*owner, Some(id))),
    {
        self.get(&(*owner, Some(id))).is_some()
    }

    /// The owner's first token, if it has one. With `next` this walks a list
    /// token by token.
    pub fn first(&self, owner: &AccountId) -> (id: Option<TokenId>)
        ensures
            id == read(self@, *owner, None).next,
            well_linked(self@) ==> id == at(tokens(self@, *owner), 0),
    {
        proof {
            if well_linked(self@) {
                assert(linked(self@, *owner, tokens(self@, *owner)));
            }
        }
        self.read(owner, None).next
    }

    /// The token behind `id` in the owner's list, if there is one.
    pub fn next(&self, owner: &AccountId, id: TokenId) -> (following: Option<TokenId>)
        ensures
            following == read(self@, *owner, Some(id)).next,
            well_linked(self@) && tokens(self@, *owner).contains(id) ==> following == at(
                tokens(self@, *owner),
                tokens(self@, *owner).index_of(id) + 1,
            ),
    {
        proof {
            if well_linked(self@) && tokens(self@, *owner).contains(id) {
                let list = tokens(self@, *owner);
                assert(linked(self@, *owner, list));
                assert(list[list.index_of(id)] == id);
            }
        }
        self.read(owner, Some(id)).next
    }

    /// The owner's tokens, first to last. The walk ends at the last token, or
    /// after as many steps as the store has nodes, so it ends in any store.
    pub fn iterate(&self, owner: &AccountId) -> (ids: Vec<TokenId>)
        ensures
            ids@ == tokens(self@, *owner),
            well_linked(self@) ==> ids@.no_duplicates(),
    {
        proof {
            if well_linked(self@) {
                assert(linked(self@, *owner, tokens(self@, *owner)));
            }
        }
        let limit: usize = self.map.len();
        let first = self.first(owner);
        let mut ids: Vec<TokenId> = Vec::new();
        let mut cur = first;
        let mut steps: usize = 0;
        while steps < limit && cur.is_some()
            invariant
                steps <= limit,
                limit == self@.len(),
                ids@ + walk(self@, *owner, cur, (limit - steps) as nat) == walk(
                    self@,
                    *owner,
                    first,
                    limit as nat,
                ),
            decreases limit - steps,
        {
            let id = cur.unwrap();
            let ghost before = ids@;
            ids.push(id);
            cur = self.next(owner, id);
            steps += 1;
            assert(ids@ + walk(self@, *owner, cur, (limit - steps) as nat) =~= before + (seq![id]
                + walk(self@, *owner, cur, (limit - steps) as nat)));
        }
        assert(walk(self@, *owner, cur, (limit - steps) as nat) =~= Seq::<TokenId>::empty());
        assert(ids@ + Seq::<TokenId>::empty() =~= ids@);
        ids
    }

    /// Links `value` in as the owner's last token. Where the lists are well
    /// linked and the owner's list does not hold `value` yet, `value` comes
    /// behind its last token and no other list changes. A second node for a
    /// token that the list holds already would break the list.
    pub fn append(&mut self, owner: &AccountId, value: TokenId)
        ensures
            final(self)@ == append_nodes(old(self)@, *owner, value),
            well_linked(old(self)@) && !tokens(old(self)@, *owner).contains(value) ==> {
                &&& well_linked(final(self)@)
                &&& tokens(final(self)@, *owner) == tokens(old(self)@, *owner).push(value)
                &&& forall|other: AccountId|
                    other != *owner ==> #[trigger] tokens(final(self)@, other) == tokens(
                        old(self)@,
                        other,
                    )
            },
    {
        proof {
            if well_linked(old(self)@) && !tokens(old(self)@, *owner).contains(value) {
                lemma_append_well_linked(old(self)@, *owner, value);
            }
        }
        let head = self.read(owner, None);
        self.write(owner, None, LinkedItem { prev: Some(value), next: head.next });
        let last = self.read(owner, head.prev);
        self.write(owner, head.prev, LinkedItem { prev: last.prev, next: Some(value) });
        self.write(owner, Some(value), LinkedItem { prev: head.prev, next: None });
    }

    /// Unlinks `value` from the owner's list, and says whether it had a node
    /// there; without one nothing changes. Where the lists are well linked,
    /// `value` leaves the owner's list, the other tokens keep their order,
    /// and no other list changes.
    pub fn remove(&mut self, owner: &AccountId, value: TokenId) -> (found: bool)
        ensures
            found == old(self)@.contains_key((*owner, Some(value))),
            final(self)@ == remove_nodes(old(self)@, *owner, value),
            !found ==> final(self)@ == old(self)@,
            well_linked(old(self)@) ==> {
                &&& well_linked(final(self)@)
                &&& found == tokens(old(self)@, *owner).contains(value)
                &&& tokens(final(self)@, *owner) == without(tokens(old(self)@, *owner), value)
                &&& forall|other: AccountId|
                    other != *owner ==> #[trigger] tokens(final(self)@, other) == tokens(
                        old(self)@,
                        other,
                    )
            },
    {
        proof {
            if well_linked(old(self)@) {
                assert(linked(old(self)@, *owner, tokens(old(self)@, *owner)));
                if tokens(old(self)@, *owner).contains(value) {
                    lemma_remove_well_linked(old(self)@, *owner, value);
                } else {
                    lemma_remove_absent(old(self)@, *owner, value, tokens(old(self)@, *owner));
                }
            }
        }
        let key = (*owner, Some(value));
        match self.map.remove(&key) {
            Some(item) => {
                let before = self.read(owner, item.prev);
                self.write(owner, item.prev, LinkedItem { prev: before.prev, next: item.next });
                let after = self.read(owner, item.next);
                self.write(owner, item.next, LinkedItem { prev: item.prev, next: after.next });
                true
            },
            None => false,
        }
    }
}

} // verus!
