//! What linking and unlinking do to an owner's list, read as a sequence.

use crate::linked_item::{
    append_nodes, at, linked, read, remove_nodes, tokens, walk, well_linked, without, LinkedItem,
    NodeKey, Nodes,
};
use crate::types::{AccountId, TokenId};
use vstd::prelude::*;

verus! {

/// Without any node every owner's list is the empty one.
pub proof fn lemma_empty_linked(owner: AccountId)
    ensures
        linked(Map::<NodeKey, LinkedItem>::empty(), owner, Seq::<TokenId>::empty()),
{
}

/// Appending a token that the list does not hold puts it behind the last one.
pub proof fn lemma_append_linked(m: Nodes, owner: AccountId, id: TokenId, s: Seq<TokenId>)
    requires
        linked(m, owner, s),
        !s.contains(id),
    ensures
        linked(append_nodes(m, owner, id), owner, s.push(id)),
{
    let m3 = append_nodes(m, owner, id);
    let s3 = s.push(id);
    let n = s.len() as int;
    assert(s3.no_duplicates());
    assert forall|t: TokenId| #![trigger m3.contains_key((owner, Some(t)))]
        m3.contains_key((owner, Some(t))) <==> s3.contains(t) by {
        if s.contains(t) {
            let i = s.index_of(t);
            assert(s3[i] == t);
        }
        if t == id {
            assert(s3[n] == t);
        }
    }
    if n > 0 {
        assert(s.contains(s[n - 1]));
    }
    assert forall|i: int| #![trigger s3[i]] 0 <= i < s3.len() implies m3[(owner, Some(s3[i]))]
        == (LinkedItem { prev: at(s3, i - 1), next: at(s3, i + 1) }) by {
        if i < n {
            assert(s3[i] == s[i]);
            assert(s.contains(s[i]));
            if i + 1 < n {
                assert(s3[i + 1] == s[i + 1]);
            }
            if i > 0 {
                assert(s3[i - 1] == s[i - 1]);
            }
        }
    }
}

/// Removing a token of the list takes it out and keeps the order of the rest.
pub proof fn lemma_remove_linked(m: Nodes, owner: AccountId, id: TokenId, s: Seq<TokenId>)
    requires
        linked(m, owner, s),
        s.contains(id),
    ensures
        linked(remove_nodes(m, owner, id), owner, s.remove(s.index_of(id))),
{
    let k = s.index_of(id);
    let n = s.len() as int;
    let m2 = remove_nodes(m, owner, id);
    let s2 = s.remove(k);
    s.remove_ensures(k);
    assert(s[k] == id);
    assert(m.contains_key((owner, Some(id))));
    assert(m[(owner, Some(s[k]))] == (LinkedItem { prev: at(s, k - 1), next: at(s, k + 1) }));
    assert forall|j: int| 0 <= j < n - 1 implies s2[j] == (if j < k { s[j] } else { s[j + 1] }) by {}
    assert(s2.no_duplicates());
    if k > 0 {
        assert(s.contains(s[k - 1]));
        assert(s[k - 1] != id);
    }
    if k + 1 < n {
        assert(s.contains(s[k + 1]));
        assert(s[k + 1] != id);
    }
    assert forall|t: TokenId| #![trigger m2.contains_key((owner, Some(t)))]
        m2.contains_key((owner, Some(t))) <==> s2.contains(t) by {
        if s2.contains(t) {
            let j = s2.index_of(t);
            assert(s2[j] == t);
            if j < k {
                assert(s[j] == t);
            } else {
                assert(s[j + 1] == t);
            }
            assert(s.contains(t));
            assert(t != id);
        }
        if s.contains(t) && t != id {
            let i = s.index_of(t);
            if i < k {
                assert(s2[i] == t);
            } else {
                assert(s2[i - 1] == t);
            }
        }
    }
    assert(read(m2, owner, None) == (LinkedItem { prev: at(s2, s2.len() - 1), next: at(s2, 0) }));
    assert forall|j: int| #![trigger s2[j]] 0 <= j < s2.len() implies m2[(owner, Some(s2[j]))]
        == (LinkedItem { prev: at(s2, j - 1), next: at(s2, j + 1) }) by {
        let i = if j < k { j } else { j + 1 };
        assert(s2[j] == s[i]);
        assert(s.contains(s[i]));
        assert(m[(owner, Some(s[i]))] == (LinkedItem { prev: at(s, i - 1), next: at(s, i + 1) }));
        if j > 0 {
            assert(s2[j - 1] == (if j - 1 < k { s[j - 1] } else { s[j] }));
        }
        if j + 1 < s2.len() {
            assert(s2[j + 1] == (if j + 1 < k { s[j + 1] } else { s[j + 2] }));
        }
    }
}

/// Removing a token that the list does not hold changes nothing.
pub proof fn lemma_remove_absent(m: Nodes, owner: AccountId, id: TokenId, s: Seq<TokenId>)
    requires
        linked(m, owner, s),
        !s.contains(id),
    ensures
        remove_nodes(m, owner, id) == m,
{
}

/// Whether two maps hold the same nodes for `owner`.
pub open spec fn same_nodes_of(m: Nodes, other: Nodes, owner: AccountId) -> bool {
    forall|key: Option<TokenId>| #![trigger other.contains_key((owner, key))]
        other.contains_key((owner, key)) == m.contains_key((owner, key)) && other[(owner, key)]
            == m[(owner, key)]
}

/// What list an owner's nodes form depends on that owner's nodes only.
pub proof fn lemma_linked_same_nodes(m: Nodes, other: Nodes, owner: AccountId, s: Seq<TokenId>)
    requires
        same_nodes_of(m, other, owner),
    ensures
        linked(other, owner, s) == linked(m, owner, s),
{
    assert(other.contains_key((owner, None::<TokenId>)) == m.contains_key((owner, None::<TokenId>)));
    assert(read(other, owner, None) == read(m, owner, None));
    if linked(m, owner, s) {
        assert forall|t: TokenId| #![trigger other.contains_key((owner, Some(t)))]
            other.contains_key((owner, Some(t))) <==> s.contains(t) by {
            assert(other.contains_key((owner, Some(t))) == m.contains_key((owner, Some(t))));
        }
        assert forall|i: int| #![trigger s[i]] 0 <= i < s.len() implies other[(owner, Some(s[i]))]
            == (LinkedItem { prev: at(s, i - 1), next: at(s, i + 1) }) by {
            assert(other.contains_key((owner, Some(s[i]))) == m.contains_key((owner, Some(s[i]))));
        }
        assert(linked(other, owner, s));
    }
    if linked(other, owner, s) {
        assert forall|t: TokenId| #![trigger m.contains_key((owner, Some(t)))]
            m.contains_key((owner, Some(t))) <==> s.contains(t) by {
            assert(other.contains_key((owner, Some(t))) == m.contains_key((owner, Some(t))));
        }
        assert forall|i: int| #![trigger s[i]] 0 <= i < s.len() implies m[(owner, Some(s[i]))] == (
        LinkedItem { prev: at(s, i - 1), next: at(s, i + 1) }) by {
            assert(other.contains_key((owner, Some(s[i]))) == m.contains_key((owner, Some(s[i]))));
        }
        assert(linked(m, owner, s));
    }
}

/// Appending touches the nodes of one owner only.
pub proof fn lemma_append_other(
    m: Nodes,
    owner: AccountId,
    id: TokenId,
    other: AccountId,
    s: Seq<TokenId>,
)
    requires
        other != owner,
    ensures
        linked(append_nodes(m, owner, id), other, s) == linked(m, other, s),
{
    assert(same_nodes_of(m, append_nodes(m, owner, id), other));
    lemma_linked_same_nodes(m, append_nodes(m, owner, id), other, s);
}

/// Removing touches the nodes of one owner only.
pub proof fn lemma_remove_other(
    m: Nodes,
    owner: AccountId,
    id: TokenId,
    other: AccountId,
    s: Seq<TokenId>,
)
    requires
        other != owner,
    ensures
        linked(remove_nodes(m, owner, id), other, s) == linked(m, other, s),
{
    assert(same_nodes_of(m, remove_nodes(m, owner, id), other));
    lemma_linked_same_nodes(m, remove_nodes(m, owner, id), other, s);
}

/// Following `next` from the `i`-th token of a list visits the rest of it.
pub proof fn lemma_walk_linked(m: Nodes, owner: AccountId, s: Seq<TokenId>, i: int, fuel: nat)
    requires
        linked(m, owner, s),
        0 <= i <= s.len(),
        fuel >= s.len() - i,
    ensures
        walk(m, owner, at(s, i), fuel) == s.subrange(i, s.len() as int),
    decreases s.len() - i,
{
    if i < s.len() {
        assert(s.contains(s[i]));
        assert(read(m, owner, Some(s[i])).next == at(s, i + 1));
        lemma_walk_linked(m, owner, s, i + 1, (fuel - 1) as nat);
        assert(seq![s[i]] + s.subrange(i + 1, s.len() as int) =~= s.subrange(i, s.len() as int));
    } else {
        assert(s.subrange(i, s.len() as int) =~= Seq::<TokenId>::empty());
    }
}

/// A list is no longer than the map that holds its nodes.
pub proof fn lemma_linked_len(m: Nodes, owner: AccountId, s: Seq<TokenId>)
    requires
        linked(m, owner, s),
        m.dom().finite(),
    ensures
        s.len() <= m.len(),
{
    let keys = m.dom().filter(|k: NodeKey| k.0 == owner && k.1.is_some());
    let f = |k: NodeKey| k.1.unwrap();
    assert(keys.subset_of(m.dom()));
    vstd::set_lib::lemma_len_subset(keys, m.dom());
    assert(keys.map(f) =~= s.to_set()) by {
        assert forall|t: TokenId| keys.map(f).contains(t) == s.to_set().contains(t) by {
            if keys.map(f).contains(t) {
                let k = choose|k: NodeKey| keys.contains(k) && f(k) == t;
                assert(k == (owner, Some(t)));
                assert(m.contains_key((owner, Some(t))));
            }
            if s.contains(t) {
                assert(m.contains_key((owner, Some(t))));
                assert(keys.contains((owner, Some(t))));
                assert(f((owner, Some(t))) == t);
            }
        }
    }
    vstd::set_lib::lemma_map_size_bound(keys, s.to_set(), f);
    s.unique_seq_to_set();
}

/// The walk from the anchor yields the list that the nodes form.
pub proof fn lemma_tokens_linked(m: Nodes, owner: AccountId, s: Seq<TokenId>)
    requires
        linked(m, owner, s),
        m.dom().finite(),
    ensures
        tokens(m, owner) == s,
{
    lemma_linked_len(m, owner, s);
    lemma_walk_linked(m, owner, s, 0, m.len());
    assert(s.subrange(0, s.len() as int) =~= s);
}

/// Appending a token and removing it again leaves the owner's list as it
/// was: the same tokens in the same order.
pub proof fn lemma_append_then_remove(m: Nodes, owner: AccountId, id: TokenId, s: Seq<TokenId>)
    requires
        m.dom().finite(),
        linked(m, owner, s),
        !s.contains(id),
    ensures
        linked(remove_nodes(append_nodes(m, owner, id), owner, id), owner, s),
        tokens(remove_nodes(append_nodes(m, owner, id), owner, id), owner) == tokens(m, owner),
{
    let m1 = append_nodes(m, owner, id);
    let s1 = s.push(id);
    lemma_append_linked(m, owner, id, s);
    assert(s1[s.len() as int] == id);
    assert(s1.contains(id));
    let k = s1.index_of(id);
    assert(k == s.len()) by {
        if k < s.len() {
            assert(s[k] == id);
        }
    }
    lemma_remove_linked(m1, owner, id, s1);
    assert(s1.remove(k) =~= s);
    lemma_tokens_linked(m, owner, s);
    lemma_tokens_linked(remove_nodes(m1, owner, id), owner, s);
}

/// In well-linked nodes, appending a token that the owner's list does not
/// hold extends that list by it and leaves every other list alone.
pub proof fn lemma_append_well_linked(m: Nodes, owner: AccountId, id: TokenId)
    requires
        well_linked(m),
        !tokens(m, owner).contains(id),
    ensures
        well_linked(append_nodes(m, owner, id)),
        tokens(append_nodes(m, owner, id), owner) == tokens(m, owner).push(id),
        forall|other: AccountId|
            other != owner ==> #[trigger] tokens(append_nodes(m, owner, id), other) == tokens(
                m,
                other,
            ),
{
    let m3 = append_nodes(m, owner, id);
    lemma_append_linked(m, owner, id, tokens(m, owner));
    lemma_tokens_linked(m3, owner, tokens(m, owner).push(id));
    assert forall|other: AccountId| other != owner implies #[trigger] tokens(m3, other) == tokens(
        m,
        other,
    ) by {
        lemma_append_other(m, owner, id, other, tokens(m, other));
        lemma_tokens_linked(m3, other, tokens(m, other));
    }
    assert forall|a: AccountId| linked(m3, a, #[trigger] tokens(m3, a)) by {
        if a != owner {
            lemma_append_other(m, owner, id, a, tokens(m, a));
        }
    }
}

/// In well-linked nodes, removing a token of the owner's list takes it out
/// of that list and leaves every other list alone.
pub proof fn lemma_remove_well_linked(m: Nodes, owner: AccountId, id: TokenId)
    requires
        well_linked(m),
        tokens(m, owner).contains(id),
    ensures
        well_linked(remove_nodes(m, owner, id)),
        tokens(remove_nodes(m, owner, id), owner) == without(tokens(m, owner), id),
        forall|other: AccountId|
            other != owner ==> #[trigger] tokens(remove_nodes(m, owner, id), other) == tokens(
                m,
                other,
            ),
{
    let m3 = remove_nodes(m, owner, id);
    let s = tokens(m, owner);
    lemma_remove_linked(m, owner, id, s);
    lemma_tokens_linked(m3, owner, s.remove(s.index_of(id)));
    assert forall|other: AccountId| other != owner implies #[trigger] tokens(m3, other) == tokens(
        m,
        other,
    ) by {
        lemma_remove_other(m, owner, id, other, tokens(m, other));
        lemma_tokens_linked(m3, other, tokens(m, other));
    }
    assert forall|a: AccountId| linked(m3, a, #[trigger] tokens(m3, a)) by {
        if a != owner {
            lemma_remove_other(m, owner, id, a, tokens(m, a));
        }
    }
}

/// The empty map is well linked, and every list in it is empty.
pub proof fn lemma_empty_well_linked()
    ensures
        well_linked(Map::<NodeKey, LinkedItem>::empty()),
        forall|owner: AccountId| #[trigger]
            tokens(Map::<NodeKey, LinkedItem>::empty(), owner) == Seq::<TokenId>::empty(),
{
    let m = Map::<NodeKey, LinkedItem>::empty();
    assert forall|owner: AccountId| #[trigger] tokens(m, owner) == Seq::<TokenId>::empty() by {
        lemma_empty_linked(owner);
        lemma_tokens_linked(m, owner, Seq::<TokenId>::empty());
    }
}

} // verus!
