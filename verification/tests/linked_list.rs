use nft_ledger::linked_item::{LinkedItem, LinkedList};

fn item(prev: Option<u64>, next: Option<u64>) -> Option<LinkedItem> {
    Some(LinkedItem { prev, next })
}

#[test]
fn owned_kitties_can_append_values() {
    let mut list = LinkedList::new();
    list.append(&0, 1);

    assert_eq!(list.get(&(0, None)), Some(LinkedItem { prev: Some(1), next: Some(1) }));

    assert_eq!(list.get(&(0, Some(1))), Some(LinkedItem { prev: None, next: None }));

    list.append(&0, 2);

    assert_eq!(list.get(&(0, None)), Some(LinkedItem { prev: Some(2), next: Some(1) }));

    assert_eq!(list.get(&(0, Some(1))), Some(LinkedItem { prev: None, next: Some(2) }));

    assert_eq!(list.get(&(0, Some(2))), Some(LinkedItem { prev: Some(1), next: None }));

    list.append(&0, 3);

    assert_eq!(list.get(&(0, None)), Some(LinkedItem { prev: Some(3), next: Some(1) }));

    assert_eq!(list.get(&(0, Some(1))), Some(LinkedItem { prev: None, next: Some(2) }));

    assert_eq!(list.get(&(0, Some(2))), Some(LinkedItem { prev: Some(1), next: Some(3) }));

    assert_eq!(list.get(&(0, Some(3))), Some(LinkedItem { prev: Some(2), next: None }));
}

#[test]
fn owned_kitties_can_remove_values() {
    let mut list = LinkedList::new();
    list.append(&0, 1);
    list.append(&0, 2);
    list.append(&0, 3);

    list.remove(&0, 2);

    assert_eq!(list.get(&(0, None)), Some(LinkedItem { prev: Some(3), next: Some(1) }));

    assert_eq!(list.get(&(0, Some(1))), Some(LinkedItem { prev: None, next: Some(3) }));

    assert_eq!(list.get(&(0, Some(2))), None);

    assert_eq!(list.get(&(0, Some(3))), Some(LinkedItem { prev: Some(1), next: None }));

    list.remove(&0, 1);

    assert_eq!(list.get(&(0, None)), Some(LinkedItem { prev: Some(3), next: Some(3) }));

    assert_eq!(list.get(&(0, Some(1))), None);

    assert_eq!(list.get(&(0, Some(2))), None);

    assert_eq!(list.get(&(0, Some(3))), Some(LinkedItem { prev: None, next: None }));

    list.remove(&0, 3);

    assert_eq!(list.get(&(0, None)), Some(LinkedItem { prev: None, next: None }));

    assert_eq!(list.get(&(0, Some(1))), None);

    assert_eq!(list.get(&(0, Some(2))), None);

    assert_eq!(list.get(&(0, Some(2))), None);
}

#[test]
fn empty_owner_has_no_tokens() {
    let list = LinkedList::new();
    assert_eq!(list.iterate(&7), Vec::<u64>::new());
    assert_eq!(list.get(&(7, None)), None);
    assert!(!list.contains(&7, 0));
}

#[test]
fn iterate_follows_the_order_of_appends() {
    let mut list = LinkedList::new();
    list.append(&4, 30);
    list.append(&4, 10);
    list.append(&4, 20);
    assert_eq!(list.iterate(&4), vec![30, 10, 20]);
    assert!(list.contains(&4, 10));
    assert!(!list.contains(&4, 11));
}

#[test]
fn lists_of_two_owners_do_not_mix() {
    let mut list = LinkedList::new();
    list.append(&1, 5);
    list.append(&2, 6);
    list.append(&1, 7);
    assert_eq!(list.iterate(&1), vec![5, 7]);
    assert_eq!(list.iterate(&2), vec![6]);
    assert!(list.remove(&1, 5));
    assert_eq!(list.iterate(&1), vec![7]);
    assert_eq!(list.iterate(&2), vec![6]);
    assert_eq!(list.get(&(2, None)), item(Some(6), Some(6)));
}

#[test]
fn remove_head_middle_and_tail() {
    let mut list = LinkedList::new();
    for id in [1u64, 2, 3, 4, 5] {
        list.append(&0, id);
    }
    assert!(list.remove(&0, 1));
    assert_eq!(list.iterate(&0), vec![2, 3, 4, 5]);
    assert!(list.remove(&0, 5));
    assert_eq!(list.iterate(&0), vec![2, 3, 4]);
    assert!(list.remove(&0, 3));
    assert_eq!(list.iterate(&0), vec![2, 4]);
    assert_eq!(list.get(&(0, Some(2))), item(None, Some(4)));
    assert_eq!(list.get(&(0, Some(4))), item(Some(2), None));
    assert_eq!(list.get(&(0, None)), item(Some(4), Some(2)));
}

#[test]
fn remove_of_a_missing_token_changes_nothing() {
    let mut list = LinkedList::new();
    list.append(&0, 1);
    list.append(&0, 2);
    assert!(!list.remove(&0, 9));
    assert!(!list.remove(&1, 1));
    assert_eq!(list.iterate(&0), vec![1, 2]);
    assert_eq!(list.get(&(0, None)), item(Some(2), Some(1)));
    assert_eq!(list.get(&(1, None)), None);
}

#[test]
fn append_then_remove_restores_the_list() {
    let mut list = LinkedList::new();
    list.append(&3, 10);
    list.append(&3, 11);
    list.append(&3, 12);
    let before = list.iterate(&3);
    let anchor = list.get(&(3, None));
    let last = list.get(&(3, Some(12)));
    list.append(&3, 99);
    assert_eq!(list.iterate(&3), vec![10, 11, 12, 99]);
    assert!(list.remove(&3, 99));
    assert_eq!(list.iterate(&3), before);
    assert_eq!(list.get(&(3, None)), anchor);
    assert_eq!(list.get(&(3, Some(12))), last);
    assert_eq!(list.get(&(3, Some(99))), None);
}

#[test]
fn append_then_remove_on_an_empty_list_leaves_it_empty() {
    let mut list = LinkedList::new();
    list.append(&3, 99);
    assert!(list.remove(&3, 99));
    assert_eq!(list.iterate(&3), Vec::<u64>::new());
    assert_eq!(list.get(&(3, None)), item(None, None));
}

#[test]
fn a_list_can_be_filled_again_after_it_was_emptied() {
    let mut list = LinkedList::new();
    list.append(&0, 1);
    list.remove(&0, 1);
    list.append(&0, 2);
    list.append(&0, 1);
    assert_eq!(list.iterate(&0), vec![2, 1]);
    assert_eq!(list.get(&(0, None)), item(Some(1), Some(2)));
}

#[test]
fn first_and_next_walk_a_list_token_by_token() {
    let mut list = LinkedList::new();
    assert_eq!(list.first(&0), None);
    list.append(&0, 8);
    list.append(&0, 6);
    list.append(&0, 7);
    assert_eq!(list.first(&0), Some(8));
    assert_eq!(list.next(&0, 8), Some(6));
    assert_eq!(list.next(&0, 6), Some(7));
    assert_eq!(list.next(&0, 7), None);
    assert_eq!(list.next(&0, 5), None);
    assert_eq!(list.first(&1), None);

    let mut walked = Vec::new();
    let mut cur = list.first(&0);
    while let Some(id) = cur {
        walked.push(id);
        cur = list.next(&0, id);
    }
    assert_eq!(walked, list.iterate(&0));
}
