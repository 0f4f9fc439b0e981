use linked_list::Comparator;
use linked_list::LinkedList;
use linked_list::LinkedListNode;

fn list_of(values: Vec<i32>) -> LinkedList<i32> {
    let mut list: LinkedList<i32> = LinkedList::new(None);
    list.from_vec(values);
    list
}

/// The values met when walking from the head along the links.
fn walked(list: &LinkedList<i32>) -> Vec<i32> {
    let mut values = Vec::new();
    let mut node = list.head();
    while let Some(current) = node {
        values.push(current.value);
        node = list.follow(current.next);
    }
    values
}

/// The tail is the last element, and the walk from the head ends at it.
fn assert_ends(list: &LinkedList<i32>) {
    let values = list.to_vec();
    assert_eq!(walked(list), values);
    match values.last() {
        Some(last) => {
            let tail = list.tail().unwrap();
            assert_eq!(tail.value, *last);
            assert!(tail.next.is_none());
            assert_eq!(list.head().unwrap().value, values[0]);
        }
        None => {
            assert!(list.head().is_none());
            assert!(list.tail().is_none());
        }
    }
}

#[test]
fn create_empty_linked_list() {
    let list: LinkedList<i32> = LinkedList::new(None);
    assert_eq!(list.to_string(), "");
}

#[test]
fn should_append_node_to_linked_list() {
    let mut list: LinkedList<i32> = LinkedList::new(None);

    assert_eq!(list.head().is_none(), true);
    assert_eq!(list.tail().is_none(), true);

    list.append(1);
    list.append(2);

    assert_eq!(list.to_string(), "1,2");
    assert_eq!(list.tail().unwrap().next.is_none(), true);
}

#[test]
fn should_prepend_node_to_linked_list() {
    let mut list: LinkedList<i32> = LinkedList::new(None);

    list.prepend(2);

    assert_eq!(list.head().unwrap().value, 2);
    assert_eq!(list.tail().unwrap().value, 2);

    list.append(1);
    list.prepend(3);

    assert_eq!(list.to_string(), "3,2,1");
}

#[test]
fn should_insert_node_to_linked_list() {
    let mut list: LinkedList<i32> = LinkedList::new(None);

    // An empty list has no node at position 2 to put the value behind.
    list.insert(4, 3);

    assert_eq!(list.head().is_none(), true);
    assert_eq!(list.tail().is_none(), true);

    list.insert(3, 2);
    list.insert(2, 1);
    list.insert(10, 9);

    assert_eq!(list.to_string(), "");

    list.insert(4, 0);
    list.insert(3, 0);
    list.insert(2, 0);
    list.insert(10, 3);

    assert_eq!(list.head().unwrap().value, 2);
    assert_eq!(list.tail().unwrap().value, 10);
    assert_eq!(list.to_string(), "2,3,4,10");
}

#[test]
fn insert_at_zero_is_prepend() {
    let mut list = list_of(vec![1, 2]);
    list.insert(0, 0);
    assert_eq!(list.to_vec(), vec![0, 1, 2]);
    assert_ends(&list);

    let mut empty: LinkedList<i32> = LinkedList::new(None);
    empty.insert(7, 0);
    assert_eq!(empty.to_vec(), vec![7]);
    assert_ends(&empty);
}

#[test]
fn insert_in_the_middle_follows_the_element_before() {
    let mut list = list_of(vec![1, 2, 4]);
    list.insert(3, 2);
    assert_eq!(list.to_vec(), vec![1, 2, 3, 4]);
    assert_ends(&list);
}

#[test]
fn insert_behind_the_last_element_moves_the_tail() {
    let mut list = list_of(vec![1, 2]);
    list.insert(3, 2);
    assert_eq!(list.to_vec(), vec![1, 2, 3]);
    assert_eq!(list.tail().unwrap().value, 3);
    assert_ends(&list);
}

#[test]
fn insert_out_of_range_changes_nothing() {
    let mut list = list_of(vec![1, 2]);
    list.insert(9, 3);
    assert_eq!(list.to_vec(), vec![1, 2]);
    list.insert(9, usize::MAX);
    assert_eq!(list.to_vec(), vec![1, 2]);
    assert_ends(&list);
}

#[test]
fn appends_keep_the_order_of_arrival() {
    let input = vec![5, 3, 9, 3, 1];
    let mut list: LinkedList<i32> = LinkedList::new(None);
    for value in input.iter() {
        list.append(*value);
        assert_ends(&list);
    }
    assert_eq!(list.to_vec(), input);
}

#[test]
fn prepends_reverse_the_order_of_arrival() {
    let input = vec![5, 3, 9, 3, 1];
    let mut list: LinkedList<i32> = LinkedList::new(None);
    for value in input.iter() {
        list.prepend(*value);
        assert_ends(&list);
    }
    assert_eq!(list.to_vec(), vec![1, 3, 9, 3, 5]);
}

#[test]
fn append_and_prepend_can_be_chained() {
    let mut list: LinkedList<i32> = LinkedList::new(None);
    list.append(2).append(3).prepend(1);
    assert_eq!(list.to_vec(), vec![1, 2, 3]);
}

#[test]
fn reverse_turns_the_order_round() {
    let mut list = list_of(vec![1, 2, 3, 4]);
    list.reverse();
    assert_eq!(list.to_vec(), vec![4, 3, 2, 1]);
    assert_eq!(list.head().unwrap().value, 4);
    assert_eq!(list.tail().unwrap().value, 1);
    assert_ends(&list);
}

#[test]
fn reverse_twice_gives_the_order_back() {
    for input in [vec![], vec![7], vec![1, 2], vec![3, 1, 4, 1, 5]] {
        let mut list = list_of(input.clone());
        list.reverse();
        list.reverse();
        assert_eq!(list.to_vec(), input);
        assert_ends(&list);
    }
}

#[test]
fn reverse_of_an_empty_list_is_empty() {
    let mut list: LinkedList<i32> = LinkedList::new(None);
    list.reverse();
    assert_eq!(list.to_vec(), Vec::<i32>::new());
    assert_ends(&list);
}

#[test]
fn delete_removes_every_equal_element() {
    let mut list = list_of(vec![2, 2, 1, 2, 3, 2, 2, 4, 2]);
    let deleted = list.delete(2);
    assert_eq!(list.to_vec(), vec![1, 3, 4]);
    let node: LinkedListNode<i32> = deleted.unwrap();
    assert_eq!(node.value, 2);
    assert!(node.next.is_none());
    assert_ends(&list);
}

#[test]
fn delete_of_an_absent_value_changes_nothing() {
    let mut list = list_of(vec![1, 2, 3]);
    assert!(list.delete(7).is_none());
    assert_eq!(list.to_vec(), vec![1, 2, 3]);
    assert_ends(&list);

    let mut empty: LinkedList<i32> = LinkedList::new(None);
    assert!(empty.delete(7).is_none());
    assert_ends(&empty);
}

#[test]
fn delete_of_the_tail_moves_the_tail() {
    let mut list = list_of(vec![1, 2, 3]);
    assert_eq!(list.delete(3).unwrap().value, 3);
    assert_eq!(list.to_vec(), vec![1, 2]);
    assert_eq!(list.tail().unwrap().value, 2);
    assert_ends(&list);
    list.append(4);
    assert_eq!(list.to_vec(), vec![1, 2, 4]);
    assert_ends(&list);
}

#[test]
fn delete_returns_the_last_node_that_was_removed() {
    // Elements are equal where they have the same last digit.
    let mut list: LinkedList<i32> =
        LinkedList::new(Some(Box::new(|a: &i32, b: &i32| (a % 10) - (b % 10))));
    list.from_vec(vec![12, 5, 22, 7, 32, 8]);
    let deleted = list.delete(2);
    assert_eq!(deleted.unwrap().value, 32);
    assert_eq!(list.to_vec(), vec![5, 7, 8]);
    assert_ends(&list);
}

#[test]
fn deletions_that_empty_the_list_leave_no_ends() {
    let mut by_value = list_of(vec![4, 4, 4]);
    assert_eq!(by_value.delete(4).unwrap().value, 4);
    assert_ends(&by_value);
    assert!(by_value.head().is_none());
    assert!(by_value.tail().is_none());
    assert!(by_value.delete_head().is_none());
    assert!(by_value.delete_tail().is_none());

    let mut from_the_head = list_of(vec![1]);
    assert_eq!(from_the_head.delete_head().unwrap().value, 1);
    assert!(from_the_head.head().is_none());
    assert!(from_the_head.tail().is_none());
    assert!(from_the_head.delete_head().is_none());
    assert!(from_the_head.delete_tail().is_none());

    let mut from_the_tail = list_of(vec![1]);
    assert_eq!(from_the_tail.delete_tail().unwrap().value, 1);
    assert!(from_the_tail.head().is_none());
    assert!(from_the_tail.tail().is_none());
    assert!(from_the_tail.delete_tail().is_none());
    assert!(from_the_tail.delete_head().is_none());

    from_the_tail.append(9);
    assert_eq!(from_the_tail.to_vec(), vec![9]);
    assert_ends(&from_the_tail);
}

#[test]
fn delete_head_takes_the_first_node() {
    let mut list = list_of(vec![1, 2, 3]);
    let node = list.delete_head().unwrap();
    assert_eq!(node.value, 1);
    assert!(node.next.is_none());
    assert_eq!(list.to_vec(), vec![2, 3]);
    assert_ends(&list);
}

#[test]
fn delete_tail_takes_the_last_node() {
    let mut list = list_of(vec![1, 2, 3]);
    let node = list.delete_tail().unwrap();
    assert_eq!(node.value, 3);
    assert!(node.next.is_none());
    assert_eq!(list.to_vec(), vec![1, 2]);
    assert_ends(&list);
    assert_eq!(list.delete_tail().unwrap().value, 2);
    assert_eq!(list.delete_tail().unwrap().value, 1);
    assert!(list.delete_tail().is_none());
    assert_ends(&list);
}

#[test]
fn the_tail_is_the_last_element_after_every_operation() {
    let mut list: LinkedList<i32> = LinkedList::new(None);
    assert_ends(&list);
    list.append(1);
    assert_ends(&list);
    list.prepend(0);
    assert_ends(&list);
    list.insert(2, 2);
    assert_ends(&list);
    list.insert(9, 1);
    assert_ends(&list);
    list.from_vec(vec![2, 5, 2]);
    assert_ends(&list);
    assert_eq!(list.to_vec(), vec![0, 9, 1, 2, 2, 5, 2]);
    list.delete(2);
    assert_ends(&list);
    assert_eq!(list.to_vec(), vec![0, 9, 1, 5]);
    list.reverse();
    assert_ends(&list);
    list.delete_tail();
    assert_ends(&list);
    list.delete_head();
    assert_ends(&list);
    assert_eq!(list.to_vec(), vec![1, 9]);
    list.delete(9);
    assert_ends(&list);
    list.delete(1);
    assert_ends(&list);
    list.append(3);
    assert_ends(&list);
}

#[test]
fn a_sequence_of_operations() {
    let mut list: LinkedList<i32> = LinkedList::new(None);
    list.append(1);
    list.append(2);
    list.append(3);
    assert_eq!(list.to_vec(), vec![1, 2, 3]);
    list.prepend(0);
    assert_eq!(list.to_vec(), vec![0, 1, 2, 3]);
    list.delete(2);
    assert_eq!(list.to_vec(), vec![0, 1, 3]);
    list.reverse();
    assert_eq!(list.to_vec(), vec![3, 1, 0]);
    list.insert(2, 1);
    assert_eq!(list.to_vec(), vec![3, 2, 1, 0]);
    assert_eq!(list.delete_head().unwrap().value, 3);
    assert_eq!(list.delete_tail().unwrap().value, 0);
    assert_eq!(list.to_vec(), vec![2, 1]);
}

#[test]
fn find_by_value_gives_the_first_equal_node() {
    let list = list_of(vec![1, 2, 3, 2]);
    let found = list.find(Some(&2), None).unwrap();
    assert_eq!(found.value, 2);
    assert_eq!(list.follow(found.next).unwrap().value, 3);
    assert!(list.find(Some(&7), None).is_none());
}

#[test]
fn find_by_test_gives_the_first_node_that_passes() {
    let list = list_of(vec![1, 2, 3, 4]);
    let found = list.find(None, Some(&|value: &i32| *value > 2)).unwrap();
    assert_eq!(found.value, 3);
    assert!(list.find(None, Some(&|value: &i32| *value > 4)).is_none());
    assert_eq!(list.find_by(&|value: &i32| *value % 2 == 0).unwrap().value, 2);
    assert!(list.find_by(&|value: &i32| *value < 0).is_none());
}

#[test]
fn find_prefers_the_test_to_the_value() {
    let list = list_of(vec![1, 2, 3]);
    let found = list.find(Some(&1), Some(&|value: &i32| *value == 3)).unwrap();
    assert_eq!(found.value, 3);
}

#[test]
fn find_without_value_and_test_finds_nothing() {
    let list = list_of(vec![1, 2, 3]);
    assert!(list.find(None, None).is_none());
}

#[test]
fn find_of_the_last_node_has_no_link() {
    let list = list_of(vec![1, 2]);
    let found = list.find(Some(&2), None).unwrap();
    assert!(found.next.is_none());
}

#[test]
fn find_uses_the_comparator_of_the_list() {
    let mut list: LinkedList<i32> =
        LinkedList::new(Some(Box::new(|a: &i32, b: &i32| (a % 10) - (b % 10))));
    list.from_vec(vec![11, 25, 35]);
    assert_eq!(list.find(Some(&5), None).unwrap().value, 25);
    assert!(list.find(Some(&4), None).is_none());
}

#[test]
fn from_vec_appends_in_order() {
    let mut list = list_of(vec![1, 2]);
    list.from_vec(vec![3, 4]);
    assert_eq!(list.to_vec(), vec![1, 2, 3, 4]);
    list.from_vec(vec![]);
    assert_eq!(list.to_vec(), vec![1, 2, 3, 4]);
    assert_ends(&list);
}

#[test]
fn to_vec_can_be_taken_again() {
    let list = list_of(vec![1, 2, 3]);
    assert_eq!(list.to_vec(), vec![1, 2, 3]);
    assert_eq!(list.to_vec(), vec![1, 2, 3]);
}

#[test]
fn to_string_joins_the_debug_texts() {
    let mut words: LinkedList<&str> = LinkedList::new(None);
    words.append("a");
    words.append("b,c");
    assert_eq!(words.to_string(), "\"a\",\"b,c\"");
    assert_eq!(list_of(vec![7]).to_string(), "7");
    assert_eq!(list_of(vec![-1, 0, 1]).to_string(), "-1,0,1");
}

#[test]
fn slots_of_deleted_nodes_are_used_again() {
    let mut list = list_of(vec![1, 2, 3, 4]);
    list.delete(2);
    list.delete_head();
    list.append(5);
    list.prepend(0);
    list.insert(9, 2);
    assert_eq!(list.to_vec(), vec![0, 3, 9, 4, 5]);
    assert_ends(&list);
    for _ in 0..3 {
        list.delete_tail();
        list.append(6);
        list.delete_head();
        list.prepend(7);
        assert_ends(&list);
    }
    assert_eq!(list.to_vec(), vec![7, 3, 9, 4, 6]);
}

#[test]
fn follow_leads_from_node_to_node() {
    let list = list_of(vec![1, 2, 3]);
    let first = list.head().unwrap();
    let second = list.follow(first.next).unwrap();
    let third = list.follow(second.next).unwrap();
    assert_eq!((first.value, second.value, third.value), (1, 2, 3));
    assert!(list.follow(third.next).is_none());
    assert!(list.follow(None).is_none());
    assert!(list.follow(Some(usize::MAX)).is_none());
}

#[test]
fn follow_finds_no_node_in_a_vacated_slot() {
    let mut list = list_of(vec![1, 2, 3]);
    let link = list.head().unwrap().next;
    assert_eq!(list.follow(link).unwrap().value, 2);
    list.delete(2);
    assert!(list.follow(link).is_none());
}

#[test]
fn a_list_can_be_given_its_comparator() {
    let by_last_digit = Comparator::from_fn(|a: &i32, b: &i32| (a % 10) - (b % 10));
    let mut list: LinkedList<i32> = LinkedList::with_comparator(by_last_digit);
    list.from_vec(vec![13, 4, 23]);
    assert_eq!(list.delete(3).unwrap().value, 23);
    assert_eq!(list.to_vec(), vec![4]);
}

#[test]
fn a_node_keeps_value_and_link() {
    let node = LinkedListNode::new(5, Some(3));
    assert_eq!(node.value, 5);
    assert_eq!(node.next, Some(3));
    let copy = node.clone();
    assert_eq!(copy.value, 5);
    assert_eq!(copy.next, Some(3));
    let last = LinkedListNode::new("x", None);
    assert!(last.next.is_none());
}
