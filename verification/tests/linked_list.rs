use balancebeam::linked_list::{LinkedList, Node};

#[test]
fn push_then_pop_returns_values_newest_first() {
    let mut list: LinkedList<u32> = LinkedList::new();
    assert!(list.is_empty());
    assert_eq!(list.get_size(), 0);
    for i in 1..12 {
        list.push_front(i);
    }
    assert!(!list.is_empty());
    assert_eq!(list.get_size(), 11);
    assert_eq!(list.pop_front(), Some(11));
    assert_eq!(list.get_size(), 10);
    for i in (1..11).rev() {
        assert_eq!(list.pop_front(), Some(i));
    }
    assert_eq!(list.pop_front(), None);
    assert!(list.is_empty());
}

#[test]
fn pop_from_empty_list_gives_none() {
    let mut list: LinkedList<String> = LinkedList::new();
    assert_eq!(list.pop_front(), None);
    assert!(list.is_empty());
    assert_eq!(list.get_size(), 0);
}

#[test]
fn list_of_strings_keeps_its_values() {
    let mut list: LinkedList<String> = LinkedList::new();
    for i in 1..12 {
        list.push_front(i.to_string());
    }
    assert_eq!(list.get_size(), 11);
    assert_eq!(list.pop_front(), Some("11".to_string()));
    assert_eq!(list.pop_front(), Some("10".to_string()));
    assert_eq!(list.get_size(), 9);
}

#[test]
fn clone_is_equal_and_independent() {
    let mut list: LinkedList<u32> = LinkedList::new();
    for i in 1..12 {
        list.push_front(i);
    }
    list.pop_front();
    let mut list_clone: LinkedList<u32> = list.clone();
    assert_eq!(list.get_size(), list_clone.get_size());
    assert!(list == list_clone);
    list_clone.pop_front();
    assert!(list != list_clone);
    assert_eq!(list.get_size(), 10);
    assert_eq!(list_clone.get_size(), 9);
    assert_eq!(list.pop_front(), Some(10));
    assert_eq!(list_clone.pop_front(), Some(9));
}

#[test]
fn lists_differ_by_value_length_and_order() {
    let mut a: LinkedList<u32> = LinkedList::new();
    let mut b: LinkedList<u32> = LinkedList::new();
    assert!(a == b);
    a.push_front(1);
    assert!(a != b);
    b.push_front(2);
    assert!(a != b);
    a.push_front(2);
    b.push_front(1);
    assert!(a != b);
    let mut c: LinkedList<u32> = LinkedList::new();
    c.push_front(1);
    c.push_front(2);
    assert!(a == c);
}

#[test]
fn node_can_be_built_alone_or_in_front_of_another() {
    let last: Node<u8> = Node::new(2, None);
    let _first: Node<u8> = Node::new(1, Some(Box::new(last)));
}

#[test]
fn long_list_is_dropped_without_deep_recursion() {
    let mut list: LinkedList<u64> = LinkedList::new();
    for i in 0..200_000u64 {
        list.push_front(i);
    }
    assert_eq!(list.get_size(), 200_000);
}

#[test]
fn values_are_read_by_place_from_the_front() {
    let mut list: LinkedList<String> = LinkedList::new();
    assert_eq!(list.get(0), None);
    for word in ["c", "b", "a"] {
        list.push_front(word.to_string());
    }
    assert_eq!(list.get(0), Some(&"a".to_string()));
    assert_eq!(list.get(1), Some(&"b".to_string()));
    assert_eq!(list.get(2), Some(&"c".to_string()));
    assert_eq!(list.get(3), None);
    assert_eq!(list.get(usize::MAX), None);
    assert_eq!(list.get_size(), 3);
}
