use policy_list::{List, ListIterator, Methods, Node};

#[test]
fn lifo_pops_in_reverse_of_pushes() {
    let mut l = List::lifo();
    for v in [1, 5, 2, 3] {
        l.push(v);
    }
    assert_eq!(l.pop(), Some(3));
    assert_eq!(l.pop(), Some(2));
    assert_eq!(l.pop(), Some(5));
    assert_eq!(l.pop(), Some(1));
    assert_eq!(l.pop(), None);
    assert_eq!(l.size(), 0);
    assert_eq!(l.pop(), None);
    assert_eq!(l.size(), 0);
}

#[test]
fn fifo_pops_in_order_of_pushes() {
    let mut l = List::fifo();
    for v in [1, 5, 2, 3] {
        l.push(v);
    }
    assert_eq!(l.pop(), Some(1));
    assert_eq!(l.pop(), Some(5));
    assert_eq!(l.pop(), Some(2));
    assert_eq!(l.pop(), Some(3));
    assert_eq!(l.pop(), None);
}

#[test]
fn ordered_pops_ascending_whatever_the_push_order() {
    let mut a = List::ordered();
    for v in [3, 1, 4, 2] {
        a.push(v);
    }
    let mut b = List::ordered();
    for v in [4, 3, 2, 1] {
        b.push(v);
    }
    for expected in [1, 2, 3, 4] {
        assert_eq!(a.pop(), Some(expected));
        assert_eq!(b.pop(), Some(expected));
    }
    assert_eq!(a.pop(), None);
    assert_eq!(b.pop(), None);
}

#[test]
fn ordered_keeps_equal_values() {
    let mut l = List::ordered();
    for v in [2, 1, 2, 3, 2, 1] {
        l.push(v);
    }
    assert_eq!(l.size(), 6);
    let mut out = Vec::new();
    while let Some(v) = l.pop() {
        out.push(v);
    }
    assert_eq!(out, vec![1, 1, 2, 2, 2, 3]);
}

#[test]
fn ordered_places_a_value_at_head_middle_and_tail() {
    let mut l = List::ordered();
    l.push(10);
    l.push(30);
    l.push(20);
    l.push(5);
    l.push(40);
    let mut it = ListIterator::new(l.head());
    assert_eq!(it.next(), Some(5));
    assert_eq!(it.next(), Some(10));
    assert_eq!(it.next(), Some(20));
    assert_eq!(it.next(), Some(30));
    assert_eq!(it.next(), Some(40));
    assert_eq!(it.next(), None);
}

#[test]
fn size_counts_pushes_less_pops_that_found_a_value() {
    let mut lifo = List::lifo();
    let mut fifo = List::fifo();
    let mut ordered = List::ordered();
    assert_eq!((lifo.size(), fifo.size(), ordered.size()), (0, 0, 0));
    for v in [7, 3, 9] {
        lifo.push(v);
        fifo.push(v);
        ordered.push(v);
    }
    assert_eq!((lifo.size(), fifo.size(), ordered.size()), (3, 3, 3));
    lifo.pop();
    fifo.pop();
    ordered.pop();
    assert_eq!((lifo.size(), fifo.size(), ordered.size()), (2, 2, 2));
    for _ in 0..4 {
        lifo.pop();
        fifo.pop();
        ordered.pop();
    }
    assert_eq!((lifo.size(), fifo.size(), ordered.size()), (0, 0, 0));
    lifo.push(1);
    assert_eq!(lifo.size(), 1);
}

#[test]
fn fresh_lists_are_empty() {
    let mut lifo = List::<i32>::lifo();
    let mut fifo = List::<i32>::fifo();
    let mut ordered = List::<i32>::ordered();
    assert_eq!(lifo.size(), 0);
    assert_eq!(fifo.size(), 0);
    assert_eq!(ordered.size(), 0);
    assert!(lifo.head().is_nil());
    assert!(fifo.head().is_nil());
    assert!(ordered.head().is_nil());
    assert_eq!(lifo.pop(), None);
    assert_eq!(fifo.pop(), None);
    assert_eq!(ordered.pop(), None);
}

#[test]
fn popping_an_empty_list_changes_nothing() {
    let mut l = List::<u8>::fifo();
    for _ in 0..5 {
        assert_eq!(l.pop(), None);
        assert_eq!(l.size(), 0);
    }
    l.push(9);
    assert_eq!(l.pop(), Some(9));
    for _ in 0..3 {
        assert_eq!(l.pop(), None);
        assert_eq!(l.size(), 0);
    }
}

#[test]
fn head_is_the_first_node() {
    let mut l = List::fifo();
    l.push(4);
    l.push(6);
    assert_eq!(l.head().get_value(), Some(4));
    assert_eq!(l.head().next().unwrap().get_value(), Some(6));
    assert!(l.head().next().unwrap().next().is_none());
}

#[test]
fn contains_finds_pushed_values_only() {
    let mut l = List::fifo();
    assert!(!l.contains(1));
    for v in [1, 5, 2, 3] {
        l.push(v);
    }
    assert!(l.contains(1));
    assert!(l.contains(2));
    assert!(l.contains(3));
    assert!(!l.contains(4));
    l.pop();
    assert!(!l.contains(1));
}

#[test]
fn remove_unlinks_the_first_match() {
    let mut l = List::fifo();
    for v in [1, 5, 2, 5, 3] {
        l.push(v);
    }
    assert!(l.remove(5));
    assert_eq!(l.size(), 4);
    let mut it = l.head().clone();
    let mut out = Vec::new();
    while let Some(v) = it.get_value() {
        out.push(v);
        it = match it.next() {
            Some(n) => n.clone(),
            None => Node::nil(),
        };
    }
    assert_eq!(out, vec![1, 2, 5, 3]);
}

#[test]
fn remove_at_head_and_tail_and_of_a_missing_value() {
    let mut l = List::lifo();
    assert!(!l.remove(1));
    for v in [1, 2, 3] {
        l.push(v);
    }
    assert!(!l.remove(9));
    assert_eq!(l.size(), 3);
    assert!(l.remove(3));
    assert_eq!(l.head().get_value(), Some(2));
    assert!(l.remove(1));
    assert_eq!(l.size(), 1);
    assert_eq!(l.pop(), Some(2));
    assert_eq!(l.pop(), None);
    assert!(!l.remove(2));
    assert_eq!(l.size(), 0);
}

#[test]
fn iterating_leaves_the_list_as_it_was() {
    let mut l = List::lifo();
    l.push(1.0);
    l.push(3.0);
    l.push(2.0);
    {
        let mut first = l.iter();
        let mut second = l.iter();
        assert_eq!(first.next(), Some(2.0));
        assert_eq!(second.next(), Some(2.0));
        assert_eq!(first.next(), Some(3.0));
        assert_eq!(first.next(), Some(1.0));
        assert_eq!(first.next(), None);
        assert_eq!(first.next(), None);
        assert_eq!(second.next(), Some(3.0));
    }
    assert_eq!(l.size(), 3);
    assert_eq!(l.pop(), Some(2.0));
}

#[test]
fn iterating_from_the_terminal_marker_ends_at_once() {
    let nil = Node::<i32>::nil();
    let mut it = ListIterator::new(&nil);
    assert_eq!(it.next(), None);
    assert_eq!(it.next(), None);
}

#[test]
fn a_default_list_is_empty() {
    let mut l = List::<i32>::default();
    assert_eq!(l.size(), 0);
    assert!(l.head().is_nil());
    assert!(!l.contains(0));
    assert!(!l.remove(0));
    assert_eq!(l.pop(), None);
    assert_eq!(l.size(), 0);
}

#[test]
fn remove_keeps_the_count_right_under_every_policy() {
    let mut fifo = List::fifo();
    let mut ordered = List::ordered();
    for v in [4, 2, 4, 1] {
        fifo.push(v);
        ordered.push(v);
    }
    assert!(fifo.remove(4));
    assert!(ordered.remove(4));
    assert_eq!(fifo.size(), 3);
    assert_eq!(ordered.size(), 3);
    assert_eq!(fifo.head().render(), "[ 2 -> [ 4 -> [ 1 -> nil]]]");
    assert_eq!(ordered.head().render(), "[ 1 -> [ 2 -> [ 4 -> nil]]]");
    assert!(fifo.contains(4));
    assert!(fifo.remove(4));
    assert!(!fifo.contains(4));
    assert!(!fifo.remove(4));
    assert_eq!(fifo.size(), 2);
}

#[test]
fn an_ordered_list_takes_values_that_do_not_compare() {
    let mut l = List::ordered();
    l.push(2.0);
    l.push(f64::NAN);
    l.push(1.0);
    assert_eq!(l.size(), 3);
    assert_eq!(l.pop(), Some(1.0));
    assert_eq!(l.size(), 2);
}
