use policy_list::Node;

#[test]
fn the_terminal_marker_holds_nothing() {
    let mut nil = Node::<i32>::nil();
    assert!(nil.is_nil());
    assert_eq!(nil.get_value(), None);
    assert!(nil.next().is_none());
    assert!(nil.next_mut().is_none());
    nil.set_next(Node::new(1));
    assert!(nil.is_nil());
    assert!(nil.next().is_none());
}

#[test]
fn a_new_node_ends_its_chain() {
    let n = Node::new(7);
    assert!(!n.is_nil());
    assert_eq!(n.get_value(), Some(7));
    assert!(n.next().is_none());
}

#[test]
fn set_next_replaces_what_followed() {
    let mut n = Node::new(1);
    let mut tail = Node::new(2);
    tail.set_next(Node::new(3));
    n.set_next(tail);
    assert_eq!(n.render(), "[ 1 -> [ 2 -> [ 3 -> nil]]]");
    n.set_next(Node::new(9));
    assert_eq!(n.get_value(), Some(1));
    assert_eq!(n.render(), "[ 1 -> [ 9 -> nil]]");
    n.set_next(Node::nil());
    assert!(n.next().is_none());
    assert_eq!(n.render(), "[ 1 -> nil]");
}

#[test]
fn render_shows_the_chain() {
    assert_eq!(Node::<i32>::nil().render(), "nil");
    let mut n = Node::new(1);
    n.set_next(Node::new(2));
    assert_eq!(n.render(), "[ 1 -> [ 2 -> nil]]");
    let mut words = Node::new("a");
    words.set_next(Node::new("b"));
    assert_eq!(words.render(), "[ a -> [ b -> nil]]");
}

#[test]
fn clone_is_a_chain_of_its_own() {
    let mut n = Node::new(1);
    n.set_next(Node::new(2));
    let mut copy = n.clone();
    copy.next_mut().unwrap().set_next(Node::new(3));
    assert_eq!(copy.render(), "[ 1 -> [ 2 -> [ 3 -> nil]]]");
    assert_eq!(n.render(), "[ 1 -> [ 2 -> nil]]");
}

#[test]
fn nodes_compare_by_value_alone() {
    let mut long = Node::new(2);
    long.set_next(Node::new(100));
    let short = Node::new(2);
    assert_eq!(long, short);
    assert!(long <= short);
    assert!(long >= short);
    assert!(!(long < short));
    assert!(Node::new(1) < long);
    assert!(Node::new(3) > long);
    assert_ne!(Node::new(3), long);
}

#[test]
fn the_terminal_marker_stands_below_every_value() {
    let nil = Node::<i32>::nil();
    assert!(nil < Node::new(i32::MIN));
    assert!(Node::new(i32::MIN) > nil);
    assert!(nil <= Node::nil());
    assert_eq!(nil, Node::default());
    assert_ne!(nil, Node::new(0));
}

#[test]
fn values_that_do_not_compare_leave_nodes_unordered() {
    let a = Node::new(f64::NAN);
    let b = Node::new(1.0);
    assert!(!(a < b));
    assert!(!(a > b));
    assert!(!(a <= b));
    assert_ne!(a, b);
    assert!(Node::<f64>::nil() < a);
}
