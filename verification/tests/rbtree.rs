use dstructs::rbtree::{Color, Node};

#[test]
fn new_node_is_red_leaf() {
    let n = Node::new(42);
    assert_eq!(n.get_value(), 42);
    assert_eq!(n.get_color(), Color::Red);
    assert!(n.is_red());
    assert!(!n.is_black());
    assert!(n.is_leaf());
}

#[test]
fn with_children_keeps_children() {
    let left = Box::new(Node::new(1));
    let right = Box::new(Node::new(3));
    let n = Node::with_children(2, Some(left), Some(right));
    assert_eq!(n.get_value(), 2);
    assert_eq!(n.get_color(), Color::Red);
    assert!(!n.is_leaf());
    assert_eq!(n.get_left().as_ref().unwrap().get_value(), 1);
    assert_eq!(n.get_right().as_ref().unwrap().get_value(), 3);
}

#[test]
fn invert_color_flips() {
    let mut n = Node::new(7);
    n.invert_color();
    assert!(n.is_black());
    n.invert_color();
    assert!(n.is_red());
}

#[test]
fn invert_children_colors_flips_both() {
    let mut left = Node::new(1);
    left.set_color(Color::Black);
    let right = Node::new(3);
    let mut n = Node::with_children(2, Some(Box::new(left)), Some(Box::new(right)));
    n.invert_children_colors();
    assert_eq!(n.get_color(), Color::Red);
    assert_eq!(n.get_left().as_ref().unwrap().get_color(), Color::Red);
    assert_eq!(n.get_right().as_ref().unwrap().get_color(), Color::Black);
}

#[test]
fn invert_children_colors_without_children() {
    let mut n = Node::new(5);
    n.invert_children_colors();
    assert!(n.is_leaf());
    assert_eq!(n.get_color(), Color::Red);
}

#[test]
fn setters_and_getters() {
    let mut n = Node::new(10);
    n.set_color(Color::Black);
    assert_eq!(n.get_color(), Color::Black);
    n.set_left(Some(Box::new(Node::new(5))));
    n.set_right(Some(Box::new(Node::new(15))));
    assert_eq!(n.get_left().as_ref().unwrap().get_value(), 5);
    assert_eq!(n.get_right().as_ref().unwrap().get_value(), 15);
    n.set_left(None);
    assert!(n.get_left().is_none());
}

#[test]
fn rotate_left_without_right_child() {
    let mut n = Node::new(4);
    n.set_left(Some(Box::new(Node::new(2))));
    let r = n.rotate_left();
    assert!(r.is_none());
    assert_eq!(n.get_value(), 4);
    assert_eq!(n.get_left().as_ref().unwrap().get_value(), 2);
}

#[test]
fn rotate_left_moves_right_child_up() {
    // Tree: 4 with left 2 and right 6, where 6 has children 5 and 7.
    let mut root = Node::with_children(
        4,
        Some(Box::new(Node::new(2))),
        Some(Box::new(Node::with_children(
            6,
            Some(Box::new(Node::new(5))),
            Some(Box::new(Node::new(7))),
        ))),
    );
    let new_root = root.rotate_left().expect("a right child must rotate up");
    assert_eq!(new_root.get_value(), 6);
    assert_eq!(new_root.get_color(), Color::Red);
    let new_left = new_root.get_left().as_ref().unwrap();
    assert_eq!(new_left.get_value(), 4);
    assert_eq!(new_left.get_color(), Color::Red);
    assert_eq!(new_left.get_left().as_ref().unwrap().get_value(), 2);
    assert_eq!(new_left.get_right().as_ref().unwrap().get_value(), 5);
    assert_eq!(new_root.get_right().as_ref().unwrap().get_value(), 7);
    // The rotated-from node is left as a fresh red leaf with its value.
    assert_eq!(root.get_value(), 4);
    assert!(root.is_leaf());
    assert!(root.is_red());
}
