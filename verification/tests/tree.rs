use physim::tree::{Node, Tree};

#[test]
fn leaves_of_a_search_tree() {
    let mut tree = Tree::new(5);
    for x in [3, 8, 1, 4, 9, 7] {
        tree.push(x);
    }
    assert_eq!(tree.get_leaves(), vec![1, 4, 7, 9]);
    assert_eq!(tree.len(), 7);
}

#[test]
fn single_node_is_its_own_leaf() {
    let tree = Tree::new(42);
    assert_eq!(tree.get_leaves(), vec![42]);
    assert_eq!(tree.node(0).get_parent(), None);
}

#[test]
fn equal_elements_go_right() {
    let mut tree = Tree::new(2);
    tree.push(2);
    let root = tree.node(0);
    assert_eq!(root.left, None);
    assert_eq!(root.right, Some(1));
    assert_eq!(tree.node(1).get_parent(), Some(0));
    assert_eq!(tree.node(1).get_elem(), 2);
}

#[test]
fn descent_to_the_side_gives_nothing() {
    let mut tree = Tree::new(10);
    tree.push(5);
    tree.push(1);
    tree.push(20);
    assert_eq!(tree.get_left(), None);
    assert_eq!(Node::get_left(&tree, 0), None);
    assert_eq!(Node::get_right(&tree, 0), None);
}

#[test]
fn parents_point_up() {
    let mut tree = Tree::new(10);
    tree.push(5);
    tree.push(7);
    assert_eq!(tree.node(1).get_parent(), Some(0));
    assert_eq!(tree.node(2).get_parent(), Some(1));
    assert_eq!(Node::get_leaves(&tree, 1), vec![7]);
}

#[test]
fn new_node_has_no_links() {
    let n = Node::new(3);
    assert_eq!(n.get_elem(), 3);
    assert_eq!(n.get_parent(), None);
    assert_eq!(n.left, None);
    assert_eq!(n.right, None);
}

#[test]
fn equal_element_goes_right_then_left() {
    let mut t = Tree::new(5);
    t.push(3);
    t.push(7);
    t.push(5);
    assert_eq!(t.node(0).left, Some(1));
    assert_eq!(t.node(0).right, Some(2));
    assert_eq!(t.node(2).left, Some(3));
    assert_eq!(t.node(3).get_parent(), Some(2));
    assert_eq!(t.node(3).get_elem(), 5);
    assert_eq!((t.node(1).left, t.node(1).right, t.node(3).left, t.node(3).right), (None, None, None, None));
}

#[test]
fn leaves_left_to_right() {
    let mut t = Tree::new(5);
    t.push(3);
    t.push(7);
    t.push(4);
    assert_eq!(t.get_leaves(), vec![4, 7]);
}
