use alumina::flat_tree::{FlatTree, TreeNode};

#[test]
fn it_works() {
    let mut tree = FlatTree::new();
    tree.add(2);

    let node = tree.get(0);
    assert_eq!(2, *node.get_item());

    assert_eq!(None, node.get_parent())
}

#[test]
fn resizes() {
    let mut tree = FlatTree::with_capacity(10);
    for n in 1..20 {
        tree.add(n);
    }
    assert_eq!(tree.len(), 19);
    assert_eq!(*tree.get(18).get_item(), 19);
}

#[test]
fn parent() {
    let mut tree = FlatTree::new();
    tree.add("Mother");
    let child = tree.add("Child").get_index();
    tree.set_parent(child, 0);
    let child = tree.get(child);
    let parent = child.get_parent().unwrap();
    assert_eq!(parent, tree.get(0))
}

#[test]
fn node_reports_its_position() {
    let mut tree = FlatTree::new();
    tree.add('a');
    tree.add('b');
    let node = tree.get(1);
    assert_eq!(node.get_index(), 1);
    assert_eq!(node.get_tree().len(), 2);
    assert_eq!(*node.get_item(), 'b');
}

#[test]
fn added_nodes_have_no_parent() {
    let mut tree = FlatTree::with_capacity(10);
    for n in 1..20 {
        let k = tree.add(n).get_index();
        assert_eq!(*tree.get(k).get_item(), n);
        assert_eq!(tree.get(k).get_parent(), None);
    }
}
