use html_tree::html::node::HTMLNode;
use html_tree::html::tree::HTMLTree;
use html_tree::html::NodeError;

fn bare(tree: &mut HTMLTree) -> usize {
    HTMLNode::create_base(tree, false)
}

#[test]
fn test_html_node() {
    let mut tree = HTMLTree::new();
    let node_1 = bare(&mut tree);
    let node_2 = bare(&mut tree);
    let node_3 = bare(&mut tree);
    let node_4 = bare(&mut tree);

    assert!(tree.add_child(node_1, node_2).is_ok());
    assert!(tree.add_child(node_3, node_4).is_ok());
    if let Ok(res) = tree.is_ancestor_of(node_3, node_4) {
        assert!(res)
    } else {
        unreachable!("unexpected result!!");
    }
    assert!(tree.add_child(node_1, node_3).is_ok());
    if let Ok(res) = tree.is_ancestor_of(node_1, node_4) {
        assert!(res);
    } else {
        unreachable!("unexpected result!!");
    }
}

#[test]
fn test_add_child_to_descendant() {
    let mut tree = HTMLTree::new();
    let node_1 = bare(&mut tree);
    let node_2 = bare(&mut tree);
    let node_3 = bare(&mut tree);

    let _ = tree.add_child(node_1, node_2);
    let _ = tree.add_child(node_2, node_3);
    if let Err(err) = tree.add_child(node_3, node_1) {
        assert_eq!(err, NodeError::AddAncestorToDescendant)
    } else {
        unreachable!("unexpected result!!")
    }
}

#[test]
fn test_switch_parent() {
    let mut tree = HTMLTree::new();
    let node_1 = bare(&mut tree);
    let node_2 = bare(&mut tree);
    let node_3 = bare(&mut tree);

    let _ = tree.add_child(node_1, node_2);
    if let Ok(res) = tree.is_ancestor_of(node_1, node_2) {
        assert!(res);
    } else {
        unreachable!("unexpected result!!");
    }

    let _ = tree.add_child(node_3, node_2);
    if let Ok(res) = tree.is_ancestor_of(node_3, node_2) {
        assert!(res);
    } else {
        unreachable!("unexpected result!!");
    }
    if let Ok(res) = tree.is_ancestor_of(node_1, node_2) {
        assert!(!res);
    } else {
        unreachable!("unexpected result!!");
    }
}

#[test]
fn self_queries_fail() {
    let mut tree = HTMLTree::new();
    let n = bare(&mut tree);
    let t = HTMLNode::create_text(&mut tree, "x");
    assert_eq!(tree.is_ancestor_of(n, n), Err(NodeError::SameNodeCompare));
    assert_eq!(tree.is_descendant_of(n, n), Err(NodeError::SameNodeCompare));
    assert_eq!(tree.is_ancestor_of(t, t), Err(NodeError::SameNodeCompare));
    assert_eq!(tree.add_child(n, n), Err(NodeError::SameNodeCompare));
}

#[test]
fn add_to_leaf_fails() {
    let mut tree = HTMLTree::new();
    let text = HTMLNode::create_text(&mut tree, "leaf");
    let other = bare(&mut tree);
    let leaf_base = HTMLNode::create_base(&mut tree, true);
    assert_eq!(tree.add_child(text, other), Err(NodeError::AddToLeaf));
    assert_eq!(tree.add_child(text, text), Err(NodeError::AddToLeaf));
    assert_eq!(tree.add_child(leaf_base, other), Err(NodeError::AddToLeaf));
    assert_eq!(tree.child_count(text), 0);
}

#[test]
fn ancestor_under_descendant_fails_and_changes_nothing() {
    let mut tree = HTMLTree::new();
    let a = bare(&mut tree);
    let b = bare(&mut tree);
    let c = bare(&mut tree);
    tree.add_child(a, b).unwrap();
    tree.add_child(b, c).unwrap();
    assert_eq!(tree.add_child(c, a), Err(NodeError::AddAncestorToDescendant));
    assert_eq!(tree.add_child(b, a), Err(NodeError::AddAncestorToDescendant));
    assert_eq!(tree.child_count(a), 1);
    assert_eq!(tree.child_count(c), 0);
    assert_eq!(tree.is_ancestor_of(a, c), Ok(true));
}

#[test]
fn add_child_counts_and_links() {
    let mut tree = HTMLTree::new();
    let p = bare(&mut tree);
    let c1 = bare(&mut tree);
    let c2 = HTMLNode::create_text(&mut tree, "t");
    assert_eq!(tree.child_count(p), 0);
    tree.add_child(p, c1).unwrap();
    assert_eq!(tree.child_count(p), 1);
    assert_eq!(tree.is_ancestor_of(p, c1), Ok(true));
    assert_eq!(tree.is_descendant_of(c1, p), Ok(true));
    assert_eq!(tree.is_ancestor_of(c1, p), Ok(false));
    tree.add_child(p, c2).unwrap();
    assert_eq!(tree.child_count(p), 2);
    assert_eq!(tree.is_ancestor_of(p, c2), Ok(true));
    assert_eq!(tree.is_ancestor_of(c1, c2), Ok(false));
}

#[test]
fn reparent_moves_the_node() {
    let mut tree = HTMLTree::new();
    let p1 = bare(&mut tree);
    let p2 = bare(&mut tree);
    let other = bare(&mut tree);
    let c = bare(&mut tree);
    tree.add_child(p1, other).unwrap();
    tree.add_child(p1, c).unwrap();
    assert_eq!(tree.child_count(p1), 2);
    tree.add_child(p2, c).unwrap();
    assert_eq!(tree.child_count(p1), 1);
    assert_eq!(tree.child_count(p2), 1);
    assert_eq!(tree.is_ancestor_of(p1, c), Ok(false));
    assert_eq!(tree.is_ancestor_of(p2, c), Ok(true));
}

#[test]
fn reattach_to_same_parent_moves_to_end() {
    let mut tree = HTMLTree::new();
    let p = HTMLNode::create_anchor(&mut tree, None, None);
    let a = HTMLNode::create_text(&mut tree, "a");
    let b = HTMLNode::create_text(&mut tree, "b");
    tree.add_child(p, a).unwrap();
    tree.add_child(p, b).unwrap();
    assert_eq!(tree.render(p), "<a>ab</a>");
    tree.add_child(p, a).unwrap();
    assert_eq!(tree.child_count(p), 2);
    assert_eq!(tree.render(p), "<a>ba</a>");
}

#[test]
fn remove_child_detaches() {
    let mut tree = HTMLTree::new();
    let p = bare(&mut tree);
    let c = bare(&mut tree);
    let d = bare(&mut tree);
    let other = bare(&mut tree);
    assert_eq!(tree.remove_child(p, c), Err(NodeError::NotChild));
    tree.add_child(p, c).unwrap();
    tree.add_child(c, d).unwrap();
    assert_eq!(tree.remove_child(c, p), Err(NodeError::NotChild));
    assert_eq!(tree.remove_child(p, d), Err(NodeError::NotChild));
    assert_eq!(tree.remove_child(p, c), Ok(()));
    assert_eq!(tree.child_count(p), 0);
    assert_eq!(tree.child_count(c), 1);
    assert_eq!(tree.remove_child(p, c), Err(NodeError::NotChild));
    // the parent link of c is left as it was
    assert_eq!(tree.is_ancestor_of(p, c), Ok(true));
    assert_eq!(tree.is_ancestor_of(p, d), Ok(true));
    assert_eq!(tree.add_child(d, p), Err(NodeError::AddAncestorToDescendant));
    // a detached node can be attached elsewhere
    assert_eq!(tree.add_child(other, c), Ok(()));
    assert_eq!(tree.child_count(other), 1);
    assert_eq!(tree.child_count(p), 0);
    assert_eq!(tree.is_ancestor_of(other, c), Ok(true));
    assert_eq!(tree.is_ancestor_of(p, c), Ok(false));
    assert_eq!(tree.is_ancestor_of(other, d), Ok(true));
    // a child whose parent still holds it moves as usual
    assert_eq!(tree.add_child(p, d), Ok(()));
    assert_eq!(tree.child_count(c), 0);
    assert_eq!(tree.child_count(p), 1);
    assert_eq!(tree.is_ancestor_of(p, d), Ok(true));
    assert_eq!(tree.is_ancestor_of(other, d), Ok(false));
}

#[test]
fn detached_node_reattaches_to_its_old_parent() {
    let mut tree = HTMLTree::new();
    let p = bare(&mut tree);
    let c = bare(&mut tree);
    tree.add_child(p, c).unwrap();
    tree.remove_child(p, c).unwrap();
    assert_eq!(tree.child_count(p), 0);
    assert_eq!(tree.add_child(p, c), Ok(()));
    assert_eq!(tree.child_count(p), 1);
    assert_eq!(tree.is_ancestor_of(p, c), Ok(true));
}

#[test]
fn error_messages() {
    assert_eq!(NodeError::GetParentPtr.message(), "failed to get parent pointer");
    assert_eq!(NodeError::NotChild.message(), "node is not child");
    assert_eq!(NodeError::SameNodeCompare.message(), "same node comparision");
    assert_eq!(
        NodeError::AddAncestorToDescendant.message(),
        "cannot add ancestor to descendant node"
    );
    assert_eq!(NodeError::AddToLeaf.message(), "cannot add to leaf node");
}
