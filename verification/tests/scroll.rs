use rarog::scroll::{ScrollNodeId, ScrollTreeError, ScrollTreeLimits, DEFAULT_MAX_SCROLL_NODES};

#[test]
fn scroll_limits_reject_zero_and_keep_their_bound() {
    assert_eq!(ScrollTreeLimits::try_new(0), Err(ScrollTreeError::InvalidLimits));
    assert_eq!(ScrollTreeLimits::try_new(3).unwrap().max_nodes(), 3);
    assert_eq!(ScrollTreeLimits::default().max_nodes(), DEFAULT_MAX_SCROLL_NODES);
}

#[test]
fn scroll_node_ids_are_non_zero_and_errors_describe_themselves() {
    assert_eq!(ScrollNodeId::try_new(0), Err(ScrollTreeError::IdentitySpaceExhausted));
    let id = ScrollNodeId::try_new(7).unwrap();
    assert_eq!(id.get(), 7);
    assert_eq!(ScrollTreeError::UnknownNode(id).to_string(), "unknown scroll node 7");
    assert_eq!(
        ScrollTreeError::NodeLimitExceeded { nodes: 2, limit: 1 }.to_string(),
        "scroll tree would contain 2 nodes; limit is 1"
    );
    assert_eq!(
        ScrollTreeError::InvalidGeometry.to_string(),
        "scroll geometry must be finite and non-negative"
    );
}

use rarog::scroll::ScrollTree;

#[derive(Clone, Copy, Debug, PartialEq)]
struct Geometry {
    viewport: (f32, f32, f32, f32),
    content: (f32, f32),
}

fn geometry() -> Geometry {
    Geometry {
        viewport: (0.0, 0.0, 100.0, 80.0),
        content: (300.0, 240.0),
    }
}

fn id(value: u64) -> ScrollNodeId {
    ScrollNodeId::try_new(value).unwrap()
}

#[test]
fn subtree_removal_preserves_root_and_unrelated_nodes() {
    let mut tree = ScrollTree::new(id(1), geometry(), ScrollTreeLimits::default());
    let root = tree.root();
    let parent = tree.add_child(root, geometry(), id(2)).unwrap();
    let child = tree.add_child(parent, geometry(), id(3)).unwrap();
    let unrelated = tree.add_child(root, geometry(), id(4)).unwrap();

    assert_eq!(tree.remove_subtree(parent).unwrap(), 2);
    assert!(!tree.contains(parent));
    assert!(!tree.contains(child));
    assert!(tree.contains(unrelated));
    assert!(tree.contains(root));
    assert_eq!(tree.remove_subtree(root).unwrap(), 0);
}

#[test]
fn node_limits_fail_before_mutation() {
    let limits = ScrollTreeLimits::try_new(1).unwrap();
    let mut tree = ScrollTree::new(id(10), geometry(), limits);
    let root = tree.root();
    assert_eq!(
        tree.add_child(root, geometry(), id(11)).unwrap_err(),
        ScrollTreeError::NodeLimitExceeded { nodes: 2, limit: 1 }
    );
    assert_eq!(tree.len(), 1);
}

#[test]
fn tree_keeps_parents_geometry_and_refuses_stale_identities() {
    let mut tree = ScrollTree::new(id(20), geometry(), ScrollTreeLimits::default());
    let root = tree.root();
    let a = tree.add_child(root, geometry(), id(21)).unwrap();
    let b = tree.add_child(a, geometry(), id(22)).unwrap();
    let c = tree.add_child(b, geometry(), id(23)).unwrap();
    assert_eq!(tree.parent(root), Some(None));
    assert_eq!(tree.parent(c), Some(Some(b)));
    assert_eq!(
        tree.add_child(root, geometry(), id(22)).unwrap_err(),
        ScrollTreeError::IdentitySpaceExhausted
    );
    assert_eq!(
        tree.add_child(id(99), geometry(), id(30)).unwrap_err(),
        ScrollTreeError::UnknownNode(id(99))
    );
    let moved = Geometry {
        viewport: (0.0, 0.0, 10.0, 10.0),
        content: (20.0, 20.0),
    };
    assert_eq!(tree.replace_geometry(b, moved).unwrap(), geometry());
    assert_eq!(tree.geometry(b), Some(moved));
    assert_eq!(tree.remove_subtree(a).unwrap(), 3);
    assert_eq!(tree.len(), 1);
    assert_eq!(tree.remove_subtree(a).unwrap_err(), ScrollTreeError::UnknownNode(a));
}
