use scrapdog::storage::loader::{resolve_scrapbook_tree, FsNode, FsNodeResolved, LoadError};
use std::collections::HashMap;

fn fs_node(id: i32, children: Option<Vec<i32>>) -> FsNode {
    FsNode {
        id,
        rdf_id: Some(format!("r{}", id)),
        type_: None,
        title: None,
        source: None,
        icon: None,
        comment: None,
        encoding: None,
        marked: None,
        locked: None,
        created: None,
        modified: None,
        children: children.map(|c| c.into()),
    }
}

#[test]
fn tree_of_a_scrapbook() {
    let nodes = vec![
        fs_node(1, Some(vec![2, 3])),
        fs_node(2, Some(vec![4])),
        fs_node(3, None),
        fs_node(4, None),
    ];
    let tree = resolve_scrapbook_tree(nodes).unwrap().unwrap();
    assert_eq!(tree.len(), 2);
    assert_eq!(tree[0].id, 2);
    assert_eq!(tree[0].rdf_id.as_deref(), Some("r2"));
    let inner = tree[0].children.as_ref().unwrap();
    assert_eq!(inner.len(), 1);
    assert_eq!(inner[0].id, 4);
    assert!(inner[0].children.is_none());
    assert_eq!(tree[1].id, 3);
}

#[test]
fn empty_scrapbook_has_no_tree() {
    assert!(matches!(resolve_scrapbook_tree(vec![]), Ok(None)));
}

#[test]
fn root_without_children_is_an_error() {
    assert_eq!(
        resolve_scrapbook_tree(vec![fs_node(9, None)]).unwrap_err(),
        LoadError::RootWithoutChildren(9)
    );
}

#[test]
fn missing_or_repeated_child_is_an_error() {
    let nodes = vec![fs_node(1, Some(vec![5]))];
    assert_eq!(resolve_scrapbook_tree(nodes).unwrap_err(), LoadError::CannotResolve(5));
    let nodes = vec![fs_node(1, Some(vec![2, 2])), fs_node(2, None)];
    assert_eq!(resolve_scrapbook_tree(nodes).unwrap_err(), LoadError::CannotResolve(2));
}

#[test]
fn resolving_takes_nodes_out_of_the_pool() {
    let mut pool = HashMap::new();
    pool.insert(1, fs_node(1, Some(vec![2])));
    pool.insert(2, fs_node(2, None));
    pool.insert(3, fs_node(3, None));
    let t = FsNodeResolved::try_resolve(1, &mut pool).unwrap();
    assert_eq!(t.children.as_ref().unwrap()[0].id, 2);
    assert_eq!(pool.len(), 1);
    assert!(pool.contains_key(&3));
    assert_eq!(FsNodeResolved::try_resolve(1, &mut pool).unwrap_err(), LoadError::CannotResolve(1));
}

#[test]
fn load_error_messages() {
    assert_eq!(LoadError::CannotResolve(-5).message(), "Cannot resolve id -5");
    assert_eq!(
        LoadError::RootWithoutChildren(3).message(),
        "Root node with id 3 has empty children vector"
    );
}

#[test]
fn failed_resolution_keeps_what_it_took_out() {
    let mut pool = HashMap::new();
    pool.insert(1, fs_node(1, Some(vec![2, 7])));
    pool.insert(2, fs_node(2, None));
    pool.insert(3, fs_node(3, None));
    // a missing id leaves the pool as it was
    assert_eq!(FsNodeResolved::try_resolve(8, &mut pool).unwrap_err(), LoadError::CannotResolve(8));
    assert_eq!(pool.len(), 3);
    // a missing child: the parent and the children resolved before it stay out
    assert_eq!(FsNodeResolved::try_resolve(1, &mut pool).unwrap_err(), LoadError::CannotResolve(7));
    assert_eq!(pool.len(), 1);
    assert!(pool.contains_key(&3));
}

#[test]
fn cycles_cannot_be_resolved() {
    let mut pool = HashMap::new();
    pool.insert(1, fs_node(1, Some(vec![1])));
    assert_eq!(FsNodeResolved::try_resolve(1, &mut pool).unwrap_err(), LoadError::CannotResolve(1));
    let mut pool = HashMap::new();
    pool.insert(1, fs_node(1, Some(vec![2])));
    pool.insert(2, fs_node(2, Some(vec![1])));
    assert_eq!(FsNodeResolved::try_resolve(1, &mut pool).unwrap_err(), LoadError::CannotResolve(1));
    assert!(pool.is_empty());
}

#[test]
fn a_node_under_two_folders_is_an_error() {
    let nodes = vec![
        fs_node(1, Some(vec![2, 3])),
        fs_node(2, Some(vec![4])),
        fs_node(3, Some(vec![4])),
        fs_node(4, None),
    ];
    assert_eq!(resolve_scrapbook_tree(nodes).unwrap_err(), LoadError::CannotResolve(4));
    let nodes = vec![
        fs_node(1, Some(vec![2])),
        fs_node(2, Some(vec![3])),
        fs_node(3, Some(vec![2])),
    ];
    assert_eq!(resolve_scrapbook_tree(nodes).unwrap_err(), LoadError::CannotResolve(2));
}
