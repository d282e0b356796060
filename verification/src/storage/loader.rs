//! Reading a stored scrapbook back as a tree: starting from the root's
//! children, each node is looked up by number and taken out of the pool of
//! loaded nodes, so that every node appears at most once in the tree.
use vstd::prelude::*;
use std::collections::HashMap;
use crate::storage::types::NodeType;
use crate::storage::blob::BlobVecI32;
use crate::text::{decimal, push_decimal};

verus! {

/// A node as loaded from the database.
#[derive(Debug)]
pub struct FsNode {
    pub id: i32,
    pub rdf_id: Option<String>,
    pub type_: Option<NodeType>,
    pub title: Option<String>,
    pub source: Option<String>,
    pub icon: Option<String>,
    pub comment: Option<String>,
    pub encoding: Option<String>,
    pub marked: Option<bool>,
    pub locked: Option<bool>,
    pub created: Option<crate::types::time::WallClock>,
    pub modified: Option<crate::types::time::WallClock>,
    pub children: Option<BlobVecI32>,
}

/// A node with its children resolved into nodes.
#[derive(Debug)]
pub struct FsNodeResolved {
    pub id: i32,
    pub rdf_id: Option<String>,
    pub type_: Option<NodeType>,
    pub title: Option<String>,
    pub source: Option<String>,
    pub icon: Option<String>,
    pub comment: Option<String>,
    pub encoding: Option<String>,
    pub marked: Option<bool>,
    pub locked: Option<bool>,
    pub created: Option<crate::types::time::WallClock>,
    pub modified: Option<crate::types::time::WallClock>,
    pub children: Option<Vec<FsNodeResolved>>,
}

/// The mathematical value of a resolved node: the loaded node it was made
/// from, without its list of numbers, and its resolved children.
pub struct NodeTree {
    pub node: FsNode,
    pub children: Option<Seq<NodeTree>>,
}

impl FsNodeResolved {
    /// The value of this resolved node.
    pub open spec fn tree(&self) -> NodeTree
        decreases self,
    {
        NodeTree {
            node: FsNode {
                id: self.id,
                rdf_id: self.rdf_id,
                type_: self.type_,
                title: self.title,
                source: self.source,
                icon: self.icon,
                comment: self.comment,
                encoding: self.encoding,
                marked: self.marked,
                locked: self.locked,
                created: self.created,
                modified: self.modified,
                children: None,
            },
            children: match &self.children {
                Some(v) => Some(forest_of(v@)),
                None => None,
            },
        }
    }
}

/// The values of a sequence of resolved nodes.
pub open spec fn forest_of(s: Seq<FsNodeResolved>) -> Seq<NodeTree>
    decreases s,
{
    if s.len() == 0 {
        seq![]
    } else {
        forest_of(s.subrange(0, s.len() - 1)).push(s[s.len() - 1].tree())
    }
}

/// Why a stored scrapbook could not be read back as a tree.
#[derive(Debug, PartialEq, Eq, Structural)]
pub enum LoadError {
    /// A child number that names no loaded node, or a node reached twice.
    CannotResolve(i32),
    /// The root node (its number) has no list of children.
    RootWithoutChildren(i32),
}

impl LoadError {
    /// The text describing this error.
    pub fn message(&self) -> (r: String)
        ensures
            r@ == match *self {
                LoadError::CannotResolve(id) => "Cannot resolve id "@ + decimal(id as int),
                LoadError::RootWithoutChildren(id) => "Root node with id "@ + decimal(id as int) + " has empty children vector"@,
            },
    {
        match self {
            LoadError::CannotResolve(id) => {
                let mut out = String::from_str("Cannot resolve id ");
                push_decimal(&mut out, *id);
                out
            },
            LoadError::RootWithoutChildren(id) => {
                let mut out = String::from_str("Root node with id ");
                push_decimal(&mut out, *id);
                out.append(" has empty children vector");
                out
            },
        }
    }
}

/// The value of node `n` with resolved children `children`.
pub open spec fn node_tree(n: FsNode, children: Option<Seq<NodeTree>>) -> NodeTree {
    NodeTree { node: FsNode { children: None, ..n }, children }
}

/// Resolving node `id` out of the pool `m`: the node is taken out of the
/// pool and its children are resolved in order from what remains. `fuel`
/// bounds the depth; any value at least the pool's size is enough.
pub open spec fn resolve_tree(id: i32, m: Map<i32, FsNode>, fuel: nat) -> Result<(NodeTree, Map<i32, FsNode>), LoadError>
    decreases fuel, 0nat,
{
    if !m.contains_key(id) || fuel == 0 {
        Err(LoadError::CannotResolve(id))
    } else {
        let n = m[id];
        let rest = m.remove(id);
        match n.children {
            None => Ok((node_tree(n, None), rest)),
            Some(ids) => match resolve_forest(ids.0@, rest, (fuel - 1) as nat) {
                Err(e) => Err(e),
                Ok((ts, m2)) => Ok((node_tree(n, Some(ts)), m2)),
            },
        }
    }
}

/// Resolving the nodes `ids` in order out of the pool `m`.
pub open spec fn resolve_forest(ids: Seq<i32>, m: Map<i32, FsNode>, fuel: nat) -> Result<(Seq<NodeTree>, Map<i32, FsNode>), LoadError>
    decreases fuel, ids.len() + 1,
{
    if ids.len() == 0 {
        Ok((seq![], m))
    } else {
        match resolve_forest(ids.drop_last(), m, fuel) {
            Err(e) => Err(e),
            Ok((ts, m1)) => match resolve_tree(ids.last(), m1, fuel) {
                Err(e) => Err(e),
                Ok((t, m2)) => Ok((ts.push(t), m2)),
            },
        }
    }
}

/// The pool left after resolving node `id` out of `m` (see
/// [`resolve_tree`]), whether or not it succeeds: every node taken out
/// before a failure stays out.
pub open spec fn pool_after_tree(id: i32, m: Map<i32, FsNode>, fuel: nat) -> Map<i32, FsNode>
    decreases fuel, 0nat,
{
    if !m.contains_key(id) || fuel == 0 {
        m
    } else {
        let rest = m.remove(id);
        match m[id].children {
            None => rest,
            Some(ids) => pool_after_forest(ids.0@, rest, (fuel - 1) as nat),
        }
    }
}

/// The pool left after resolving the nodes `ids` in order out of `m`,
/// stopping at the first failure.
pub open spec fn pool_after_forest(ids: Seq<i32>, m: Map<i32, FsNode>, fuel: nat) -> Map<i32, FsNode>
    decreases fuel, ids.len() + 1,
{
    if ids.len() == 0 {
        m
    } else {
        let m1 = pool_after_forest(ids.drop_last(), m, fuel);
        if resolve_forest(ids.drop_last(), m, fuel) is Err {
            m1
        } else {
            pool_after_tree(ids.last(), m1, fuel)
        }
    }
}

proof fn lemma_forest_prefix_err(ids: Seq<i32>, m: Map<i32, FsNode>, fuel: nat, j: int)
    requires
        0 <= j <= ids.len(),
        resolve_forest(ids.take(j), m, fuel) is Err,
    ensures
        resolve_forest(ids, m, fuel) == resolve_forest(ids.take(j), m, fuel),
        pool_after_forest(ids, m, fuel) == pool_after_forest(ids.take(j), m, fuel),
    decreases ids.len() - j,
{
    if j < ids.len() {
        assert(ids.take(j + 1).drop_last() =~= ids.take(j));
        lemma_forest_prefix_err(ids, m, fuel, j + 1);
    } else {
        assert(ids.take(j) =~= ids);
    }
}

fn resolve_with_fuel(id: i32, id_map: &mut HashMap<i32, FsNode>, Ghost(fuel): Ghost<nat>) -> (r: Result<FsNodeResolved, LoadError>)
    requires
        fuel >= old(id_map)@.len(),
    ensures
        final(id_map)@.len() <= old(id_map)@.len(),
        final(id_map)@ == pool_after_tree(id, old(id_map)@, fuel),
        match resolve_tree(id, old(id_map)@, fuel) {
            Ok((t, m2)) => r matches Ok(x) && x.tree() == t && final(id_map)@ == m2,
            Err(e) => r == Err::<FsNodeResolved, LoadError>(e),
        },
    decreases fuel,
{
    broadcast use vstd::std_specs::hash::group_hash_axioms;
    let ghost m = id_map@;
    let node = match id_map.remove(&id) {
        Some(n) => n,
        None => return Err(LoadError::CannotResolve(id)),
    };
    assert(m.contains_key(id));
    assert(id_map@ == m.remove(id));
    let ghost rest = id_map@;
    let children = match node.children {
        Some(ids) => {
            let v = ids.0;
            let n = v.len();
            let mut out: Vec<FsNodeResolved> = Vec::new();
            let mut j: usize = 0;
            assert(v@.take(0) =~= Seq::<i32>::empty());
            assert(m[id].children matches Some(c) && c.0@ == v@);
            while j < n
                invariant
                    n == v@.len(),
                    j <= n,
                    fuel >= 1,
                    rest.len() <= fuel - 1,
                    rest.len() + 1 == m.len(),
                    m == old(id_map)@,
                    resolve_forest(v@, rest, (fuel - 1) as nat) is Err ==> resolve_tree(id, m, fuel)
                        == Err::<(NodeTree, Map<i32, FsNode>), LoadError>(resolve_forest(v@, rest, (fuel - 1) as nat)->Err_0),
                    id_map@.len() <= rest.len(),
                    resolve_forest(v@.take(j as int), rest, (fuel - 1) as nat) matches Ok((ts, mm))
                        && ts == forest_of(out@) && mm == id_map@,
                    id_map@ == pool_after_forest(v@.take(j as int), rest, (fuel - 1) as nat),
                    m.contains_key(id),
                    rest == m.remove(id),
                    m[id].children matches Some(c) && c.0@ == v@,
                decreases n - j,
            {
                let child_id = v[j];
                assert(v@.take(j + 1).drop_last() =~= v@.take(j as int));
                assert(v@.take(j + 1).last() == child_id);
                let ghost before = out@;
                match resolve_with_fuel(child_id, id_map, Ghost((fuel - 1) as nat)) {
                    Ok(child) => {
                        out.push(child);
                        assert(out@.subrange(0, out@.len() - 1) =~= before);
                    },
                    Err(e) => {
                        proof {
                            assert(pool_after_forest(v@.take(j + 1), rest, (fuel - 1) as nat) == id_map@);
                            lemma_forest_prefix_err(v@, rest, (fuel - 1) as nat, j + 1);
                            assert(pool_after_tree(id, m, fuel) == pool_after_forest(v@, rest, (fuel - 1) as nat));
                        }
                        return Err(e);
                    },
                }
                j = j + 1;
            }
            assert(v@.take(n as int) =~= v@);
            assert(pool_after_tree(id, m, fuel) == pool_after_forest(v@, rest, (fuel - 1) as nat));
            Some(out)
        },
        None => None,
    };
    Ok(FsNodeResolved {
        id: node.id,
        rdf_id: node.rdf_id,
        type_: node.type_,
        title: node.title,
        source: node.source,
        icon: node.icon,
        comment: node.comment,
        encoding: node.encoding,
        marked: node.marked,
        locked: node.locked,
        created: node.created,
        modified: node.modified,
        children,
    })
}

/// The pool of loaded nodes by number; a later node with the same number
/// replaces an earlier one.
pub open spec fn pool_of(nodes: Seq<FsNode>) -> Map<i32, FsNode>
    decreases nodes.len(),
{
    if nodes.len() == 0 {
        Map::empty()
    } else {
        pool_of(nodes.drop_last()).insert(nodes.last().id, nodes.last())
    }
}

/// The tree of a loaded scrapbook whose root node comes first: none when
/// nothing was loaded, and otherwise the root's children resolved out of
/// the pool of the other nodes.
pub open spec fn scrapbook_tree_of(nodes: Seq<FsNode>) -> Result<Option<Seq<NodeTree>>, LoadError> {
    if nodes.len() == 0 {
        Ok(None)
    } else {
        match nodes[0].children {
            None => Err(LoadError::RootWithoutChildren(nodes[0].id)),
            Some(c) => {
                let pool = pool_of(nodes.drop_first());
                match resolve_forest(c.0@, pool, pool.len()) {
                    Err(e) => Err(e),
                    Ok((ts, rest)) => Ok(Some(ts)),
                }
            },
        }
    }
}

/// Builds the tree of a scrapbook from its loaded nodes, root first (see
/// [`scrapbook_tree_of`]).
pub fn resolve_scrapbook_tree(nodes: Vec<FsNode>) -> (r: Result<Option<Vec<FsNodeResolved>>, LoadError>)
    ensures
        match scrapbook_tree_of(nodes@) {
            Ok(None) => r matches Ok(None),
            Ok(Some(ts)) => r matches Ok(Some(v)) && forest_of(v@) == ts,
            Err(e) => r == Err::<Option<Vec<FsNodeResolved>>, LoadError>(e),
        },
{
    broadcast use vstd::std_specs::hash::group_hash_axioms;
    if nodes.len() == 0 {
        return Ok(None);
    }
    let ghost all = nodes@;
    let mut others = nodes;
    let root_node = others.remove(0);
    assert(others@ =~= all.drop_first());
    let root_id = root_node.id;
    let root_children: Vec<i32> = match root_node.children {
        Some(c) => c.into(),
        None => return Err(LoadError::RootWithoutChildren(root_id)),
    };
    let ghost rest = others@;
    assert(rest.len() == others.len());
    let mut id_map: HashMap<i32, FsNode> = HashMap::new();
    let mut i: usize = 0;
    assert(rest.take(0) =~= Seq::<FsNode>::empty());
    for node in iter: others.into_iter()
        invariant
            iter.seq() == rest,
            i == iter.index(),
            i <= rest.len(),
            rest.len() <= usize::MAX,
            id_map@ == pool_of(rest.take(i as int)),
    {
        assert(rest.take(i + 1).drop_last() =~= rest.take(i as int));
        assert(rest.take(i + 1).last() == node);
        id_map.insert(node.id, node);
        assert(i < rest.len());
        i = i + 1;
    }
    assert(rest.take(rest.len() as int) =~= rest);
    let ghost pool = id_map@;
    let n = root_children.len();
    let mut out: Vec<FsNodeResolved> = Vec::new();
    let mut j: usize = 0;
    assert(root_children@.take(0) =~= Seq::<i32>::empty());
    while j < n
        invariant
            n == root_children@.len(),
            j <= n,
            pool == pool_of(rest),
            rest == all.drop_first(),
            all == nodes@,
            all.len() > 0,
            all[0].children matches Some(c) && c.0@ == root_children@,
            id_map@.len() <= pool.len(),
            resolve_forest(root_children@.take(j as int), pool, pool.len()) matches Ok((ts, mm))
                && ts == forest_of(out@) && mm == id_map@,
        decreases n - j,
    {
        let child_id = root_children[j];
        assert(root_children@.take(j + 1).drop_last() =~= root_children@.take(j as int));
        assert(root_children@.take(j + 1).last() == child_id);
        let ghost before = out@;
        match resolve_with_fuel(child_id, &mut id_map, Ghost(pool.len())) {
            Ok(child) => {
                out.push(child);
                assert(out@.subrange(0, out@.len() - 1) =~= before);
            },
            Err(e) => {
                proof {
                    lemma_forest_prefix_err(root_children@, pool, pool.len(), j + 1);
                }
                return Err(e);
            },
        }
        j = j + 1;
    }
    assert(root_children@.take(n as int) =~= root_children@);
    Ok(Some(out))
}

impl FsNodeResolved {
    /// Resolves node `id` out of the pool `id_map` (see [`resolve_tree`]),
    /// taking every node it reaches out of the pool.
    pub fn try_resolve(id: i32, id_map: &mut HashMap<i32, FsNode>) -> (r: Result<FsNodeResolved, LoadError>)
        ensures
            match resolve_tree(id, old(id_map)@, old(id_map)@.len()) {
                Ok((t, m2)) => r matches Ok(x) && x.tree() == t && final(id_map)@ == m2,
                Err(e) => r == Err::<FsNodeResolved, LoadError>(e),
            },
            final(id_map)@ == pool_after_tree(id, old(id_map)@, old(id_map)@.len()),
    {
        resolve_with_fuel(id, id_map, Ghost(id_map@.len()))
    }
}


/// The number of nodes of a tree.
pub open spec fn tree_size(t: NodeTree) -> nat
    decreases t,
{
    1 + match t.children {
        Some(cs) => forest_size(cs),
        None => 0,
    }
}

/// The number of nodes of a sequence of trees.
pub open spec fn forest_size(ts: Seq<NodeTree>) -> nat
    decreases ts,
{
    if ts.len() == 0 {
        0
    } else {
        forest_size(ts.subrange(0, ts.len() - 1)) + tree_size(ts[ts.len() - 1])
    }
}

proof fn lemma_forest_size_push(ts: Seq<NodeTree>, t: NodeTree)
    ensures
        forest_size(ts.push(t)) == forest_size(ts) + tree_size(t),
{
    assert(ts.push(t).subrange(0, ts.len() as int) =~= ts);
}

/// Resolving a node takes exactly one pooled node per node of its tree out
/// of the pool, and nothing else: no stored node appears twice in a tree.
pub proof fn lemma_resolve_tree_takes(id: i32, m: Map<i32, FsNode>, fuel: nat)
    requires
        m.dom().finite(),
    ensures
        resolve_tree(id, m, fuel) matches Ok((t, m2)) ==> {
            &&& m2.dom().subset_of(m.dom())
            &&& m2.dom().finite()
            &&& m.len() == m2.len() + tree_size(t)
            &&& !m2.contains_key(id)
        },
    decreases fuel, 0nat,
{
    if m.contains_key(id) && fuel > 0 {
        let n = m[id];
        let rest = m.remove(id);
        assert(rest.len() + 1 == m.len());
        if let Some(ids) = n.children {
            lemma_resolve_forest_takes(ids.0@, rest, (fuel - 1) as nat);
        }
    }
}

/// Resolving a sequence of nodes takes exactly one pooled node per node of
/// the resulting trees out of the pool.
pub proof fn lemma_resolve_forest_takes(ids: Seq<i32>, m: Map<i32, FsNode>, fuel: nat)
    requires
        m.dom().finite(),
    ensures
        resolve_forest(ids, m, fuel) matches Ok((ts, m2)) ==> {
            &&& m2.dom().subset_of(m.dom())
            &&& m2.dom().finite()
            &&& m.len() == m2.len() + forest_size(ts)
        },
    decreases fuel, ids.len() + 1,
{
    if ids.len() > 0 {
        lemma_resolve_forest_takes(ids.drop_last(), m, fuel);
        if let Ok((ts, m1)) = resolve_forest(ids.drop_last(), m, fuel) {
            lemma_resolve_tree_takes(ids.last(), m1, fuel);
            if let Ok((t, m2)) = resolve_tree(ids.last(), m1, fuel) {
                lemma_forest_size_push(ts, t);
            }
        }
    } else {
        assert(forest_size(seq![]) == 0);
    }
}

/// Every failure to resolve a node names a child number that cannot be
/// resolved.
pub proof fn lemma_resolve_tree_errors(id: i32, m: Map<i32, FsNode>, fuel: nat)
    ensures
        resolve_tree(id, m, fuel) matches Err(e) ==> e is CannotResolve,
    decreases fuel, 0nat,
{
    if m.contains_key(id) && fuel > 0 {
        if let Some(ids) = m[id].children {
            lemma_resolve_forest_errors(ids.0@, m.remove(id), (fuel - 1) as nat);
        }
    }
}

/// Every failure to resolve a sequence of nodes names a child number that
/// cannot be resolved.
pub proof fn lemma_resolve_forest_errors(ids: Seq<i32>, m: Map<i32, FsNode>, fuel: nat)
    ensures
        resolve_forest(ids, m, fuel) matches Err(e) ==> e is CannotResolve,
    decreases fuel, ids.len() + 1,
{
    if ids.len() > 0 {
        lemma_resolve_forest_errors(ids.drop_last(), m, fuel);
        if let Ok((ts, m1)) = resolve_forest(ids.drop_last(), m, fuel) {
            lemma_resolve_tree_errors(ids.last(), m1, fuel);
        }
    }
}

proof fn lemma_prefix_pool_shrinks(ids: Seq<i32>, m: Map<i32, FsNode>, fuel: nat, a: int, b: int)
    requires
        m.dom().finite(),
        0 <= a <= b <= ids.len(),
    ensures
        resolve_forest(ids.take(b), m, fuel) matches Ok((tb, mb)) ==> (
            resolve_forest(ids.take(a), m, fuel) matches Ok((ta, ma))
                && mb.dom().subset_of(ma.dom()) && ma.dom().finite()),
    decreases b - a,
{
    if a == b {
        lemma_resolve_forest_takes(ids.take(a), m, fuel);
    } else {
        assert(ids.take(b).drop_last() =~= ids.take(b - 1));
        lemma_prefix_pool_shrinks(ids, m, fuel, a, b - 1);
        if let Ok((tp, mp)) = resolve_forest(ids.take(b - 1), m, fuel) {
            lemma_resolve_forest_takes(ids.take(b - 1), m, fuel);
            lemma_resolve_tree_takes(ids[b - 1], mp, fuel);
            assert(ids.take(b).last() == ids[b - 1]);
        }
    }
}

proof fn lemma_stuck_at(ids: Seq<i32>, m: Map<i32, FsNode>, fuel: nat, k: int)
    requires
        0 <= k < ids.len(),
        resolve_forest(ids.take(k), m, fuel) matches Ok((tk, mk)) && !mk.contains_key(ids[k]),
    ensures
        resolve_forest(ids, m, fuel) == Err::<(Seq<NodeTree>, Map<i32, FsNode>), LoadError>(LoadError::CannotResolve(ids[k])),
{
    let p = ids.take(k + 1);
    assert(p.drop_last() =~= ids.take(k));
    assert(p.last() == ids[k]);
    let (tk, mk) = resolve_forest(ids.take(k), m, fuel)->Ok_0;
    assert(resolve_tree(ids[k], mk, fuel) == Err::<(NodeTree, Map<i32, FsNode>), LoadError>(LoadError::CannotResolve(ids[k])));
    assert(resolve_forest(p, m, fuel) == Err::<(Seq<NodeTree>, Map<i32, FsNode>), LoadError>(LoadError::CannotResolve(ids[k])));
    lemma_forest_prefix_err(ids, m, fuel, k + 1);
}

/// A reference to a node that is not in the pool (one never loaded, or
/// one already taken out by an ancestor or an earlier sibling) makes
/// resolving a sequence of nodes fail with `CannotResolve`.
pub proof fn lemma_missing_reference_fails(ids: Seq<i32>, m: Map<i32, FsNode>, fuel: nat, k: int)
    requires
        m.dom().finite(),
        0 <= k < ids.len(),
        !m.contains_key(ids[k]),
    ensures
        resolve_forest(ids, m, fuel) matches Err(e) && e is CannotResolve,
{
    lemma_resolve_forest_errors(ids.take(k), m, fuel);
    lemma_prefix_pool_shrinks(ids, m, fuel, 0, k);
    assert(ids.take(0) =~= Seq::<i32>::empty());
    match resolve_forest(ids.take(k), m, fuel) {
        Err(e) => {
            lemma_forest_prefix_err(ids, m, fuel, k);
        },
        Ok((tk, mk)) => {
            lemma_stuck_at(ids, m, fuel, k);
        },
    }
}

/// A node that lists itself among its children cannot be resolved: it is
/// out of the pool by the time its children are resolved.
pub proof fn lemma_self_reference_fails(id: i32, m: Map<i32, FsNode>, fuel: nat)
    requires
        m.dom().finite(),
        m.contains_key(id),
        m[id].children matches Some(c) && c.0@.contains(id),
    ensures
        resolve_tree(id, m, fuel) matches Err(e) && e is CannotResolve,
{
    if fuel > 0 {
        if let Some(blob) = m[id].children {
            let c = blob.0@;
            let k = choose|k: int| 0 <= k < c.len() && c[k] == id;
            lemma_missing_reference_fails(c, m.remove(id), (fuel - 1) as nat, k);
        }
    }
}

/// A node referenced twice in one list of children cannot be resolved
/// twice: the first reference takes it out of the pool, so the list fails
/// with `CannotResolve`.
pub proof fn lemma_reference_twice_fails(ids: Seq<i32>, m: Map<i32, FsNode>, fuel: nat, i: int, j: int)
    requires
        m.dom().finite(),
        0 <= i < j < ids.len(),
        ids[i] == ids[j],
    ensures
        resolve_forest(ids, m, fuel) matches Err(e) && e is CannotResolve,
{
    lemma_resolve_forest_errors(ids.take(j), m, fuel);
    lemma_prefix_pool_shrinks(ids, m, fuel, i + 1, j);
    lemma_prefix_pool_shrinks(ids, m, fuel, i, i);
    match resolve_forest(ids.take(j), m, fuel) {
        Err(e) => {
            lemma_forest_prefix_err(ids, m, fuel, j);
        },
        Ok((tj, mj)) => {
            assert(ids.take(i + 1).drop_last() =~= ids.take(i));
            assert(ids.take(i + 1).last() == ids[i]);
            let (ti, mi) = resolve_forest(ids.take(i), m, fuel)->Ok_0;
            lemma_resolve_tree_takes(ids[i], mi, fuel);
            lemma_stuck_at(ids, m, fuel, j);
        },
    }
}

/// The child numbers that node `id` of the pool `m` lists (none for a node
/// not in the pool or without children).
pub open spec fn listed(m: Map<i32, FsNode>, id: i32) -> Seq<i32> {
    if m.contains_key(id) {
        match m[id].children {
            Some(c) => c.0@,
            None => seq![],
        }
    } else {
        seq![]
    }
}

/// The node reached from `id` in `m` by taking, at each step, the child at
/// the next position of `p`; `None` where a position names no child.
pub open spec fn follow(m: Map<i32, FsNode>, id: i32, p: Seq<int>) -> Option<i32>
    decreases p.len(),
{
    if p.len() == 0 {
        Some(id)
    } else if 0 <= p[0] < listed(m, id).len() {
        follow(m, listed(m, id)[p[0]], p.drop_first())
    } else {
        None
    }
}

/// Every node of `p` is in `m`, with the same value.
pub open spec fn within(p: Map<i32, FsNode>, m: Map<i32, FsNode>) -> bool {
    forall|k: i32| #[trigger] p.contains_key(k) ==> m.contains_key(k) && m[k] == p[k]
}

/// A node reached (if any) was in `pool` and is not in `rest`.
pub open spec fn taken(pool: Map<i32, FsNode>, rest: Map<i32, FsNode>, o: Option<i32>) -> bool {
    o matches Some(x) ==> pool.contains_key(x) && !rest.contains_key(x)
}

/// What resolving node `id` out of `pool` says of the references of `m`
/// below `id`, when it succeeds: every node reached is taken out of the
/// pool, and no two different ways reach the same node.
pub open spec fn tree_paths_taken(id: i32, pool: Map<i32, FsNode>, m: Map<i32, FsNode>, fuel: nat) -> bool {
    resolve_tree(id, pool, fuel) matches Ok((t, rest)) ==> {
        &&& within(rest, pool)
        &&& forall|p: Seq<int>| taken(pool, rest, #[trigger] follow(m, id, p))
        &&& forall|p1: Seq<int>, p2: Seq<int>| p1 != p2 && #[trigger] follow(m, id, p1) is Some
            && follow(m, id, p1) == #[trigger] follow(m, id, p2) ==> false
    }
}

/// The same for resolving the nodes `ids` in order: a way is a position in
/// `ids` followed by positions of children.
pub open spec fn forest_paths_taken(ids: Seq<i32>, pool: Map<i32, FsNode>, m: Map<i32, FsNode>, fuel: nat) -> bool {
    resolve_forest(ids, pool, fuel) matches Ok((ts, rest)) ==> {
        &&& within(rest, pool)
        &&& forall|j: int, q: Seq<int>| 0 <= j < ids.len() ==> taken(pool, rest, #[trigger] follow(m, ids[j], q))
        &&& forall|j1: int, q1: Seq<int>, j2: int, q2: Seq<int>|
            0 <= j1 < ids.len() && 0 <= j2 < ids.len() && (j1 != j2 || q1 != q2)
            && #[trigger] follow(m, ids[j1], q1) is Some
            && follow(m, ids[j1], q1) == #[trigger] follow(m, ids[j2], q2) ==> false
    }
}

proof fn lemma_tree_paths(id: i32, pool: Map<i32, FsNode>, m: Map<i32, FsNode>, fuel: nat)
    requires
        within(pool, m),
    ensures
        tree_paths_taken(id, pool, m, fuel),
    decreases fuel, 0nat,
{
    if pool.contains_key(id) && fuel > 0 {
        let n = pool[id];
        let rest = pool.remove(id);
        assert(m[id] == n);
        assert(within(rest, m));
        match n.children {
            None => {
                assert(listed(m, id).len() == 0);
                assert forall|p: Seq<int>| #[trigger] follow(m, id, p) is Some implies p.len() == 0 by {}
                assert(within(rest, pool));
                assert(resolve_tree(id, pool, fuel) == Ok::<(NodeTree, Map<i32, FsNode>), LoadError>((node_tree(n, None), rest)));
                assert forall|p: Seq<int>| taken(pool, rest, #[trigger] follow(m, id, p)) by {
                    if follow(m, id, p) is Some {
                        assert(p.len() == 0);
                    }
                }
                assert forall|p1: Seq<int>, p2: Seq<int>| p1 != p2 && #[trigger] follow(m, id, p1) is Some
                    && follow(m, id, p1) == #[trigger] follow(m, id, p2) implies false by {
                    assert(p1.len() == 0 && p2.len() == 0);
                    assert(p1 =~= p2);
                }
            },
            Some(c) => {
                let cs = c.0@;
                assert(listed(m, id) == cs);
                lemma_forest_paths(cs, rest, m, (fuel - 1) as nat);
                if let Ok((ts, rest2)) = resolve_forest(cs, rest, (fuel - 1) as nat) {
                    assert(within(rest2, pool)) by {
                        assert forall|k: i32| #[trigger] rest2.contains_key(k) implies pool.contains_key(k) && pool[k] == rest2[k] by {
                            assert(rest.contains_key(k));
                        }
                    }
                    assert forall|p: Seq<int>| taken(pool, rest2, #[trigger] follow(m, id, p)) by {
                        if follow(m, id, p) is Some {
                            if p.len() > 0 {
                                assert(0 <= p[0] < cs.len());
                                assert(follow(m, id, p) == follow(m, cs[p[0]], p.drop_first()));
                                assert(taken(rest, rest2, follow(m, cs[p[0]], p.drop_first())));
                            } else {
                                if rest2.contains_key(id) {
                                    assert(rest.contains_key(id));
                                }
                            }
                        }
                    }
                    assert forall|p1: Seq<int>, p2: Seq<int>| p1 != p2 && #[trigger] follow(m, id, p1) is Some
                        && follow(m, id, p1) == #[trigger] follow(m, id, p2) implies false by {
                        if p1.len() == 0 && p2.len() == 0 {
                            assert(p1 =~= p2);
                        } else if p1.len() == 0 {
                            assert(follow(m, id, p2) == follow(m, cs[p2[0]], p2.drop_first()));
                        } else if p2.len() == 0 {
                            assert(follow(m, id, p1) == follow(m, cs[p1[0]], p1.drop_first()));
                        } else {
                            assert(follow(m, id, p1) == follow(m, cs[p1[0]], p1.drop_first()));
                            assert(follow(m, id, p2) == follow(m, cs[p2[0]], p2.drop_first()));
                            if p1[0] == p2[0] && p1.drop_first() == p2.drop_first() {
                                assert(p1 =~= seq![p1[0]] + p1.drop_first());
                                assert(p2 =~= seq![p2[0]] + p2.drop_first());
                            }
                        }
                    }
                }
            },
        }
    }
}

proof fn lemma_forest_paths(ids: Seq<i32>, pool: Map<i32, FsNode>, m: Map<i32, FsNode>, fuel: nat)
    requires
        within(pool, m),
    ensures
        forest_paths_taken(ids, pool, m, fuel),
    decreases fuel, ids.len() + 1,
{
    if ids.len() > 0 {
        let init = ids.drop_last();
        let c = ids.last();
        lemma_forest_paths(init, pool, m, fuel);
        if let Ok((ts, p1)) = resolve_forest(init, pool, fuel) {
            assert(within(p1, m)) by {
                assert forall|k: i32| #[trigger] p1.contains_key(k) implies m.contains_key(k) && m[k] == p1[k] by {
                    assert(pool.contains_key(k));
                }
            }
            lemma_tree_paths(c, p1, m, fuel);
            if let Ok((t, p2)) = resolve_tree(c, p1, fuel) {
                assert(within(p2, pool)) by {
                    assert forall|k: i32| #[trigger] p2.contains_key(k) implies pool.contains_key(k) && pool[k] == p2[k] by {
                        assert(p1.contains_key(k));
                    }
                }
                assert forall|j: int, q: Seq<int>| 0 <= j < ids.len() implies taken(pool, p2, #[trigger] follow(m, ids[j], q)) by {
                    if j < ids.len() - 1 {
                        assert(ids[j] == init[j]);
                        assert(taken(pool, p1, follow(m, init[j], q)));
                        if follow(m, ids[j], q) is Some {
                            let x = follow(m, ids[j], q)->0;
                            if p2.contains_key(x) {
                                assert(p1.contains_key(x));
                            }
                        }
                    } else {
                        assert(ids[j] == c);
                    }
                }
                assert forall|j1: int, q1: Seq<int>, j2: int, q2: Seq<int>|
                    0 <= j1 < ids.len() && 0 <= j2 < ids.len() && (j1 != j2 || q1 != q2)
                    && #[trigger] follow(m, ids[j1], q1) is Some
                    && follow(m, ids[j1], q1) == #[trigger] follow(m, ids[j2], q2) implies false by {
                    let x = follow(m, ids[j1], q1)->0;
                    let last = ids.len() - 1;
                    if j1 < last && j2 < last {
                        assert(ids[j1] == init[j1]);
                        assert(ids[j2] == init[j2]);
                    } else if j1 == last && j2 == last {
                        assert(ids[j1] == c);
                    } else if j1 < last {
                        assert(ids[j1] == init[j1]);
                        assert(ids[j2] == c);
                        assert(!p1.contains_key(x));
                        assert(p1.contains_key(x));
                    } else {
                        assert(ids[j2] == init[j2]);
                        assert(ids[j1] == c);
                        assert(!p1.contains_key(x));
                        assert(p1.contains_key(x));
                    }
                }
            }
        }
    }
}

/// Two different ways down from a node that reach the same stored node (a
/// node listed by two folders, listed twice by one, or a cycle, which can
/// be gone round once more) make resolving the node fail: each way would
/// take that node out of the pool.
pub proof fn lemma_two_ways_fail(id: i32, m: Map<i32, FsNode>, fuel: nat, p1: Seq<int>, p2: Seq<int>)
    requires
        p1 != p2,
        follow(m, id, p1) is Some,
        follow(m, id, p1) == follow(m, id, p2),
    ensures
        resolve_tree(id, m, fuel) is Err,
{
    lemma_tree_paths(id, m, m, fuel);
}

/// The same for a list of nodes resolved in order: two different ways
/// down from the list (a position in it, then positions of children) that
/// reach the same stored node make resolving the list fail.
pub proof fn lemma_two_ways_fail_in_list(
    ids: Seq<i32>,
    m: Map<i32, FsNode>,
    fuel: nat,
    j1: int,
    q1: Seq<int>,
    j2: int,
    q2: Seq<int>,
)
    requires
        0 <= j1 < ids.len(),
        0 <= j2 < ids.len(),
        j1 != j2 || q1 != q2,
        follow(m, ids[j1], q1) is Some,
        follow(m, ids[j1], q1) == follow(m, ids[j2], q2),
    ensures
        resolve_forest(ids, m, fuel) is Err,
{
    lemma_forest_paths(ids, m, m, fuel);
}

/// Loading a scrapbook whose root lists children fails when two different
/// ways down from the root's list reach the same stored node: a node under
/// two folders, listed twice, or on a cycle.
pub proof fn lemma_loading_fails_on_two_ways(nodes: Seq<FsNode>, j1: int, q1: Seq<int>, j2: int, q2: Seq<int>)
    requires
        nodes.len() > 0,
        nodes[0].children matches Some(c) && {
            let pool = pool_of(nodes.drop_first());
            &&& 0 <= j1 < c.0@.len()
            &&& 0 <= j2 < c.0@.len()
            &&& (j1 != j2 || q1 != q2)
            &&& follow(pool, c.0@[j1], q1) is Some
            &&& follow(pool, c.0@[j1], q1) == follow(pool, c.0@[j2], q2)
        },
    ensures
        scrapbook_tree_of(nodes) is Err,
{
    let c = nodes[0].children->0;
    let pool = pool_of(nodes.drop_first());
    lemma_two_ways_fail_in_list(c.0@, pool, pool.len(), j1, q1, j2, q2);
}

} // verus!
