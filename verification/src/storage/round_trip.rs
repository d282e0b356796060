//! Storing a read index and loading it back: when every node of the index
//! is listed in at most one folder and no folder contains itself, the tree
//! rebuilt from the stored rows is the index's folder tree.
use vstd::prelude::*;
use crate::parser::graph::RdfGraph;
use crate::storage::node_mapper::{RemappedNode, remap_fits, is_root_node, is_remapped, shifted};
use crate::storage::loader::{FsNode, NodeTree, node_tree, resolve_tree, resolve_forest, pool_of, scrapbook_tree_of};

verus! {

/// The row that loading gives back for a stored node.
pub open spec fn loaded_form(r: RemappedNode) -> FsNode {
    FsNode {
        id: r.id,
        rdf_id: r.rdf_id,
        type_: r.type_,
        title: r.title,
        source: r.source,
        icon: r.icon,
        comment: r.comment,
        encoding: r.encoding,
        marked: r.marked,
        locked: r.locked,
        created: r.created,
        modified: r.modified,
        children: r.children,
    }
}

/// The positions that node `k` lists as its children (none when it is not
/// a folder).
pub open spec fn child_list(g: RdfGraph, k: int) -> Seq<i32> {
    match g.nodes@[k].children {
        Some(c) => c@,
        None => seq![],
    }
}

/// Node `x` is the `i`-th entry of the folder `p` (`None`: the root).
pub open spec fn listed_at(g: RdfGraph, x: int, p: Option<int>, i: int) -> bool {
    match p {
        None => 0 <= i < g.root@.len() && g.root@[i] == x,
        Some(q) => 0 <= q < g.nodes@.len() && 0 <= i < child_list(g, q).len() && child_list(g, q)[i] == x,
    }
}

/// The folders of `g` form a forest: every listed position designates a
/// node, every node is listed at most once, and `rank` decreases from each
/// folder to its children.
pub open spec fn nested(g: RdfGraph, rank: Seq<nat>) -> bool {
    &&& rank.len() == g.nodes@.len()
    &&& forall|i: int| 0 <= i < g.root@.len() ==> 0 <= #[trigger] g.root@[i] < g.nodes@.len()
    &&& forall|k: int, i: int| 0 <= k < g.nodes@.len() && 0 <= i < child_list(g, k).len() ==> {
        &&& 0 <= #[trigger] child_list(g, k)[i] < g.nodes@.len()
        &&& rank[child_list(g, k)[i] as int] < rank[k]
    }
    &&& forall|x: int, p1: Option<int>, i1: int, p2: Option<int>, i2: int|
        #[trigger] listed_at(g, x, p1, i1) && #[trigger] listed_at(g, x, p2, i2) ==> p1 == p2 && i1 == i2
}

/// The entries of `l` designate nodes of rank below `bound`.
pub open spec fn list_below(g: RdfGraph, rank: Seq<nat>, l: Seq<i32>, bound: nat) -> bool {
    forall|i: int| 0 <= i < l.len() ==> 0 <= #[trigger] l[i] < g.nodes@.len() && rank[l[i] as int] < bound
}

/// The positions in the subtree of node `k`.
pub open spec fn subtree(g: RdfGraph, rank: Seq<nat>, k: int) -> Set<int>
    decreases rank[k] + 1, 0nat,
    when nested(g, rank) && 0 <= k < g.nodes@.len()
{
    set![k].union(subtrees(g, rank, child_list(g, k), rank[k]))
}

/// The positions in the subtrees of the nodes `l`.
pub open spec fn subtrees(g: RdfGraph, rank: Seq<nat>, l: Seq<i32>, bound: nat) -> Set<int>
    decreases bound, l.len() + 1,
    when nested(g, rank) && list_below(g, rank, l, bound)
{
    if l.len() == 0 {
        Set::empty()
    } else {
        subtrees(g, rank, l.drop_last(), bound).union(subtree(g, rank, l.last() as int))
    }
}


/// The tree that loading should rebuild for node `k`, over the stored rows
/// `v` (node `k` is row `k + 1`).
pub open spec fn tree_at(g: RdfGraph, rank: Seq<nat>, v: Seq<RemappedNode>, k: int) -> NodeTree
    decreases rank[k] + 1, 0nat,
    when nested(g, rank) && 0 <= k < g.nodes@.len()
{
    node_tree(loaded_form(v[k + 1]), match g.nodes@[k].children {
        Some(c) => Some(forest_at(g, rank, v, child_list(g, k), rank[k])),
        None => None,
    })
}

/// The trees that loading should rebuild for the nodes `l`.
pub open spec fn forest_at(g: RdfGraph, rank: Seq<nat>, v: Seq<RemappedNode>, l: Seq<i32>, bound: nat) -> Seq<NodeTree>
    decreases bound, l.len() + 1,
    when nested(g, rank) && list_below(g, rank, l, bound)
{
    if l.len() == 0 {
        seq![]
    } else {
        forest_at(g, rank, v, l.drop_last(), bound).push(tree_at(g, rank, v, l.last() as int))
    }
}

/// The pool of loaded rows of the nodes at positions `u`, by number.
pub open spec fn pool_from(v: Seq<RemappedNode>, r: int, u: Set<int>) -> Map<i32, FsNode> {
    Map::new(|id: i32| u.contains(id - r - 1), |id: i32| loaded_form(v[id - r]))
}

/// The positions `0 .. m`.
pub open spec fn first_positions(m: int) -> Set<int> {
    Set::new(|x: int| 0 <= x < m)
}

/// `v` is what [`remap`](crate::storage::node_mapper::remap) makes of `g`
/// from `r` on success.
pub open spec fn remapped(g: RdfGraph, r: int, v: Seq<RemappedNode>) -> bool {
    &&& v.len() == g.nodes@.len() + 1
    &&& is_root_node(v[0], r, shifted(g.root@, r + 1))
    &&& forall|k: int| 0 <= k < g.nodes@.len() ==>
        is_remapped(#[trigger] v[k + 1], g.nodes@[k], r + 1 + k, r + 1)
}

proof fn lemma_subtrees_members(g: RdfGraph, rank: Seq<nat>, l: Seq<i32>, bound: nat)
    requires
        nested(g, rank),
        list_below(g, rank, l, bound),
    ensures
        forall|x: int| #[trigger] subtrees(g, rank, l, bound).contains(x) <==>
            exists|i: int| 0 <= i < l.len() && subtree(g, rank, l[i] as int).contains(x),
    decreases l.len(),
{
    if l.len() > 0 {
        let init = l.drop_last();
        lemma_subtrees_members(g, rank, init, bound);
        assert forall|x: int| #[trigger] subtrees(g, rank, l, bound).contains(x) <==>
            exists|i: int| 0 <= i < l.len() && subtree(g, rank, l[i] as int).contains(x) by {
            assert(subtrees(g, rank, l, bound) == subtrees(g, rank, init, bound).union(subtree(g, rank, l.last() as int)));
            if subtrees(g, rank, l, bound).contains(x) {
                if subtree(g, rank, l.last() as int).contains(x) {
                    assert(subtree(g, rank, l[l.len() - 1] as int).contains(x));
                } else {
                    assert(subtrees(g, rank, init, bound).contains(x));
                    let i = choose|i: int| 0 <= i < init.len() && subtree(g, rank, init[i] as int).contains(x);
                    assert(l[i] == init[i]);
                }
            }
            if exists|i: int| 0 <= i < l.len() && subtree(g, rank, l[i] as int).contains(x) {
                let i = choose|i: int| 0 <= i < l.len() && subtree(g, rank, l[i] as int).contains(x);
                if i < init.len() {
                    assert(init[i] == l[i]);
                }
            }
        }
    }
}

proof fn lemma_subtree_ranks(g: RdfGraph, rank: Seq<nat>, k: int)
    requires
        nested(g, rank),
        0 <= k < g.nodes@.len(),
    ensures
        forall|x: int| #[trigger] subtree(g, rank, k).contains(x) ==>
            0 <= x < g.nodes@.len() && rank[x] <= rank[k] && (x != k ==> rank[x] < rank[k]),
    decreases rank[k],
{
    lemma_subtrees_members(g, rank, child_list(g, k), rank[k]);
    assert(subtree(g, rank, k) == set![k].union(subtrees(g, rank, child_list(g, k), rank[k])));
    assert forall|x: int| #[trigger] subtree(g, rank, k).contains(x) implies
        0 <= x < g.nodes@.len() && rank[x] <= rank[k] && (x != k ==> rank[x] < rank[k]) by {
        if x != k {
            assert(subtrees(g, rank, child_list(g, k), rank[k]).contains(x));
            let i = choose|i: int| 0 <= i < child_list(g, k).len() && subtree(g, rank, child_list(g, k)[i] as int).contains(x);
            assert(0 <= child_list(g, k)[i] < g.nodes@.len() && rank[child_list(g, k)[i] as int] < rank[k]);
            lemma_subtree_ranks(g, rank, child_list(g, k)[i] as int);
        }
    }
}

proof fn lemma_lister(g: RdfGraph, rank: Seq<nat>, k: int, x: int)
    requires
        nested(g, rank),
        0 <= k < g.nodes@.len(),
        subtree(g, rank, k).contains(x),
        x != k,
    ensures
        exists|p: int, i: int| subtree(g, rank, k).contains(p) && #[trigger] listed_at(g, x, Some(p), i),
    decreases rank[k],
{
    lemma_subtrees_members(g, rank, child_list(g, k), rank[k]);
    assert(subtree(g, rank, k) == set![k].union(subtrees(g, rank, child_list(g, k), rank[k])));
    assert(subtrees(g, rank, child_list(g, k), rank[k]).contains(x));
    let i = choose|i: int| 0 <= i < child_list(g, k).len() && subtree(g, rank, child_list(g, k)[i] as int).contains(x);
    let ci = child_list(g, k)[i] as int;
    assert(0 <= child_list(g, k)[i] < g.nodes@.len() && rank[child_list(g, k)[i] as int] < rank[k]);
    if x == ci {
        assert(listed_at(g, x, Some(k), i));
        assert(subtree(g, rank, k).contains(k));
    } else {
        lemma_lister(g, rank, ci, x);
        let (p, j) = choose|p: int, j: int| subtree(g, rank, ci).contains(p) && #[trigger] listed_at(g, x, Some(p), j);
        assert(subtrees(g, rank, child_list(g, k), rank[k]).contains(p));
        assert(listed_at(g, x, Some(p), j));
    }
}

proof fn lemma_chain(g: RdfGraph, rank: Seq<nat>, x: int, a: int, b: int)
    requires
        nested(g, rank),
        0 <= a < g.nodes@.len(),
        0 <= b < g.nodes@.len(),
        subtree(g, rank, a).contains(x),
        subtree(g, rank, b).contains(x),
    ensures
        subtree(g, rank, b).contains(a) || subtree(g, rank, a).contains(b),
    decreases rank[a] - rank[x],
{
    lemma_subtree_ranks(g, rank, a);
    if x != a && x != b {
        lemma_lister(g, rank, a, x);
        lemma_lister(g, rank, b, x);
        let (p1, i1) = choose|p: int, i: int| subtree(g, rank, a).contains(p) && #[trigger] listed_at(g, x, Some(p), i);
        let (p2, i2) = choose|p: int, i: int| subtree(g, rank, b).contains(p) && #[trigger] listed_at(g, x, Some(p), i);
        assert(listed_at(g, x, Some(p1), i1) && listed_at(g, x, Some(p2), i2));
        assert(p1 == p2);
        assert(child_list(g, p1)[i1] == x);
        assert(rank[x] < rank[p1]);
        lemma_chain(g, rank, p1, a, b);
    }
}

proof fn lemma_siblings_disjoint(g: RdfGraph, rank: Seq<nat>, p: Option<int>, a: int, i: int, b: int, j: int)
    requires
        nested(g, rank),
        listed_at(g, a, p, i),
        listed_at(g, b, p, j),
        i != j,
    ensures
        subtree(g, rank, a).disjoint(subtree(g, rank, b)),
{
    assert(0 <= a < g.nodes@.len() && 0 <= b < g.nodes@.len()) by {
        match p {
            None => {},
            Some(q) => {
                assert(child_list(g, q)[i] == a);
                assert(child_list(g, q)[j] == b);
            },
        }
    }
    if a == b {
        assert(listed_at(g, a, p, i) && listed_at(g, a, p, j));
    }
    assert forall|x: int| !(subtree(g, rank, a).contains(x) && subtree(g, rank, b).contains(x)) by {
        if subtree(g, rank, a).contains(x) && subtree(g, rank, b).contains(x) {
            lemma_chain(g, rank, x, a, b);
            if subtree(g, rank, b).contains(a) {
                lemma_no_ancestor_sibling(g, rank, p, a, i, b, j);
            } else {
                lemma_no_ancestor_sibling(g, rank, p, b, j, a, i);
            }
        }
    }
}

proof fn lemma_no_ancestor_sibling(g: RdfGraph, rank: Seq<nat>, p: Option<int>, a: int, i: int, b: int, j: int)
    requires
        nested(g, rank),
        listed_at(g, a, p, i),
        listed_at(g, b, p, j),
        a != b,
        0 <= b < g.nodes@.len(),
    ensures
        !subtree(g, rank, b).contains(a),
{
    if !subtree(g, rank, b).contains(a) {
        return;
    }
    lemma_lister(g, rank, b, a);
    let (q, k) = choose|q: int, k: int| subtree(g, rank, b).contains(q) && #[trigger] listed_at(g, a, Some(q), k);
    assert(listed_at(g, a, p, i) && listed_at(g, a, Some(q), k));
    assert(p == Some(q));
    lemma_subtree_ranks(g, rank, b);
    assert(child_list(g, q)[j] == b);
    assert(rank[b] < rank[q]);
}


proof fn lemma_pool_subset(v: Seq<RemappedNode>, r: int, u1: Set<int>, u: Set<int>)
    requires
        u1.subset_of(u),
        pool_from(v, r, u).dom().finite(),
    ensures
        pool_from(v, r, u1).dom().finite(),
        pool_from(v, r, u1).len() <= pool_from(v, r, u).len(),
{
    assert(pool_from(v, r, u1).dom().subset_of(pool_from(v, r, u).dom()));
    vstd::set_lib::lemma_len_subset(pool_from(v, r, u1).dom(), pool_from(v, r, u).dom());
}

/// Loading node `k` out of a pool that holds (at least) its subtree gives
/// its tree and leaves the pool without the subtree.
proof fn lemma_load_tree(g: RdfGraph, rank: Seq<nat>, r: int, v: Seq<RemappedNode>, k: int, u: Set<int>, fuel: nat)
    requires
        nested(g, rank),
        remap_fits(g, r),
        remapped(g, r, v),
        0 <= k < g.nodes@.len(),
        forall|x: int| #[trigger] u.contains(x) ==> 0 <= x < g.nodes@.len(),
        subtree(g, rank, k).subset_of(u),
        pool_from(v, r, u).dom().finite(),
        fuel >= pool_from(v, r, u).len(),
    ensures
        resolve_tree(v[k + 1].id, pool_from(v, r, u), fuel)
            == Ok::<(NodeTree, Map<i32, FsNode>), crate::storage::loader::LoadError>(
                (tree_at(g, rank, v, k), pool_from(v, r, u.difference(subtree(g, rank, k))))),
    decreases rank[k] + 1, 0nat,
{
    let p = pool_from(v, r, u);
    assert(is_remapped(v[k + 1], g.nodes@[k], r + 1 + k, r + 1));
    let id = v[k + 1].id;
    assert(id - r - 1 == k);
    assert(subtree(g, rank, k) == set![k].union(subtrees(g, rank, child_list(g, k), rank[k])));
    assert(subtree(g, rank, k).contains(k));
    assert(p.contains_key(id));
    assert(p.dom().contains(id));
    assert(p.len() >= 1);
    assert(p[id] == loaded_form(v[k + 1]));
    let rest = p.remove(id);
    let u1 = u.remove(k);
    assert(rest =~= pool_from(v, r, u1));
    assert(rest.len() == p.len() - 1);
    match g.nodes@[k].children {
        None => {
            assert(child_list(g, k) =~= Seq::<i32>::empty());
            assert(subtrees(g, rank, child_list(g, k), rank[k]) =~= Set::<int>::empty());
            assert(u.difference(subtree(g, rank, k)) =~= u1);
        },
        Some(c) => {
            let l = child_list(g, k);
            assert(l == c@);
            lemma_subtrees_members(g, rank, l, rank[k]);
            lemma_subtree_ranks(g, rank, k);
            assert(list_below(g, rank, l, rank[k]));
            assert forall|i: int| 0 <= i < l.len() implies subtree(g, rank, #[trigger] l[i] as int).subset_of(u1) by {
                assert forall|x: int| subtree(g, rank, l[i] as int).contains(x) implies u1.contains(x) by {
                    assert(subtrees(g, rank, l, rank[k]).contains(x));
                    lemma_subtree_ranks(g, rank, l[i] as int);
                    assert(rank[l[i] as int] < rank[k]);
                }
            }
            assert forall|i: int, j: int| 0 <= i < l.len() && 0 <= j < l.len() && i != j implies
                subtree(g, rank, #[trigger] l[i] as int).disjoint(subtree(g, rank, #[trigger] l[j] as int)) by {
                assert(listed_at(g, l[i] as int, Some(k), i));
                assert(listed_at(g, l[j] as int, Some(k), j));
                lemma_siblings_disjoint(g, rank, Some(k), l[i] as int, i, l[j] as int, j);
            }
            assert forall|x: int| #[trigger] u1.contains(x) implies 0 <= x < g.nodes@.len() by {}
            lemma_load_forest(g, rank, r, v, l, rank[k], u1, (fuel - 1) as nat);
            assert(u1.difference(subtrees(g, rank, l, rank[k])) =~= u.difference(subtree(g, rank, k)));
        },
    }
}

/// Loading the nodes `l`, whose subtrees are disjoint and held by the
/// pool, gives their trees in order and leaves the pool without them.
proof fn lemma_load_forest(g: RdfGraph, rank: Seq<nat>, r: int, v: Seq<RemappedNode>, l: Seq<i32>, bound: nat, u: Set<int>, fuel: nat)
    requires
        nested(g, rank),
        remap_fits(g, r),
        remapped(g, r, v),
        list_below(g, rank, l, bound),
        forall|i: int| 0 <= i < l.len() ==> subtree(g, rank, #[trigger] l[i] as int).subset_of(u),
        forall|i: int, j: int| 0 <= i < l.len() && 0 <= j < l.len() && i != j ==>
            subtree(g, rank, #[trigger] l[i] as int).disjoint(subtree(g, rank, #[trigger] l[j] as int)),
        forall|x: int| #[trigger] u.contains(x) ==> 0 <= x < g.nodes@.len(),
        pool_from(v, r, u).dom().finite(),
        fuel >= pool_from(v, r, u).len(),
    ensures
        resolve_forest(shifted(l, r + 1), pool_from(v, r, u), fuel)
            == Ok::<(Seq<NodeTree>, Map<i32, FsNode>), crate::storage::loader::LoadError>(
                (forest_at(g, rank, v, l, bound), pool_from(v, r, u.difference(subtrees(g, rank, l, bound))))),
    decreases bound, l.len() + 1,
{
    let ids = shifted(l, r + 1);
    if l.len() == 0 {
        assert(ids =~= Seq::<i32>::empty());
        assert(u.difference(subtrees(g, rank, l, bound)) =~= u);
        assert(pool_from(v, r, u.difference(subtrees(g, rank, l, bound))) =~= pool_from(v, r, u));
    } else {
        let init = l.drop_last();
        let last = l.last() as int;
        assert(ids.drop_last() =~= shifted(init, r + 1));
        assert(list_below(g, rank, init, bound));
        assert forall|i: int| 0 <= i < init.len() implies subtree(g, rank, #[trigger] init[i] as int).subset_of(u) by {
            assert(init[i] == l[i]);
        }
        assert forall|i: int, j: int| 0 <= i < init.len() && 0 <= j < init.len() && i != j implies
            subtree(g, rank, #[trigger] init[i] as int).disjoint(subtree(g, rank, #[trigger] init[j] as int)) by {
            assert(init[i] == l[i] && init[j] == l[j]);
        }
        lemma_load_forest(g, rank, r, v, init, bound, u, fuel);
        let s1 = subtrees(g, rank, init, bound);
        let u1 = u.difference(s1);
        lemma_subtrees_members(g, rank, init, bound);
        assert(0 <= l[l.len() - 1] < g.nodes@.len() && rank[l[l.len() - 1] as int] < bound);
        assert(is_remapped(v[last + 1], g.nodes@[last], r + 1 + last, r + 1));
        assert(ids.last() == v[last + 1].id);
        assert forall|x: int| subtree(g, rank, last).contains(x) implies u1.contains(x) by {
            assert(subtree(g, rank, l[l.len() - 1] as int).subset_of(u));
            if s1.contains(x) {
                let i = choose|i: int| 0 <= i < init.len() && subtree(g, rank, init[i] as int).contains(x);
                assert(init[i] == l[i]);
                assert(subtree(g, rank, l[i] as int).disjoint(subtree(g, rank, l[l.len() - 1] as int)));
            }
        }
        assert(u1.subset_of(u));
        lemma_pool_subset(v, r, u1, u);
        assert forall|x: int| #[trigger] u1.contains(x) implies 0 <= x < g.nodes@.len() by {}
        lemma_load_tree(g, rank, r, v, last, u1, fuel);
        assert(subtrees(g, rank, l, bound) == s1.union(subtree(g, rank, last)));
        assert(u1.difference(subtree(g, rank, last)) =~= u.difference(subtrees(g, rank, l, bound)));
        assert(forest_at(g, rank, v, l, bound) == forest_at(g, rank, v, init, bound).push(tree_at(g, rank, v, last)));
    }
}


proof fn lemma_pool_of_rows(g: RdfGraph, r: int, v: Seq<RemappedNode>, m: int)
    requires
        remap_fits(g, r),
        remapped(g, r, v),
        0 <= m <= g.nodes@.len(),
    ensures
        pool_of(v.map_values(|x: RemappedNode| loaded_form(x)).drop_first().take(m)) =~= pool_from(v, r, first_positions(m)),
        pool_of(v.map_values(|x: RemappedNode| loaded_form(x)).drop_first().take(m)).dom().finite(),
    decreases m,
{
    let rows = v.map_values(|x: RemappedNode| loaded_form(x)).drop_first();
    if m == 0 {
        assert(rows.take(0) =~= Seq::<FsNode>::empty());
        assert(pool_from(v, r, first_positions(0)) =~= Map::<i32, FsNode>::empty());
    } else {
        lemma_pool_of_rows(g, r, v, m - 1);
        assert(rows.take(m).drop_last() =~= rows.take(m - 1));
        assert(rows.take(m).last() == loaded_form(v[m]));
        assert(is_remapped(v[(m - 1) + 1], g.nodes@[m - 1], r + 1 + (m - 1), r + 1));
        assert(pool_from(v, r, first_positions(m)) =~= pool_from(v, r, first_positions(m - 1)).insert(v[m].id, loaded_form(v[m])));
    }
}

/// Storing a read index and loading it back gives its folder tree: when the
/// folders of `g` form a forest (see [`nested`], with ranks below `bound`),
/// the tree rebuilt from the rows that numbering from `r` produced, root
/// row first, is the tree of the root folder's entries.
pub proof fn lemma_store_then_load(g: RdfGraph, r: int, v: Seq<RemappedNode>, rank: Seq<nat>, bound: nat)
    requires
        remap_fits(g, r),
        remapped(g, r, v),
        nested(g, rank),
        forall|k: int| 0 <= k < rank.len() ==> #[trigger] rank[k] < bound,
    ensures
        scrapbook_tree_of(v.map_values(|x: RemappedNode| loaded_form(x)))
            == Ok::<Option<Seq<NodeTree>>, crate::storage::loader::LoadError>(Some(forest_at(g, rank, v, g.root@, bound))),
{
    let nodes = v.map_values(|x: RemappedNode| loaded_form(x));
    let n = g.nodes@.len() as int;
    lemma_pool_of_rows(g, r, v, n);
    let rows = nodes.drop_first();
    assert(rows.take(n) =~= rows);
    let pool = pool_of(rows);
    let all = first_positions(n);
    assert(pool =~= pool_from(v, r, all));
    assert(nodes[0] == loaded_form(v[0]));
    let l = g.root@;
    assert(list_below(g, rank, l, bound));
    assert forall|i: int| 0 <= i < l.len() implies subtree(g, rank, #[trigger] l[i] as int).subset_of(all) by {
        lemma_subtree_ranks(g, rank, l[i] as int);
    }
    assert forall|i: int, j: int| 0 <= i < l.len() && 0 <= j < l.len() && i != j implies
        subtree(g, rank, #[trigger] l[i] as int).disjoint(subtree(g, rank, #[trigger] l[j] as int)) by {
        assert(listed_at(g, l[i] as int, None, i));
        assert(listed_at(g, l[j] as int, None, j));
        lemma_siblings_disjoint(g, rank, None, l[i] as int, i, l[j] as int, j);
    }
    assert forall|x: int| #[trigger] all.contains(x) implies 0 <= x < g.nodes@.len() by {}
    lemma_load_forest(g, rank, r, v, l, bound, all, pool.len());
}

} // verus!
