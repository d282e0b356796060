//! Giving the nodes of a read index their database numbers: the root folder
//! gets a chosen number and node `k` the number right after it plus `k`,
//! and every reference between nodes is renumbered the same way.
use vstd::prelude::*;
use crate::parser::graph::RdfGraph;
use crate::parser::description::{RdfNode, opt_str_view};
use crate::storage::types::{NodeType, stored_type};
use crate::storage::blob::BlobVecI32;
use crate::types::ResolveError;
use crate::types::icon::{UnresolvedIcon, icon_path};
use crate::types::time::{UnresolvedTime, WallClock, LocalConversion, zone_total, zone_answers, instant_of, time_fails, converted};

verus! {

/// Conversion of an icon into the path stored for a node.
pub trait ConvertIconPath {
    fn into_icon_path(self, node_id: i32) -> String;
}

impl ConvertIconPath for UnresolvedIcon {
    fn into_icon_path(self, node_id: i32) -> (r: String)
        ensures
            r@ == icon_path(self@, node_id as int),
    {
        self.to_icon_path(node_id)
    }
}

/// Conversion of a wall-clock time into the stored UTC time, in a time zone
/// given by its answers.
pub trait ConvertTime {
    fn local_to_utc<Z: Fn(WallClock) -> LocalConversion>(&self, zone: &Z) -> Result<WallClock, ResolveError>
        requires
            zone_total(*zone);
}

impl ConvertTime for UnresolvedTime {
    fn local_to_utc<Z: Fn(WallClock) -> LocalConversion>(&self, zone: &Z) -> (r: Result<WallClock, ResolveError>)
        ensures
            exists|a: LocalConversion| #[trigger] zone_answers(*zone, self.0, a) && r == instant_of(a),
    {
        self.resolve(zone)
    }
}

/// A node as the database stores it.
#[derive(Debug)]
pub struct RemappedNode {
    pub id: i32,
    pub is_root: bool,
    pub rdf_id: Option<String>,
    pub type_: Option<NodeType>,
    pub title: Option<String>,
    pub source: Option<String>,
    pub icon: Option<String>,
    pub comment: Option<String>,
    pub encoding: Option<String>,
    pub marked: Option<bool>,
    pub locked: Option<bool>,
    pub created: Option<WallClock>,
    pub modified: Option<WallClock>,
    pub children: Option<BlobVecI32>,
}

/// Positions shifted by `shift`.
pub open spec fn shifted(ids: Seq<i32>, shift: int) -> Seq<i32> {
    ids.map_values(|x: i32| (x + shift) as i32)
}

/// Every position, shifted by `shift`, still fits an `i32`.
pub open spec fn shift_fits(ids: Seq<i32>, shift: int) -> bool {
    forall|i: int| 0 <= i < ids.len() ==> i32::MIN <= #[trigger] ids[i] + shift <= i32::MAX
}

/// Adds `shift` to every position.
pub fn shift_ids(ids: Vec<i32>, shift: i32) -> (r: BlobVecI32)
    requires
        shift_fits(ids@, shift as int),
    ensures
        r.0@ == shifted(ids@, shift as int),
{
    let mut ids = ids;
    let ghost orig = ids@;
    let n = ids.len();
    let mut i: usize = 0;
    while i < n
        invariant
            n == orig.len(),
            ids@.len() == n,
            i <= n,
            shift_fits(orig, shift as int),
            forall|j: int| 0 <= j < i ==> #[trigger] ids@[j] == (orig[j] + shift) as i32,
            forall|j: int| i <= j < n ==> #[trigger] ids@[j] == orig[j],
        decreases n - i,
    {
        let x = ids[i];
        assert(x == orig[i as int]);
        ids.set(i, x + shift);
        i = i + 1;
    }
    assert(ids@ =~= shifted(orig, shift as int));
    ids.into()
}

/// An optional list of positions, as stored.
pub open spec fn opt_blob_view(o: Option<BlobVecI32>) -> Option<Seq<i32>> {
    match o {
        Some(b) => Some(b.0@),
        None => None,
    }
}

/// The stored root folder numbered `root_id`, listing `children`.
pub open spec fn is_root_node(r: RemappedNode, root_id: int, children: Seq<i32>) -> bool {
    &&& r.id == root_id
    &&& r.is_root
    &&& r.rdf_id is None && r.type_ is None && r.title is None && r.source is None
    &&& r.icon is None && r.comment is None && r.encoding is None
    &&& r.marked is None && r.locked is None && r.created is None && r.modified is None
    &&& opt_blob_view(r.children) == Some(children)
}

/// `r` is node `n` stored with number `node_id`, references shifted by
/// `shift`; its times are present exactly where `n` has them.
pub open spec fn is_remapped(r: RemappedNode, n: RdfNode, node_id: int, shift: int) -> bool {
    &&& r.id == node_id
    &&& !r.is_root
    &&& opt_str_view(r.rdf_id) == Some(n.rdf_id@)
    &&& r.type_ == Some(stored_type(n.type_))
    &&& opt_str_view(r.title) == opt_str_view(n.title)
    &&& opt_str_view(r.source) == opt_str_view(n.source)
    &&& opt_str_view(r.icon) == (match n.icon {
        Some(i) => Some(icon_path(i@, node_id)),
        None => None,
    })
    &&& opt_str_view(r.comment) == opt_str_view(n.comment)
    &&& opt_str_view(r.encoding) == opt_str_view(n.encoding)
    &&& r.marked == Some(n.marked)
    &&& r.locked == Some(n.locked)
    &&& (r.created is Some <==> n.created is Some)
    &&& (r.modified is Some <==> n.modified is Some)
    &&& opt_blob_view(r.children) == (match n.children {
        Some(c) => Some(shifted(c@, shift)),
        None => None,
    })
}

/// The stored times of `r` are those of `n` converted in `zone`: each from
/// the node's own time of the same kind.
pub open spec fn times_remapped<Z: Fn(WallClock) -> LocalConversion>(zone: Z, r: RemappedNode, n: RdfNode) -> bool {
    &&& converted(zone, n.created, r.created)
    &&& converted(zone, n.modified, r.modified)
}

/// The zone may fail to convert one of the times of `n`.
pub open spec fn node_time_fails<Z: Fn(WallClock) -> LocalConversion>(zone: Z, n: RdfNode) -> bool {
    time_fails(zone, n.created) || time_fails(zone, n.modified)
}

/// Numbering from `root_id` fits `i32` for all of the graph's nodes and
/// references.
pub open spec fn remap_fits(rdf: RdfGraph, root_id: int) -> bool {
    &&& root_id + 1 + rdf.nodes@.len() <= i32::MAX
    &&& rdf.nodes@.len() <= i32::MAX
    &&& shift_fits(rdf.root@, root_id + 1)
    &&& forall|k: int| 0 <= k < rdf.nodes@.len() ==> match #[trigger] rdf.nodes@[k].children {
        Some(c) => shift_fits(c@, root_id + 1),
        None => true,
    }
}

fn shift_fits_exec(ids: &Vec<i32>, shift: i32) -> (r: bool)
    ensures
        r == shift_fits(ids@, shift as int),
{
    let n = ids.len();
    let mut i: usize = 0;
    while i < n
        invariant
            n == ids@.len(),
            i <= n,
            forall|j: int| 0 <= j < i ==> i32::MIN <= #[trigger] ids@[j] + shift <= i32::MAX,
        decreases n - i,
    {
        let x = ids[i];
        if (x as i64) + (shift as i64) > i32::MAX as i64 || (x as i64) + (shift as i64) < i32::MIN as i64 {
            return false;
        }
        i = i + 1;
    }
    true
}

/// Tests whether numbering the graph's nodes from `root_id` fits `i32`
/// (see [`remap_fits`]), as [`remap`] requires.
pub fn remap_fits_check(rdf: &RdfGraph, root_id: i32) -> (r: bool)
    ensures
        r == remap_fits(*rdf, root_id as int),
{
    let n = rdf.nodes.len();
    if n > i32::MAX as usize || (root_id as i64) + 1 + (n as i64) > i32::MAX as i64 {
        return false;
    }
    let shift = root_id + 1;
    if !shift_fits_exec(&rdf.root, shift) {
        return false;
    }
    let mut k: usize = 0;
    while k < n
        invariant
            n == rdf.nodes@.len(),
            k <= n,
            shift == root_id + 1,
            forall|j: int| 0 <= j < k ==> match #[trigger] rdf.nodes@[j].children {
                Some(c) => shift_fits(c@, root_id + 1),
                None => true,
            },
        decreases n - k,
    {
        match &rdf.nodes[k].children {
            Some(c) => {
                if !shift_fits_exec(c, shift) {
                    return false;
                }
            },
            None => {},
        }
        k = k + 1;
    }
    true
}

/// Converts an optional wall-clock time to UTC in `zone`.
pub(crate) fn convert_time<Z: Fn(WallClock) -> LocalConversion>(time: Option<UnresolvedTime>, zone: &Z) -> (r: Result<Option<WallClock>, ResolveError>)
    requires
        zone_total(*zone),
    ensures
        match r {
            Ok(u) => converted(*zone, time, u),
            Err(e) => e is BadTimeConversion && time_fails(*zone, time),
        },
{
    match time {
        Some(t) => match t.local_to_utc(zone) {
            Ok(utc) => Ok(Some(utc)),
            Err(e) => Err(e),
        },
        None => Ok(None),
    }
}

fn remap_node<Z: Fn(WallClock) -> LocalConversion>(node: RdfNode, node_id: i32, id_shift: i32, zone: &Z) -> (r: Result<RemappedNode, ResolveError>)
    requires
        zone_total(*zone),
        match node.children {
            Some(c) => shift_fits(c@, id_shift as int),
            None => true,
        },
    ensures
        match r {
            Ok(m) => is_remapped(m, node, node_id as int, id_shift as int) && times_remapped(*zone, m, node),
            Err(e) => e is BadTimeConversion && node_time_fails(*zone, node),
        },
{
    let ghost n = node;
    let created = convert_time(node.created, zone)?;
    let modified = convert_time(node.modified, zone)?;
    let icon = match node.icon {
        Some(icon) => Some(icon.into_icon_path(node_id)),
        None => None,
    };
    let children = match node.children {
        Some(ids) => Some(shift_ids(ids, id_shift)),
        None => None,
    };
    Ok(RemappedNode {
        id: node_id,
        is_root: false,
        rdf_id: Some(node.rdf_id),
        type_: Some(node.type_.into()),
        title: node.title,
        source: node.source,
        icon,
        comment: node.comment,
        encoding: node.encoding,
        marked: Some(node.marked),
        locked: Some(node.locked),
        created,
        modified,
        children,
    })
}

/// Numbers the nodes of a read index for storage: the root folder becomes
/// node `root_id` listing the index's top-level entries, and node `k`
/// becomes node `root_id + 1 + k` with its references shifted alike, its
/// icon turned into a path under its new number and its times converted
/// from wall-clock time to UTC in `zone`. A time that the zone cannot map
/// to a single instant makes the whole numbering fail.
pub fn remap<Z: Fn(WallClock) -> LocalConversion>(rdf: RdfGraph, root_id: i32, zone: &Z) -> (r: Result<Vec<RemappedNode>, ResolveError>)
    requires
        remap_fits(rdf, root_id as int),
        zone_total(*zone),
    ensures
        match r {
            Ok(v) => {
                &&& v@.len() == rdf.nodes@.len() + 1
                &&& is_root_node(v@[0], root_id as int, shifted(rdf.root@, root_id + 1))
                &&& forall|k: int| 0 <= k < rdf.nodes@.len() ==>
                    is_remapped(#[trigger] v@[k + 1], rdf.nodes@[k], root_id + 1 + k, root_id + 1)
                &&& forall|k: int| 0 <= k < rdf.nodes@.len() ==>
                    times_remapped(*zone, #[trigger] v@[k + 1], rdf.nodes@[k])
            },
            Err(e) => e is BadTimeConversion
                && exists|k: int| 0 <= k < rdf.nodes@.len() && node_time_fails(*zone, #[trigger] rdf.nodes@[k]),
        },
{
    let id_shift = root_id + 1;
    let ghost nodes = rdf.nodes@;
    let mut new_nodes: Vec<RemappedNode> = Vec::new();
    new_nodes.push(RemappedNode {
        id: root_id,
        is_root: true,
        rdf_id: None,
        type_: None,
        title: None,
        source: None,
        icon: None,
        comment: None,
        encoding: None,
        marked: None,
        locked: None,
        created: None,
        modified: None,
        children: Some(shift_ids(rdf.root, id_shift)),
    });
    let mut local_id: usize = 0;
    for node in iter: rdf.nodes.into_iter()
        invariant
            id_shift == root_id + 1,
            root_id + 1 + nodes.len() <= i32::MAX,
            nodes.len() <= i32::MAX,
            iter.seq() == nodes,
            local_id == iter.index(),
            local_id <= nodes.len(),
            forall|k: int| 0 <= k < nodes.len() ==> match #[trigger] nodes[k].children {
                Some(c) => shift_fits(c@, root_id + 1),
                None => true,
            },
            new_nodes@.len() == local_id + 1,
            is_root_node(new_nodes@[0], root_id as int, shifted(rdf.root@, root_id + 1)),
            forall|k: int| 0 <= k < local_id ==>
                is_remapped(#[trigger] new_nodes@[k + 1], nodes[k], root_id + 1 + k, root_id + 1),
            forall|k: int| 0 <= k < local_id ==> times_remapped(*zone, #[trigger] new_nodes@[k + 1], nodes[k]),
            zone_total(*zone),
    {
        let ghost k = local_id as int;
        assert(node == nodes[k]);
        assert(local_id < nodes.len());
        let lid: i32 = local_id as i32;
        assert(lid == local_id);
        let node_id = lid + id_shift;
        let remapped = match remap_node(node, node_id, id_shift, zone) {
            Ok(m) => m,
            Err(e) => {
                assert(node_time_fails(*zone, nodes[k]));
                return Err(e);
            },
        };
        let ghost before = new_nodes@;
        new_nodes.push(remapped);
        assert(new_nodes@[k + 1] == remapped);
        assert forall|j: int| 0 <= j < local_id + 1 implies
            is_remapped(#[trigger] new_nodes@[j + 1], nodes[j], root_id + 1 + j, root_id + 1)
                && times_remapped(*zone, new_nodes@[j + 1], nodes[j]) by {
            if j < local_id {
                assert(new_nodes@[j + 1] == before[j + 1]);
            }
        }
        local_id = local_id + 1;
    }
    Ok(new_nodes)
}


/// The `i`-th child position listed by node `k`.
pub open spec fn child_pos(rdf: RdfGraph, k: int, i: int) -> int {
    rdf.nodes@[k].children->0@[i] as int
}

/// The `i`-th entry of a stored child list.
pub open spec fn stored_child(r: RemappedNode, i: int) -> int {
    let b = r.children->0;
    b.0@[i] as int
}

/// Numbering keeps references: where node `k` of a read index lists the
/// node at position `p` as its `i`-th child, its stored form lists the
/// number of the stored form of node `p`; likewise for the root folder.
pub proof fn lemma_remap_keeps_references(rdf: RdfGraph, root_id: int, v: Seq<RemappedNode>)
    requires
        remap_fits(rdf, root_id),
        v.len() == rdf.nodes@.len() + 1,
        is_root_node(v[0], root_id, shifted(rdf.root@, root_id + 1)),
        forall|k: int| 0 <= k < rdf.nodes@.len() ==>
            is_remapped(#[trigger] v[k + 1], rdf.nodes@[k], root_id + 1 + k, root_id + 1),
    ensures
        forall|i: int| 0 <= i < rdf.root@.len() && 0 <= #[trigger] rdf.root@[i] < rdf.nodes@.len() ==>
            (v[0].children is Some && stored_child(v[0], i) == v[rdf.root@[i] + 1].id),
        forall|k: int, i: int| 0 <= k < rdf.nodes@.len() && rdf.nodes@[k].children is Some
            && 0 <= i < rdf.nodes@[k].children->0@.len() && 0 <= #[trigger] child_pos(rdf, k, i) < rdf.nodes@.len() ==>
            (v[k + 1].children is Some && stored_child(v[k + 1], i) == v[child_pos(rdf, k, i) + 1].id),
{
    assert forall|i: int| 0 <= i < rdf.root@.len() && 0 <= #[trigger] rdf.root@[i] < rdf.nodes@.len() implies
        (v[0].children is Some && stored_child(v[0], i) == v[rdf.root@[i] + 1].id) by {
        let p = rdf.root@[i] as int;
        assert(is_remapped(v[p + 1], rdf.nodes@[p], root_id + 1 + p, root_id + 1));
    }
    assert forall|k: int, i: int| 0 <= k < rdf.nodes@.len() && rdf.nodes@[k].children is Some
        && 0 <= i < rdf.nodes@[k].children->0@.len() && 0 <= #[trigger] child_pos(rdf, k, i) < rdf.nodes@.len() implies
        (v[k + 1].children is Some && stored_child(v[k + 1], i) == v[child_pos(rdf, k, i) + 1].id) by {
        let c = rdf.nodes@[k].children->0;
        let p = child_pos(rdf, k, i);
        assert(is_remapped(v[k + 1], rdf.nodes@[k], root_id + 1 + k, root_id + 1));
        assert(is_remapped(v[p + 1], rdf.nodes@[p], root_id + 1 + p, root_id + 1));
        assert(shift_fits(c@, root_id + 1));
    }
}

} // verus!
