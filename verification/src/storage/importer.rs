//! Preparing the nodes of a read index for insertion into a scrapbook: each
//! node keeps its position as its number, and every node with content of
//! its own (pages, files and notes) gets the next free data folder.
use vstd::prelude::*;
use crate::parser::graph::RdfGraph;
use crate::parser::description::{RdfNode, NodeType as ParserNodeType, opt_str_view};
use crate::storage::types::{NodeType, stored_type};
use crate::storage::blob::BlobVecI32;
use crate::storage::node_mapper::{opt_blob_view, convert_time, node_time_fails};
use crate::types::time::{WallClock, LocalConversion, zone_total, converted};
use crate::types::{ResolveError, ResolveErrorView};
use crate::types::icon::{resolved_icon, opt_int};

verus! {

/// A node ready for insertion into a scrapbook.
#[derive(Debug)]
pub struct ImportedNode {
    pub scrapbook_id: i32,
    pub id: i32,
    pub bucket_id: Option<i32>,
    pub rdf_id: Option<String>,
    pub type_: Option<NodeType>,
    pub title: Option<String>,
    pub source: Option<String>,
    pub icon: Option<String>,
    pub comment: Option<String>,
    pub encoding: Option<String>,
    pub marked: bool,
    pub locked: bool,
    pub created: Option<WallClock>,
    pub modified: Option<WallClock>,
    pub children: Option<BlobVecI32>,
}

/// `r` is the root folder of scrapbook `scrapbook_id`, number 0, listing
/// `children`: it has no data folder and none of a node's own values.
pub open spec fn is_root_row(r: ImportedNode, scrapbook_id: int, children: Seq<i32>) -> bool {
    &&& r.scrapbook_id == scrapbook_id
    &&& r.id == 0
    &&& r.bucket_id is None
    &&& r.rdf_id is None && r.type_ is None && r.title is None && r.source is None
    &&& r.icon is None && r.comment is None && r.encoding is None
    &&& !r.marked && !r.locked
    &&& r.created is None && r.modified is None
    &&& opt_blob_view(r.children) == Some(children)
}

impl ImportedNode {
    /// The root folder of scrapbook `scrapbook_id`, number 0, listing
    /// `children`.
    pub fn root(scrapbook_id: i32, children: BlobVecI32) -> (r: Self)
        ensures
            is_root_row(r, scrapbook_id as int, children.0@),
    {
        ImportedNode {
            scrapbook_id,
            id: 0,
            bucket_id: None,
            rdf_id: None,
            type_: None,
            title: None,
            source: None,
            icon: None,
            comment: None,
            encoding: None,
            marked: false,
            locked: false,
            created: None,
            modified: None,
            children: Some(children),
        }
    }
}

/// Whether nodes of this type have a data folder: pages, files and notes.
pub open spec fn has_bucket(t: ParserNodeType) -> bool {
    match t {
        ParserNodeType::Page | ParserNodeType::File | ParserNodeType::Note | ParserNodeType::Notex => true,
        _ => false,
    }
}

/// The node types with content of their own, and only they, have a data
/// folder: pages, files, notes and rich notes do; folders, separators and
/// bookmarks do not.
pub proof fn lemma_bucket_kinds(t: ParserNodeType)
    ensures
        has_bucket(t) <==> (t == ParserNodeType::Page || t == ParserNodeType::File
            || t == ParserNodeType::Note || t == ParserNodeType::Notex),
        has_bucket(ParserNodeType::Page) && has_bucket(ParserNodeType::File),
        has_bucket(ParserNodeType::Note) && has_bucket(ParserNodeType::Notex),
        !has_bucket(ParserNodeType::Folder) && !has_bucket(ParserNodeType::Separator)
            && !has_bucket(ParserNodeType::Bookmark),
{
}

/// Whether nodes of this type need a data folder.
pub fn needs_a_bucket(type_: ParserNodeType) -> (r: bool)
    ensures
        r == has_bucket(type_),
{
    match type_ {
        ParserNodeType::Page | ParserNodeType::File | ParserNodeType::Note | ParserNodeType::Notex => true,
        _ => false,
    }
}

/// `r` is node `n` of scrapbook `scrapbook_id` with number `id` and data
/// folder `bucket_id`; its times are present exactly where `n` has them.
pub open spec fn is_imported(r: ImportedNode, n: RdfNode, scrapbook_id: int, id: int, bucket_id: Option<int>) -> bool {
    &&& r.scrapbook_id == scrapbook_id
    &&& r.id == id
    &&& opt_int(r.bucket_id) == bucket_id
    &&& opt_str_view(r.rdf_id) == Some(n.rdf_id@)
    &&& r.type_ == Some(stored_type(n.type_))
    &&& opt_str_view(r.title) == opt_str_view(n.title)
    &&& opt_str_view(r.source) == opt_str_view(n.source)
    &&& (match n.icon {
        Some(i) => resolved_icon(i@, bucket_id) matches Ok(p) && opt_str_view(r.icon) == Some(p),
        None => r.icon is None,
    })
    &&& opt_str_view(r.comment) == opt_str_view(n.comment)
    &&& opt_str_view(r.encoding) == opt_str_view(n.encoding)
    &&& r.marked == n.marked
    &&& r.locked == n.locked
    &&& (r.created is Some <==> n.created is Some)
    &&& (r.modified is Some <==> n.modified is Some)
    &&& opt_blob_view(r.children) == (match n.children {
        Some(c) => Some(c@),
        None => None,
    })
}

/// The error, if any, of resolving the icon of `n` with data folder
/// `bucket_id`.
pub open spec fn icon_error(n: RdfNode, bucket_id: Option<int>) -> Option<ResolveErrorView> {
    match n.icon {
        Some(i) => match resolved_icon(i@, bucket_id) {
            Err(e) => Some(e),
            Ok(_) => None,
        },
        None => None,
    }
}

/// Prepares node `rdf` for insertion as node `id` of scrapbook
/// `scrapbook_id` with data folder `bucket_id`: its icon is resolved
/// against the data folder and its times converted to UTC. An icon that
/// cannot be resolved is reported first; a time that `zone` cannot map to a
/// single instant is an error too.
pub fn convert_rdf_node<Z: Fn(WallClock) -> LocalConversion>(rdf: RdfNode, scrapbook_id: i32, id: i32, bucket_id: Option<i32>, zone: &Z) -> (r: Result<ImportedNode, ResolveError>)
    requires
        zone_total(*zone),
    ensures
        match icon_error(rdf, opt_int(bucket_id)) {
            Some(e) => r matches Err(x) && x@ == e,
            None => match r {
                Ok(m) => is_imported(m, rdf, scrapbook_id as int, id as int, opt_int(bucket_id))
                    && times_imported(*zone, m, rdf),
                Err(e) => e is BadTimeConversion && node_time_fails(*zone, rdf),
            },
        },
{
    let icon = match rdf.icon {
        Some(icon) => match icon.resolve(bucket_id) {
            Ok(path) => Some(path),
            Err(e) => return Err(e),
        },
        None => None,
    };
    let created = convert_time(rdf.created, zone)?;
    let modified = convert_time(rdf.modified, zone)?;
    Ok(ImportedNode {
        scrapbook_id,
        id,
        bucket_id,
        rdf_id: Some(rdf.rdf_id),
        type_: Some(rdf.type_.into()),
        title: rdf.title,
        source: rdf.source,
        icon,
        comment: rdf.comment,
        encoding: rdf.encoding,
        marked: rdf.marked,
        locked: rdf.locked,
        created,
        modified,
        children: match rdf.children {
            Some(vec) => Some(vec.into()),
            None => None,
        },
    })
}


/// How many of `nodes` have a data folder.
pub open spec fn bucket_count(nodes: Seq<RdfNode>) -> nat
    decreases nodes.len(),
{
    if nodes.len() == 0 {
        0
    } else {
        bucket_count(nodes.drop_last()) + if has_bucket(nodes.last().type_) { 1nat } else { 0nat }
    }
}

/// The data folder of node `k` when folders are numbered from `next` in
/// node order.
pub open spec fn bucket_of(nodes: Seq<RdfNode>, k: int, next: int) -> Option<int> {
    if has_bucket(nodes[k].type_) {
        Some(next + bucket_count(nodes.take(k)))
    } else {
        None
    }
}

/// Node `n` fails to be prepared with data folder `b` and times converted
/// in `zone`, with error `e`: its icon cannot be resolved, or one of its
/// times the zone may fail to convert.
pub open spec fn node_fails<Z: Fn(WallClock) -> LocalConversion>(zone: Z, n: RdfNode, b: Option<int>, e: ResolveError) -> bool {
    ||| icon_error(n, b) == Some(e@)
    ||| (icon_error(n, b) is None && e is BadTimeConversion && node_time_fails(zone, n))
}

/// The times of `r` are those of `n` converted in `zone`, each from the
/// node's own time of the same kind.
pub open spec fn times_imported<Z: Fn(WallClock) -> LocalConversion>(zone: Z, r: ImportedNode, n: RdfNode) -> bool {
    &&& converted(zone, n.created, r.created)
    &&& converted(zone, n.modified, r.modified)
}

proof fn lemma_no_bucket_count(nodes: Seq<RdfNode>)
    requires
        forall|i: int| 0 <= i < nodes.len() ==> !has_bucket(#[trigger] nodes[i].type_),
    ensures
        bucket_count(nodes) == 0,
    decreases nodes.len(),
{
    if nodes.len() > 0 {
        lemma_no_bucket_count(nodes.drop_last());
    }
}

/// When an index is prepared, node `k` gets a data folder exactly when it
/// is a page, a file, a note or a rich note; folders are numbered from
/// `next` in node order, so the first such node gets `next` itself.
pub proof fn lemma_bucket_numbering(nodes: Seq<RdfNode>, k: int, next: int)
    requires
        0 <= k < nodes.len(),
    ensures
        bucket_of(nodes, k, next) is Some <==> (nodes[k].type_ == ParserNodeType::Page
            || nodes[k].type_ == ParserNodeType::File || nodes[k].type_ == ParserNodeType::Note
            || nodes[k].type_ == ParserNodeType::Notex),
        bucket_of(nodes, k, next) is Some && (forall|j: int| 0 <= j < k ==>
            !(#[trigger] nodes[j].type_ == ParserNodeType::Page || nodes[j].type_ == ParserNodeType::File
                || nodes[j].type_ == ParserNodeType::Note || nodes[j].type_ == ParserNodeType::Notex))
            ==> bucket_of(nodes, k, next) == Some(next),
{
    if forall|j: int| 0 <= j < k ==>
        !(#[trigger] nodes[j].type_ == ParserNodeType::Page || nodes[j].type_ == ParserNodeType::File
            || nodes[j].type_ == ParserNodeType::Note || nodes[j].type_ == ParserNodeType::Notex) {
        let pre = nodes.take(k);
        assert forall|i: int| 0 <= i < pre.len() implies !has_bucket(#[trigger] pre[i].type_) by {
            assert(pre[i] == nodes[i]);
            lemma_bucket_kinds(nodes[i].type_);
        }
        lemma_no_bucket_count(pre);
    }
    lemma_bucket_kinds(nodes[k].type_);
}

proof fn lemma_bucket_count_le(nodes: Seq<RdfNode>, j: int, k: int)
    requires
        0 <= j <= k <= nodes.len(),
    ensures
        bucket_count(nodes.take(j)) <= bucket_count(nodes.take(k)),
        j < k && has_bucket(nodes[j].type_) ==> bucket_count(nodes.take(j)) < bucket_count(nodes.take(k)),
    decreases k - j,
{
    if j < k {
        lemma_bucket_count_le(nodes, j, k - 1);
        assert(nodes.take(k).drop_last() =~= nodes.take(k - 1));
        if j == k - 1 {
            assert(nodes.take(k).last() == nodes[j]);
        }
    }
}

/// Data folders are never shared: two different nodes that both have one
/// get different numbers, in node order.
pub proof fn lemma_buckets_distinct(nodes: Seq<RdfNode>, next: int, j: int, k: int)
    requires
        0 <= j < k < nodes.len(),
        bucket_of(nodes, j, next) is Some,
        bucket_of(nodes, k, next) is Some,
    ensures
        bucket_of(nodes, j, next)->0 < bucket_of(nodes, k, next)->0,
{
    lemma_bucket_count_le(nodes, j, k);
}

/// Prepares all nodes of a read index for insertion into scrapbook
/// `scrapbook_id`: the root folder first, then node `k` as number `k`, with
/// data folders numbered from `next_bucket_id` in node order for the nodes
/// that have one, and times converted to UTC in `zone`. The first node that
/// fails stops the preparation.
pub fn make_insertables<Z: Fn(WallClock) -> LocalConversion>(rdf: RdfGraph, scrapbook_id: i32, next_bucket_id: i32, zone: &Z) -> (r: Result<Vec<ImportedNode>, ResolveError>)
    requires
        zone_total(*zone),
        rdf.nodes@.len() <= i32::MAX,
        next_bucket_id + bucket_count(rdf.nodes@) <= i32::MAX,
    ensures
        match r {
            Ok(v) => {
                &&& v@.len() == rdf.nodes@.len() + 1
                &&& is_root_row(v@[0], scrapbook_id as int, rdf.root@)
                &&& forall|k: int| 0 <= k < rdf.nodes@.len() ==>
                    is_imported(#[trigger] v@[k + 1], rdf.nodes@[k], scrapbook_id as int, k, bucket_of(rdf.nodes@, k, next_bucket_id as int))
                &&& forall|k: int| 0 <= k < rdf.nodes@.len() ==>
                    times_imported(*zone, #[trigger] v@[k + 1], rdf.nodes@[k])
            },
            Err(e) => exists|k: int| 0 <= k < rdf.nodes@.len() && {
                &&& forall|j: int| 0 <= j < k ==> icon_error(#[trigger] rdf.nodes@[j], bucket_of(rdf.nodes@, j, next_bucket_id as int)) is None
                &&& node_fails(*zone, rdf.nodes@[k], bucket_of(rdf.nodes@, k, next_bucket_id as int), e)
            },
        },
{
    let ghost nodes = rdf.nodes@;
    let mut next_bucket_id = next_bucket_id;
    let ghost first_bucket = next_bucket_id as int;
    let mut nodes_out: Vec<ImportedNode> = Vec::new();
    let root: Vec<i32> = rdf.root;
    let ghost root_ids = root@;
    nodes_out.push(ImportedNode::root(scrapbook_id, root.into()));
    let mut id: usize = 0;
    assert(nodes.take(0) =~= Seq::<RdfNode>::empty());
    for rdf_node in iter: rdf.nodes.into_iter()
        invariant
            iter.seq() == nodes,
            id == iter.index(),
            id <= nodes.len(),
            nodes.len() <= i32::MAX,
            first_bucket + bucket_count(nodes) <= i32::MAX,
            next_bucket_id == first_bucket + bucket_count(nodes.take(id as int)),
            nodes_out@.len() == id + 1,
            is_root_row(nodes_out@[0], scrapbook_id as int, root_ids),
            forall|k: int| 0 <= k < id ==>
                is_imported(#[trigger] nodes_out@[k + 1], nodes[k], scrapbook_id as int, k, bucket_of(nodes, k, first_bucket)),
            forall|k: int| 0 <= k < id ==> times_imported(*zone, #[trigger] nodes_out@[k + 1], nodes[k]),
            zone_total(*zone),
            forall|k: int| 0 <= k < id ==> icon_error(#[trigger] nodes[k], bucket_of(nodes, k, first_bucket)) is None,
    {
        let ghost k = id as int;
        assert(rdf_node == nodes[k]);
        assert(id < nodes.len());
        assert(nodes.take(k + 1).drop_last() =~= nodes.take(k));
        assert(nodes.take(k + 1).last() == nodes[k]);
        proof {
            lemma_bucket_count_le(nodes, k + 1, nodes.len() as int);
            assert(nodes.take(nodes.len() as int) =~= nodes);
        }
        let bucket_id = if needs_a_bucket(rdf_node.type_) {
            let bucket_id = next_bucket_id;
            next_bucket_id = next_bucket_id + 1;
            Some(bucket_id)
        } else {
            None
        };
        assert(opt_int(bucket_id) == bucket_of(nodes, k, first_bucket));
        let lid: i32 = id as i32;
        assert(lid == id);
        let node = match convert_rdf_node(rdf_node, scrapbook_id, lid, bucket_id, zone) {
            Ok(node) => node,
            Err(e) => {
                assert(node_fails(*zone, nodes[k], bucket_of(nodes, k, first_bucket), e));
                return Err(e);
            },
        };
        let ghost before = nodes_out@;
        nodes_out.push(node);
        assert forall|j: int| 0 <= j < id + 1 implies
            is_imported(#[trigger] nodes_out@[j + 1], nodes[j], scrapbook_id as int, j, bucket_of(nodes, j, first_bucket))
                && times_imported(*zone, nodes_out@[j + 1], nodes[j]) by {
            if j < id {
                assert(nodes_out@[j + 1] == before[j + 1]);
            }
        }
        id = id + 1;
    }
    Ok(nodes_out)
}

} // verus!
