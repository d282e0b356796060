//! Building the node graph of an index: the descriptions become nodes, in
//! document order, and the `Seq` elements link them into folders.
use vstd::prelude::*;
use vstd::hash_map::StringHashMap;
use crate::text::str_equal;
use crate::parser::error::{RdfError, RdfErrorView};
use crate::parser::xml::{XmlEntry, EntryView, TagView, attr_value, entries_view, parse_xml, xml_entries, xml_error_text};
use crate::parser::resource::{RdfResource, ResourceView, resource_of};
use crate::parser::description::{RdfNode, DescView, description_of, node_matches, parse_description, opt_ids_view};

verus! {

pub const TAG_DESCRIPTION: &'static str = "Description";
pub const TAG_SEPARATOR: &'static str = "BookmarkSeparator";
pub const TAG_SEQ: &'static str = "Seq";
pub const TAG_LI: &'static str = "li";
pub const ATTR_ABOUT: &'static str = "RDF:about";
pub const ATTR_RESOURCE: &'static str = "RDF:resource";

/// The nodes of an index and the top-level entries of its root folder.
#[derive(Debug)]
pub struct RdfGraph {
    /// Positions in `nodes` of the root folder's entries, in order.
    pub root: Vec<i32>,
    pub nodes: Vec<RdfNode>,
}

/// Whether an element under the root describes a node.
pub open spec fn is_description(name: Seq<char>) -> bool {
    name == TAG_DESCRIPTION@ || name == TAG_SEPARATOR@
}

/// Nodes are described by `Description` and `BookmarkSeparator`
/// elements, and by no others.
pub proof fn lemma_description_tags(name: Seq<char>)
    ensures
        is_description(name) <==> (name == "Description"@ || name == "BookmarkSeparator"@),
{
}

/// The description elements among `es`, in order.
pub open spec fn description_tags(es: Seq<EntryView>) -> Seq<TagView>
    decreases es.len(),
{
    if es.len() == 0 {
        seq![]
    } else if is_description(es.last().tag.name) {
        description_tags(es.drop_last()).push(es.last().tag)
    } else {
        description_tags(es.drop_last())
    }
}

/// What the descriptions `tags` state, or the first error among them.
pub open spec fn descriptions_of(tags: Seq<TagView>) -> Result<Seq<DescView>, RdfErrorView>
    decreases tags.len(),
{
    if tags.len() == 0 {
        Ok(seq![])
    } else {
        match descriptions_of(tags.drop_last()) {
            Err(e) => Err(e),
            Ok(ds) => match description_of(tags.last()) {
                Err(e) => Err(e),
                Ok(d) => Ok(ds.push(d)),
            },
        }
    }
}

/// The position of the last node with the id `id`.
pub open spec fn last_index(ids: Seq<Seq<char>>, id: Seq<char>) -> Option<int>
    decreases ids.len(),
{
    if ids.len() == 0 {
        None
    } else if ids.last() == id {
        Some(ids.len() - 1)
    } else {
        last_index(ids.drop_last(), id)
    }
}

/// The folder structure built so far: the root's entries and, for each
/// node, its children when it is a folder.
pub struct FolderState {
    pub root: Seq<i32>,
    pub children: Seq<Option<Seq<i32>>>,
}

/// Linking one child element of a `Seq` into the folder `parent` (`None`
/// for the root): elements other than `li` are skipped, and an `li` must
/// name an existing item.
pub open spec fn link_child(st: FolderState, li: TagView, parent: Option<int>, ids: Seq<Seq<char>>) -> Result<FolderState, RdfErrorView> {
    if li.name != TAG_LI@ {
        Ok(st)
    } else {
        match attr_value(li.attrs, ATTR_RESOURCE@) {
            None => Err(RdfErrorView::ResourceAttributeMissing),
            Some(r) => match resource_of(r) {
                Err(e) => Err(e),
                Ok(ResourceView::Root) => Err(RdfErrorView::RootAsChild),
                Ok(ResourceView::RdfId(id)) => match last_index(ids, id) {
                    None => Err(RdfErrorView::ResourceNotFound(id)),
                    Some(k) => Ok(match parent {
                        None => FolderState { root: st.root.push(k as i32), children: st.children },
                        Some(p) => FolderState {
                            root: st.root,
                            children: st.children.update(p, Some(st.children[p]->0.push(k as i32))),
                        },
                    }),
                },
            },
        }
    }
}

/// Linking the child elements `lis` of a `Seq`, in order.
pub open spec fn link_children(st: FolderState, lis: Seq<TagView>, parent: Option<int>, ids: Seq<Seq<char>>) -> Result<FolderState, RdfErrorView>
    decreases lis.len(),
{
    if lis.len() == 0 {
        Ok(st)
    } else {
        match link_children(st, lis.drop_last(), parent, ids) {
            Err(e) => Err(e),
            Ok(s) => link_child(s, lis.last(), parent, ids),
        }
    }
}

/// Applying one element under the root: a `Seq` names a folder in
/// `RDF:about`, whose children it lists anew (the root's list is extended
/// instead); other elements change nothing.
pub open spec fn apply_entry(st: FolderState, e: EntryView, ids: Seq<Seq<char>>) -> Result<FolderState, RdfErrorView> {
    if e.tag.name != TAG_SEQ@ {
        Ok(st)
    } else {
        match attr_value(e.tag.attrs, ATTR_ABOUT@) {
            None => Err(RdfErrorView::AboutMissing),
            Some(about) => match resource_of(about) {
                Err(err) => Err(err),
                Ok(ResourceView::Root) => link_children(st, e.children, None, ids),
                Ok(ResourceView::RdfId(id)) => match last_index(ids, id) {
                    None => Err(RdfErrorView::ResourceNotFound(id)),
                    Some(k) => link_children(
                        FolderState { root: st.root, children: st.children.update(k, Some(seq![])) },
                        e.children,
                        Some(k),
                        ids,
                    ),
                },
            },
        }
    }
}

/// The empty folder structure over `n` nodes.
pub open spec fn empty_folders(n: nat) -> FolderState {
    FolderState { root: seq![], children: Seq::new(n, |i: int| None) }
}

/// Applying the elements `es` in order to the folder structure over nodes
/// with ids `ids`.
pub open spec fn apply_entries(es: Seq<EntryView>, ids: Seq<Seq<char>>) -> Result<FolderState, RdfErrorView>
    decreases es.len(),
{
    if es.len() == 0 {
        Ok(empty_folders(ids.len()))
    } else {
        match apply_entries(es.drop_last(), ids) {
            Err(e) => Err(e),
            Ok(st) => apply_entry(st, es.last(), ids),
        }
    }
}

/// The ids of described nodes.
pub open spec fn ids_of(ds: Seq<DescView>) -> Seq<Seq<char>> {
    ds.map_values(|d: DescView| d.rdf_id)
}

/// The graph that the elements `es` under an index's root describe: the
/// nodes of its descriptions and the folders of its sequences.
pub open spec fn graph_of(es: Seq<EntryView>) -> Result<(Seq<DescView>, FolderState), RdfErrorView> {
    match descriptions_of(description_tags(es)) {
        Err(e) => Err(e),
        Ok(ds) => match apply_entries(es, ids_of(ds)) {
            Err(e) => Err(e),
            Ok(st) => Ok((ds, st)),
        },
    }
}

/// `g` is the graph described by `es` with descriptions `ds` and folders `st`.
pub open spec fn graph_agrees(g: RdfGraph, es: Seq<EntryView>, ds: Seq<DescView>, st: FolderState) -> bool {
    &&& g.root@ == st.root
    &&& g.nodes@.len() == ds.len()
    &&& forall|i: int| 0 <= i < ds.len() ==> {
        &&& node_matches(#[trigger] g.nodes@[i], ds[i], description_tags(es)[i])
        &&& opt_ids_view(g.nodes@[i].children) == st.children[i]
    }
}

/// The outcome of reading the elements `es` is `r`.
pub open spec fn graph_result_agrees(es: Seq<EntryView>, r: Result<RdfGraph, RdfError>) -> bool {
    match graph_of(es) {
        Ok((ds, st)) => r matches Ok(g) && graph_agrees(g, es, ds, st),
        Err(e) => r matches Err(x) && x@ == e,
    }
}


/// A node without its children.
pub open spec fn strip(n: RdfNode) -> RdfNode {
    RdfNode { children: None, ..n }
}

/// The folder structure held by `nodes` and the root list `root`.
pub open spec fn folder_state(nodes: Seq<RdfNode>, root: Seq<i32>) -> FolderState {
    FolderState { root, children: nodes.map_values(|n: RdfNode| opt_ids_view(n.children)) }
}

/// The ids of nodes.
pub open spec fn node_ids_of(nodes: Seq<RdfNode>) -> Seq<Seq<char>> {
    nodes.map_values(|n: RdfNode| n.rdf_id@)
}

/// What descriptions the nodes hold.
pub open spec fn descs_of(nodes: Seq<RdfNode>) -> Seq<DescView> {
    nodes.map_values(|n: RdfNode| n.desc_view())
}

pub proof fn lemma_last_index_bound(ids: Seq<Seq<char>>, id: Seq<char>)
    ensures
        last_index(ids, id) matches Some(k) ==> 0 <= k < ids.len() && ids[k] == id,
        last_index(ids, id) is None ==> forall|j: int| 0 <= j < ids.len() ==> ids[j] != id,
    decreases ids.len(),
{
    if ids.len() > 0 {
        lemma_last_index_bound(ids.drop_last(), id);
        if ids.last() != id {
            assert forall|j: int| 0 <= j < ids.len() - 1 implies ids[j] == ids.drop_last()[j] by {}
        }
    }
}

/// Adding a node makes its id name the new last position, and leaves what
/// every other id names as it was.
pub proof fn lemma_add_then_find(nodes: Seq<RdfNode>, node: RdfNode, id: Seq<char>)
    ensures
        last_index(node_ids_of(nodes.push(node)), node.rdf_id@) == Some(nodes.len() as int),
        id != node.rdf_id@ ==> last_index(node_ids_of(nodes.push(node)), id) == last_index(node_ids_of(nodes), id),
{
    let ids = node_ids_of(nodes.push(node));
    assert(ids.drop_last() =~= node_ids_of(nodes));
    assert(ids.last() == node.rdf_id@);
}

/// A graph under construction: the nodes added so far, the root folder's
/// entries, and the position of the last node added with each id.
struct RdfGraphIndexed {
    root: Vec<i32>,
    nodes: Vec<RdfNode>,
    node_ids: StringHashMap<usize>,
}

/// A folder that children are being linked into (`None`: the root).
struct RdfFolder {
    node_id: Option<usize>,
}

impl RdfGraphIndexed {
    /// The index maps each id to the position of the last node with it.
    spec fn wf(&self) -> bool {
        &&& forall|k: Seq<char>| #[trigger] self.node_ids@.contains_key(k) <==> last_index(node_ids_of(self.nodes@), k) is Some
        &&& forall|k: Seq<char>| #[trigger] self.node_ids@.contains_key(k) ==> self.node_ids@[k] == last_index(node_ids_of(self.nodes@), k)->0
    }

    fn new() -> (r: Self)
        ensures
            r.wf(),
            r.root@ == Seq::<i32>::empty(),
            r.nodes@ == Seq::<RdfNode>::empty(),
    {
        RdfGraphIndexed { root: Vec::new(), nodes: Vec::new(), node_ids: StringHashMap::new() }
    }

    fn add(&mut self, node: RdfNode)
        requires
            old(self).wf(),
        ensures
            final(self).wf(),
            final(self).nodes@ == old(self).nodes@.push(node),
            final(self).root@ == old(self).root@,
    {
        let ghost old_ids = node_ids_of(self.nodes@);
        let len = self.nodes.len();
        self.node_ids.insert(node.rdf_id.clone(), len);
        self.nodes.push(node);
        proof {
            let ids = node_ids_of(self.nodes@);
            assert(ids.drop_last() =~= old_ids);
            assert forall|k: Seq<char>| k != node.rdf_id@ implies last_index(ids, k) == last_index(old_ids, k) by {}
        }
    }

    fn find_id(&self, rdf_id: &str) -> (r: Result<usize, RdfError>)
        requires
            self.wf(),
        ensures
            match last_index(node_ids_of(self.nodes@), rdf_id@) {
                Some(k) => r matches Ok(x) && x == k && k < self.nodes@.len(),
                None => r matches Err(e) && e@ == RdfErrorView::ResourceNotFound(rdf_id@),
            },
    {
        proof {
            lemma_last_index_bound(node_ids_of(self.nodes@), rdf_id@);
        }
        match self.node_ids.get(rdf_id) {
            Some(id) => Ok(*id),
            None => Err(RdfError::ResourceNotFound(String::from_str(rdf_id))),
        }
    }

    fn make_folder(&mut self, resource: RdfResource) -> (r: Result<RdfFolder, RdfError>)
        requires
            old(self).wf(),
        ensures
            final(self).wf(),
            final(self).root@ == old(self).root@,
            final(self).nodes@.len() == old(self).nodes@.len(),
            forall|j: int| 0 <= j < old(self).nodes@.len() ==> strip(#[trigger] final(self).nodes@[j]) == strip(old(self).nodes@[j]),
            r is Err ==> final(self).nodes@ == old(self).nodes@,
            match resource@ {
                ResourceView::Root => r matches Ok(f) && f.node_id is None
                    && folder_state(final(self).nodes@, final(self).root@) == folder_state(old(self).nodes@, old(self).root@),
                ResourceView::RdfId(id) => match last_index(node_ids_of(old(self).nodes@), id) {
                    None => r matches Err(e) && e@ == RdfErrorView::ResourceNotFound(id),
                    Some(k) => r matches Ok(f) && f.node_id == Some(k as usize)
                        && folder_state(final(self).nodes@, final(self).root@) == FolderState {
                            root: old(self).root@,
                            children: folder_state(old(self).nodes@, old(self).root@).children.update(k, Some(seq![])),
                        },
                },
            },
    {
        match resource {
            RdfResource::Root => {
                Ok(RdfFolder { node_id: None })
            },
            RdfResource::RdfId(rdf_id) => {
                proof {
                    lemma_last_index_bound(node_ids_of(self.nodes@), rdf_id@);
                }
                let id = match self.find_id(rdf_id) {
                    Ok(id) => id,
                    Err(e) => return Err(e),
                };
                assert(id < self.nodes@.len());
                let ghost old_nodes = self.nodes@;
                self.nodes[id].children = Some(Vec::new());
                proof {
                    assert(node_ids_of(self.nodes@) =~= node_ids_of(old_nodes));
                    assert(folder_state(self.nodes@, self.root@).children =~= folder_state(old_nodes, self.root@).children.update(id as int, Some(seq![])));
                }
                Ok(RdfFolder { node_id: Some(id) })
            },
        }
    }
}


/// The folder structure after linking item `k` into the folder `parent`.
pub open spec fn linked(st: FolderState, parent: Option<int>, k: int) -> FolderState {
    match parent {
        None => FolderState { root: st.root.push(k as i32), children: st.children },
        Some(p) => FolderState {
            root: st.root,
            children: st.children.update(p, Some(st.children[p]->0.push(k as i32))),
        },
    }
}

/// An optional position as an optional integer.
pub open spec fn opt_pos(o: Option<usize>) -> Option<int> {
    match o {
        Some(p) => Some(p as int),
        None => None,
    }
}

impl RdfFolder {
    /// Links the item `resource` names as the next child of this folder.
    fn connect(&self, graph: &mut RdfGraphIndexed, resource: RdfResource) -> (r: Result<(), RdfError>)
        requires
            old(graph).wf(),
            self.node_id matches Some(p) ==> p < old(graph).nodes@.len() && old(graph).nodes@[p as int].children is Some,
        ensures
            final(graph).wf(),
            final(graph).nodes@.len() == old(graph).nodes@.len(),
            forall|j: int| 0 <= j < old(graph).nodes@.len() ==> strip(#[trigger] final(graph).nodes@[j]) == strip(old(graph).nodes@[j]),
            r is Err ==> final(graph).nodes@ == old(graph).nodes@ && final(graph).root@ == old(graph).root@,
            match resource@ {
                ResourceView::Root => r matches Err(e) && e@ == RdfErrorView::RootAsChild,
                ResourceView::RdfId(id) => match last_index(node_ids_of(old(graph).nodes@), id) {
                    None => r matches Err(e) && e@ == RdfErrorView::ResourceNotFound(id),
                    Some(k) => r is Ok && folder_state(final(graph).nodes@, final(graph).root@)
                        == linked(folder_state(old(graph).nodes@, old(graph).root@), opt_pos(self.node_id), k),
                },
            },
    {
        match resource {
            RdfResource::RdfId(rdf_id) => {
                let child = match graph.find_id(rdf_id) {
                    Ok(id) => id,
                    Err(e) => return Err(e),
                };
                let child_id = child as i32;
                let ghost old_nodes = graph.nodes@;
                let ghost old_state = folder_state(graph.nodes@, graph.root@);
                match self.node_id {
                    None => {
                        graph.root.push(child_id);
                        proof {
                            assert(folder_state(graph.nodes@, graph.root@).root =~= old_state.root.push(child as i32));
                        }
                    },
                    Some(parent_id) => {
                        match &mut graph.nodes[parent_id].children {
                            Some(children) => children.push(child_id),
                            None => {},
                        }
                        proof {
                            assert(node_ids_of(graph.nodes@) =~= node_ids_of(old_nodes));
                            assert(folder_state(graph.nodes@, graph.root@).children =~= old_state.children.update(parent_id as int, Some(old_state.children[parent_id as int]->0.push(child as i32))));
                        }
                    },
                }
                Ok(())
            },
            RdfResource::Root => Err(RdfError::RootAsChild),
        }
    }
}


proof fn lemma_descriptions_push_err(tags: Seq<TagView>, t: TagView)
    requires
        descriptions_of(tags) is Err,
    ensures
        descriptions_of(tags.push(t)) == descriptions_of(tags),
{
    assert(tags.push(t).drop_last() =~= tags);
}

proof fn lemma_descriptions_prefix_err(es: Seq<EntryView>, i: int)
    requires
        0 <= i <= es.len(),
        descriptions_of(description_tags(es.take(i))) is Err,
    ensures
        descriptions_of(description_tags(es)) == descriptions_of(description_tags(es.take(i))),
    decreases es.len() - i,
{
    if i < es.len() {
        assert(es.take(i + 1).drop_last() =~= es.take(i));
        if is_description(es[i].tag.name) {
            lemma_descriptions_push_err(description_tags(es.take(i)), es[i].tag);
        }
        lemma_descriptions_prefix_err(es, i + 1);
    } else {
        assert(es.take(i) =~= es);
    }
}

proof fn lemma_apply_prefix_err(es: Seq<EntryView>, ids: Seq<Seq<char>>, i: int)
    requires
        0 <= i <= es.len(),
        apply_entries(es.take(i), ids) is Err,
    ensures
        apply_entries(es, ids) == apply_entries(es.take(i), ids),
    decreases es.len() - i,
{
    if i < es.len() {
        assert(es.take(i + 1).drop_last() =~= es.take(i));
        lemma_apply_prefix_err(es, ids, i + 1);
    } else {
        assert(es.take(i) =~= es);
    }
}

proof fn lemma_link_prefix_err(st: FolderState, lis: Seq<TagView>, parent: Option<int>, ids: Seq<Seq<char>>, j: int)
    requires
        0 <= j <= lis.len(),
        link_children(st, lis.take(j), parent, ids) is Err,
    ensures
        link_children(st, lis, parent, ids) == link_children(st, lis.take(j), parent, ids),
    decreases lis.len() - j,
{
    if j < lis.len() {
        assert(lis.take(j + 1).drop_last() =~= lis.take(j));
        lemma_link_prefix_err(st, lis, parent, ids, j + 1);
    } else {
        assert(lis.take(j) =~= lis);
    }
}

/// Reads the elements under an index's root into a graph (see
/// [`graph_of`]): every description becomes a node, in document order, and
/// every `Seq` lists the children of the folder it is about; the first error
/// in that order is reported.
pub fn parse_entries(entries: &Vec<XmlEntry>) -> (r: Result<RdfGraph, RdfError>)
    ensures
        graph_result_agrees(entries_view(entries@), r),
{
    let ghost es = entries_view(entries@);
    let mut graph = RdfGraphIndexed::new();
    let n = entries.len();
    let mut i: usize = 0;
    assert(es.take(0) =~= Seq::<EntryView>::empty());
    assert(descs_of(graph.nodes@) =~= Seq::<DescView>::empty());
    while i < n
        invariant
            n == entries@.len(),
            es == entries_view(entries@),
            i <= n,
            graph.wf(),
            graph.root@ == Seq::<i32>::empty(),
            descriptions_of(description_tags(es.take(i as int))) matches Ok(ds) && ds == descs_of(graph.nodes@),
            description_tags(es.take(i as int)).len() == graph.nodes@.len(),
            forall|j: int| 0 <= j < graph.nodes@.len() ==> {
                &&& node_matches(#[trigger] graph.nodes@[j], graph.nodes@[j].desc_view(), description_tags(es.take(i as int))[j])
                &&& graph.nodes@[j].children is None
            },
        decreases n - i,
    {
        let entry = &entries[i];
        let ghost tags = description_tags(es.take(i as int));
        let ghost old_nodes = graph.nodes@;
        proof {
            assert(es.take(i + 1).drop_last() =~= es.take(i as int));
            assert(es.take(i + 1).last() == entry@);
        }
        if str_equal(entry.tag.name.as_str(), TAG_DESCRIPTION) || str_equal(entry.tag.name.as_str(), TAG_SEPARATOR) {
            assert(description_tags(es.take(i + 1)) == tags.push(entry.tag@));
            assert(tags.push(entry.tag@).drop_last() =~= tags);
            match parse_description(&entry.tag) {
                Ok(node) => {
                    graph.add(node);
                    proof {
                        assert(descs_of(graph.nodes@) =~= descs_of(old_nodes).push(node.desc_view()));
                        assert forall|j: int| 0 <= j < graph.nodes@.len() implies {
                            &&& node_matches(#[trigger] graph.nodes@[j], graph.nodes@[j].desc_view(), description_tags(es.take(i + 1))[j])
                            &&& graph.nodes@[j].children is None
                        } by {
                            if j < old_nodes.len() {
                                assert(graph.nodes@[j] == old_nodes[j]);
                            }
                        }
                    }
                },
                Err(e) => {
                    proof {
                        lemma_descriptions_prefix_err(es, i + 1);
                    }
                    return Err(e);
                },
            }
        } else {
            assert(description_tags(es.take(i + 1)) == tags);
        }
        i = i + 1;
    }
    assert(es.take(n as int) =~= es);
    let ghost nodes0 = graph.nodes@;
    let ghost ids = node_ids_of(nodes0);
    let ghost ds = descs_of(nodes0);
    assert(ids_of(ds) =~= ids);
    assert(folder_state(graph.nodes@, graph.root@).children =~= empty_folders(ids.len()).children);
    assert(folder_state(graph.nodes@, graph.root@).root =~= empty_folders(ids.len()).root);
    i = 0;
    while i < n
        invariant
            n == entries@.len(),
            es == entries_view(entries@),
            i <= n,
            graph.wf(),
            graph.nodes@.len() == nodes0.len(),
            ids == node_ids_of(nodes0),
            descriptions_of(description_tags(es)) == Ok::<Seq<DescView>, RdfErrorView>(ds),
            ids_of(ds) == ids,
            forall|j: int| 0 <= j < nodes0.len() ==> strip(#[trigger] graph.nodes@[j]) == strip(nodes0[j]),
            apply_entries(es.take(i as int), ids) matches Ok(st) && st == folder_state(graph.nodes@, graph.root@),
        decreases n - i,
    {
        let entry = &entries[i];
        proof {
            assert(es.take(i + 1).drop_last() =~= es.take(i as int));
            assert(es.take(i + 1).last() == entry@);
            assert(node_ids_of(graph.nodes@) =~= ids);
        }
        let ghost st_i = folder_state(graph.nodes@, graph.root@);
        if str_equal(entry.tag.name.as_str(), TAG_SEQ) {
            let about = match entry.tag.attr(ATTR_ABOUT) {
                Some(a) => a,
                None => {
                    proof { lemma_apply_prefix_err(es, ids, i + 1); }
                    return Err(RdfError::AboutMissing);
                },
            };
            let parent = match RdfResource::parse(about) {
                Ok(p) => p,
                Err(e) => {
                    proof { lemma_apply_prefix_err(es, ids, i + 1); }
                    return Err(e);
                },
            };
            let folder = match graph.make_folder(parent) {
                Ok(f) => f,
                Err(e) => {
                    proof { lemma_apply_prefix_err(es, ids, i + 1); }
                    return Err(e);
                },
            };
            let ghost st0 = folder_state(graph.nodes@, graph.root@);
            let ghost parent_pos = opt_pos(folder.node_id);
            let ghost lis = entry@.children;
            proof {
                assert(apply_entries(es.take(i + 1), ids) == apply_entry(st_i, es[i as int], ids));
                assert(attr_value(es[i as int].tag.attrs, ATTR_ABOUT@) == Some(about@));
                assert(resource_of(about@) == Ok::<ResourceView, RdfErrorView>(parent@));
                match parent@ {
                    ResourceView::Root => {
                        assert(st0 == st_i);
                    },
                    ResourceView::RdfId(id) => {
                        lemma_last_index_bound(ids, id);
                        let k = last_index(ids, id)->0;
                        assert(k < graph.nodes@.len());
                        assert(graph.nodes@.len() == graph.nodes.len());
                        assert(folder.node_id == Some(k as usize));
                        assert(parent_pos == Some(k));
                        assert(st0.children[k] is Some);
                    },
                }
            }
            let m = entry.children.len();
            let mut j: usize = 0;
            proof {
                assert(lis.take(0) =~= Seq::<TagView>::empty());
                assert(node_ids_of(graph.nodes@) =~= ids);
            }
            while j < m
                invariant
                    i < n,
                    n == es.len(),
                    es == entries_view(entries@),
                    parent_pos == opt_pos(folder.node_id),
                    descriptions_of(description_tags(es)) == Ok::<Seq<DescView>, RdfErrorView>(ds),
                    ids_of(ds) == ids,
                    apply_entries(es.take(i + 1), ids) == link_children(st0, lis, parent_pos, ids),
                    m == entry.children@.len(),
                    lis == entry@.children,
                    lis.len() == m,
                    j <= m,
                    graph.wf(),
                    graph.nodes@.len() == nodes0.len(),
                    forall|k: int| 0 <= k < nodes0.len() ==> strip(#[trigger] graph.nodes@[k]) == strip(nodes0[k]),
                    node_ids_of(graph.nodes@) == ids,
                    folder.node_id matches Some(p) ==> p < graph.nodes@.len() && folder_state(graph.nodes@, graph.root@).children[p as int] is Some,
                    link_children(st0, lis.take(j as int), parent_pos, ids) matches Ok(st) && st == folder_state(graph.nodes@, graph.root@),
                decreases m - j,
            {
                let child = &entry.children[j];
                let ghost before = folder_state(graph.nodes@, graph.root@);
                proof {
                    assert(lis.take(j + 1).drop_last() =~= lis.take(j as int));
                    assert(lis.take(j + 1).last() == child@);
                    if let Some(p) = folder.node_id {
                        assert(before.children[p as int] == opt_ids_view(graph.nodes@[p as int].children));
                    }
                }
                if str_equal(child.name.as_str(), TAG_LI) {
                    let res = match child.attr(ATTR_RESOURCE) {
                        Some(x) => x,
                        None => {
                            proof {
                                assert(link_child(before, child@, parent_pos, ids) == Err::<FolderState, RdfErrorView>(RdfErrorView::ResourceAttributeMissing));
                                assert(link_children(st0, lis.take(j + 1), parent_pos, ids) == Err::<FolderState, RdfErrorView>(RdfErrorView::ResourceAttributeMissing));
                                lemma_link_prefix_err(st0, lis, parent_pos, ids, j + 1);
                                lemma_apply_prefix_err(es, ids, i + 1);
                            }
                            return Err(RdfError::ResourceAttributeMissing);
                        },
                    };
                    let child_id = match RdfResource::parse(res) {
                        Ok(c) => c,
                        Err(e) => {
                            proof {
                                assert(link_child(before, child@, parent_pos, ids) == Err::<FolderState, RdfErrorView>(e@));
                                assert(link_children(st0, lis.take(j + 1), parent_pos, ids) == Err::<FolderState, RdfErrorView>(e@));
                                lemma_link_prefix_err(st0, lis, parent_pos, ids, j + 1);
                                lemma_apply_prefix_err(es, ids, i + 1);
                            }
                            return Err(e);
                        },
                    };
                    match folder.connect(&mut graph, child_id) {
                        Ok(()) => {
                            proof {
                                assert(node_ids_of(graph.nodes@) =~= ids);
                                assert(resource_of(res@) == Ok::<ResourceView, RdfErrorView>(child_id@));
                                assert(attr_value(child@.attrs, ATTR_RESOURCE@) == Some(res@));
                                match child_id@ {
                                    ResourceView::Root => {},
                                    ResourceView::RdfId(id) => {
                                        let k = last_index(ids, id)->0;
                                        assert(last_index(ids, id) is Some);
                                        assert(link_child(before, child@, parent_pos, ids) == Ok::<FolderState, RdfErrorView>(linked(before, parent_pos, k)));
                                    },
                                }
                            }
                        },
                        Err(e) => {
                            proof {
                                lemma_link_prefix_err(st0, lis, parent_pos, ids, j + 1);
                                lemma_apply_prefix_err(es, ids, i + 1);
                            }
                            return Err(e);
                        },
                    }
                } else {
                    assert(link_child(before, child@, parent_pos, ids) == Ok::<FolderState, RdfErrorView>(before));
                }
                j = j + 1;
            }
            proof {
                assert(lis.take(m as int) =~= lis);
            }
        }
        i = i + 1;
    }
    assert(es.take(n as int) =~= es);
    let g = RdfGraph { root: graph.root, nodes: graph.nodes };
    proof {
        assert forall|j: int| 0 <= j < ds.len() implies {
            &&& node_matches(#[trigger] g.nodes@[j], ds[j], description_tags(es)[j])
            &&& opt_ids_view(g.nodes@[j].children) == folder_state(g.nodes@, g.root@).children[j]
        } by {
            assert(strip(g.nodes@[j]) == strip(nodes0[j]));
        }
    }
    Ok(g)
}


/// Reads an index document: the XML must be well-formed, and the elements
/// under its root are read as [`parse_entries`] does.
pub fn parse_rdf(xml: &str) -> (r: Result<RdfGraph, RdfError>)
    ensures
        match xml_entries(xml@) {
            None => r matches Err(e) && e@ is InvalidXml,
            Some(es) => graph_result_agrees(es, r),
        },
{
    match parse_xml(xml) {
        Ok(entries) => parse_entries(&entries),
        Err(e) => Err(RdfError::InvalidXml(xml_error_text(&e))),
    }
}

/// Every position in the folder structure `st` designates one of `n` nodes,
/// and there is one child list per node.
pub open spec fn positions_in_range(st: FolderState, n: int) -> bool {
    &&& st.children.len() == n
    &&& forall|i: int| 0 <= i < st.root.len() ==> 0 <= #[trigger] st.root[i] < n
    &&& forall|k: int, j: int| 0 <= k < n && st.children[k] is Some && 0 <= j < st.children[k]->0.len()
        ==> 0 <= #[trigger] st.children[k]->0[j] < n
}

proof fn lemma_link_child_in_range(st: FolderState, li: TagView, parent: Option<int>, ids: Seq<Seq<char>>)
    requires
        ids.len() <= i32::MAX,
        positions_in_range(st, ids.len() as int),
        parent matches Some(p) ==> 0 <= p < ids.len() && st.children[p] is Some,
    ensures
        link_child(st, li, parent, ids) matches Ok(s) ==> positions_in_range(s, ids.len() as int)
            && (parent matches Some(p) ==> s.children[p] is Some),
{
    if let Ok(s) = link_child(st, li, parent, ids) {
        if li.name == TAG_LI@ {
            let r = attr_value(li.attrs, ATTR_RESOURCE@)->0;
            let id = resource_of(r)->Ok_0->RdfId_0;
            lemma_last_index_bound(ids, id);
            let k = last_index(ids, id)->0;
            assert(k as i32 == k);
            match parent {
                None => {
                    assert forall|i: int| 0 <= i < s.root.len() implies 0 <= #[trigger] s.root[i] < ids.len() by {
                        if i < st.root.len() {
                            assert(s.root[i] == st.root[i]);
                        }
                    }
                },
                Some(p) => {
                    assert forall|q: int, j: int| 0 <= q < ids.len() && s.children[q] is Some && 0 <= j < s.children[q]->0.len()
                        implies 0 <= #[trigger] s.children[q]->0[j] < ids.len() by {
                        if q != p {
                            assert(s.children[q] == st.children[q]);
                        } else if j < st.children[p]->0.len() {
                            assert(s.children[q]->0[j] == st.children[p]->0[j]);
                        }
                    }
                },
            }
        }
    }
}

proof fn lemma_link_children_in_range(st: FolderState, lis: Seq<TagView>, parent: Option<int>, ids: Seq<Seq<char>>)
    requires
        ids.len() <= i32::MAX,
        positions_in_range(st, ids.len() as int),
        parent matches Some(p) ==> 0 <= p < ids.len() && st.children[p] is Some,
    ensures
        link_children(st, lis, parent, ids) matches Ok(s) ==> positions_in_range(s, ids.len() as int)
            && (parent matches Some(p) ==> s.children[p] is Some),
    decreases lis.len(),
{
    if lis.len() > 0 {
        lemma_link_children_in_range(st, lis.drop_last(), parent, ids);
        if let Ok(s) = link_children(st, lis.drop_last(), parent, ids) {
            lemma_link_child_in_range(s, lis.last(), parent, ids);
        }
    }
}

proof fn lemma_apply_entries_in_range(es: Seq<EntryView>, ids: Seq<Seq<char>>)
    requires
        ids.len() <= i32::MAX,
    ensures
        apply_entries(es, ids) matches Ok(st) ==> positions_in_range(st, ids.len() as int),
    decreases es.len(),
{
    if es.len() == 0 {
        assert(positions_in_range(empty_folders(ids.len()), ids.len() as int));
    } else {
        lemma_apply_entries_in_range(es.drop_last(), ids);
        if let Ok(st) = apply_entries(es.drop_last(), ids) {
            let e = es.last();
            if e.tag.name == TAG_SEQ@ {
                if let Some(about) = attr_value(e.tag.attrs, ATTR_ABOUT@) {
                    match resource_of(about) {
                        Ok(ResourceView::Root) => {
                            lemma_link_children_in_range(st, e.children, None, ids);
                        },
                        Ok(ResourceView::RdfId(id)) => {
                            lemma_last_index_bound(ids, id);
                            if let Some(k) = last_index(ids, id) {
                                let st1 = FolderState { root: st.root, children: st.children.update(k, Some(seq![])) };
                                assert forall|q: int, j: int| 0 <= q < ids.len() && st1.children[q] is Some && 0 <= j < st1.children[q]->0.len()
                                    implies 0 <= #[trigger] st1.children[q]->0[j] < ids.len() by {
                                    assert(q != k);
                                    assert(st1.children[q] == st.children[q]);
                                }
                                lemma_link_children_in_range(st1, e.children, Some(k), ids);
                            }
                        },
                        Err(_) => {},
                    }
                }
            }
        }
    }
}

/// Every position that a read index lists, in its root folder or in any
/// folder, designates one of its nodes (for indexes of fewer than 2^31
/// nodes, whose positions fit the stored integers).
pub proof fn lemma_parsed_positions_valid(es: Seq<EntryView>)
    requires
        graph_of(es) matches Ok((ds, st)) && ds.len() <= i32::MAX,
    ensures
        graph_of(es) matches Ok((ds, st)) && positions_in_range(st, ds.len() as int),
{
    let ds = descriptions_of(description_tags(es))->Ok_0;
    assert(ids_of(ds).len() == ds.len());
    lemma_apply_entries_in_range(es, ids_of(ds));
}

} // verus!
