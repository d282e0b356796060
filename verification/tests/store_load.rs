use scrapdog::parser::graph::parse_rdf;
use scrapdog::storage::loader::{resolve_scrapbook_tree, FsNode};
use scrapdog::storage::node_mapper::{remap, remap_fits_check, RemappedNode};
use scrapdog::types::time::utc;

fn loaded(r: RemappedNode) -> FsNode {
    FsNode {
        id: r.id,
        rdf_id: r.rdf_id,
        type_: r.type_,
        title: r.title,
        source: r.source,
        icon: r.icon,
        comment: r.comment,
        encoding: r.encoding,
        marked: r.marked,
        locked: r.locked,
        created: r.created,
        modified: r.modified,
        children: r.children,
    }
}

#[test]
fn stored_index_loads_back_as_its_tree() {
    let xml = r#"<?xml version="1.0"?>
<RDF:RDF xmlns:NS1="http://amb.vis.ne.jp/mozilla/scrapbook-rdf#"
         xmlns:RDF="http://www.w3.org/1999/02/22-rdf-syntax-ns#">
  <RDF:Seq RDF:about="urn:scrapbook:root">
    <RDF:li RDF:resource="urn:scrapbook:item1"/>
    <RDF:li RDF:resource="urn:scrapbook:item4"/>
  </RDF:Seq>
  <RDF:Seq RDF:about="urn:scrapbook:item1">
    <RDF:li RDF:resource="urn:scrapbook:item2"/>
    <RDF:li RDF:resource="urn:scrapbook:item3"/>
  </RDF:Seq>
  <RDF:Description NS1:id="1" NS1:type="folder" NS1:title="F" />
  <RDF:Description NS1:id="2" NS1:type="" NS1:title="P2" />
  <RDF:Description NS1:id="3" NS1:type="note" NS1:title="N3" />
  <RDF:Description NS1:id="4" NS1:type="bookmark" NS1:title="B4" />
</RDF:RDF>"#;
    let g = parse_rdf(xml).unwrap();
    assert!(remap_fits_check(&g, 10));
    let rows: Vec<FsNode> = remap(g, 10, &utc).unwrap().into_iter().map(loaded).collect();
    let tree = resolve_scrapbook_tree(rows).unwrap().unwrap();
    assert_eq!(tree.len(), 2);
    assert_eq!(tree[0].title.as_deref(), Some("F"));
    assert_eq!(tree[0].id, 11);
    let kids = tree[0].children.as_ref().unwrap();
    let titles: Vec<_> = kids.iter().map(|k| k.title.clone().unwrap()).collect();
    assert_eq!(titles, vec!["P2".to_string(), "N3".to_string()]);
    assert!(kids.iter().all(|k| k.children.is_none()));
    assert_eq!(tree[1].title.as_deref(), Some("B4"));
    assert_eq!(tree[1].id, 14);
}
