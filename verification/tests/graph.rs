use scrapdog::parser::description::NodeType;
use scrapdog::parser::error::RdfError;
use scrapdog::parser::graph::parse_rdf;
use scrapdog::types::icon::UnresolvedIcon;

const HEADER: &str = r#"<?xml version="1.0"?>
<RDF:RDF xmlns:NS1="http://amb.vis.ne.jp/mozilla/scrapbook-rdf#"
         xmlns:NC="http://home.netscape.com/NC-rdf#"
         xmlns:RDF="http://www.w3.org/1999/02/22-rdf-syntax-ns#">"#;
const FOOTER: &str = "</RDF:RDF>";

fn doc(body: &str) -> String {
    format!("{}\n{}\n{}", HEADER, body, FOOTER)
}

const SAMPLE: &str = r#"
  <RDF:Seq RDF:about="urn:scrapbook:root">
    <RDF:li RDF:resource="urn:scrapbook:item20201221133741"/>
    <RDF:li RDF:resource="urn:scrapbook:item20201221133800"/>
  </RDF:Seq>
  <RDF:Seq RDF:about="urn:scrapbook:item20201221133741">
    <RDF:li RDF:resource="urn:scrapbook:item20201221133900"/>
  </RDF:Seq>
  <RDF:Description RDF:about="urn:scrapbook:item20201221133741" NS1:id="20201221133741" NS1:type="folder" NS1:title="Folder" NS1:chars="" NS1:icon="" NS1:source="" NS1:comment="" NS1:lock="" />
  <RDF:Description RDF:about="urn:scrapbook:item20201221133800" NS1:id="20201221133800" NS1:type="marked" NS1:title="Page" NS1:chars="UTF-8" NS1:icon="resource://scrapbook/data/20201221133800/favicon.ico" NS1:source="https://example.com/" NS1:comment="hello" NS1:lock="true" NS1:create="20201221133800" NS1:modify="not a time" />
  <RDF:Description RDF:about="urn:scrapbook:item20201221133900" NS1:id="20201221133900" NS1:type="note" NS1:title="Note" />
  <NC:BookmarkSeparator RDF:about="urn:scrapbook:item20201221134000" NS1:id="20201221134000" NS1:type="separator" />
"#;

#[test]
fn parses_a_sample_index() {
    let g = parse_rdf(&doc(SAMPLE)).unwrap();
    assert_eq!(g.nodes.len(), 4);
    assert_eq!(g.root, vec![0, 1]);
    let folder = &g.nodes[0];
    assert_eq!(folder.rdf_id, "20201221133741");
    assert!(matches!(folder.type_, NodeType::Folder));
    assert_eq!(folder.children, Some(vec![2]));
    assert_eq!(folder.icon, None);
    assert_eq!(folder.title.as_deref(), Some("Folder"));
    let page = &g.nodes[1];
    assert!(matches!(page.type_, NodeType::Page));
    assert!(page.marked);
    assert!(page.locked);
    let created = page.created.as_ref().unwrap().0;
    assert_eq!((created.year, created.month, created.day), (2020, 12, 21));
    assert_eq!((created.hour, created.minute, created.second), (13, 38, 0));
    assert!(page.modified.is_none());
    assert_eq!(page.icon, Some(UnresolvedIcon::InBucket("favicon.ico".into())));
    assert_eq!(page.comment.as_deref(), Some("hello"));
    assert_eq!(page.children, None);
    assert!(matches!(g.nodes[2].type_, NodeType::Note));
    assert!(!g.nodes[2].locked);
    assert!(matches!(g.nodes[3].type_, NodeType::Separator));
}

#[test]
fn later_sequence_replaces_children() {
    let body = r#"
  <RDF:Seq RDF:about="urn:scrapbook:item1"><RDF:li RDF:resource="urn:scrapbook:item2"/></RDF:Seq>
  <RDF:Seq RDF:about="urn:scrapbook:item1"><RDF:li RDF:resource="urn:scrapbook:item3"/></RDF:Seq>
  <RDF:Seq RDF:about="urn:scrapbook:root"><RDF:li RDF:resource="urn:scrapbook:item1"/></RDF:Seq>
  <RDF:Seq RDF:about="urn:scrapbook:root"><RDF:li RDF:resource="urn:scrapbook:item2"/></RDF:Seq>
  <RDF:Description NS1:id="1" NS1:type="folder" />
  <RDF:Description NS1:id="2" NS1:type="" />
  <RDF:Description NS1:id="3" NS1:type="bookmark" />
"#;
    let g = parse_rdf(&doc(body)).unwrap();
    assert_eq!(g.nodes[0].children, Some(vec![2]));
    assert_eq!(g.root, vec![0, 1]);
    assert!(matches!(g.nodes[2].type_, NodeType::Bookmark));
}

#[test]
fn duplicate_ids_refer_to_the_last_node() {
    let body = r#"
  <RDF:Seq RDF:about="urn:scrapbook:root"><RDF:li RDF:resource="urn:scrapbook:item7"/></RDF:Seq>
  <RDF:Description NS1:id="7" NS1:type="" />
  <RDF:Description NS1:id="7" NS1:type="note" />
"#;
    let g = parse_rdf(&doc(body)).unwrap();
    assert_eq!(g.root, vec![1]);
}

#[test]
fn unknown_type_is_an_error() {
    let body = r#"<RDF:Description NS1:id="1" NS1:type="widget" />"#;
    assert!(matches!(parse_rdf(&doc(body)), Err(RdfError::UnknownNodeType(t)) if t == "widget"));
}

#[test]
fn missing_attributes_are_errors() {
    let body = r#"<RDF:Description NS1:type="folder" />"#;
    assert!(matches!(parse_rdf(&doc(body)), Err(RdfError::AttributeMissing(a)) if a == "NS1:id"));
    let body = r#"<RDF:Description NS1:id="1" />"#;
    assert!(matches!(parse_rdf(&doc(body)), Err(RdfError::AttributeMissing(a)) if a == "NS1:type"));
    let body = r#"<RDF:Seq><RDF:li RDF:resource="urn:scrapbook:root"/></RDF:Seq>"#;
    assert!(matches!(parse_rdf(&doc(body)), Err(RdfError::AboutMissing)));
    let body = r#"<RDF:Description NS1:id="1" NS1:type="folder" />
      <RDF:Seq RDF:about="urn:scrapbook:item1"><RDF:li /></RDF:Seq>"#;
    assert!(matches!(parse_rdf(&doc(body)), Err(RdfError::ResourceAttributeMissing)));
}

#[test]
fn link_errors() {
    let body = r#"<RDF:Description NS1:id="1" NS1:type="folder" />
      <RDF:Seq RDF:about="urn:scrapbook:item1"><RDF:li RDF:resource="urn:scrapbook:root"/></RDF:Seq>"#;
    assert!(matches!(parse_rdf(&doc(body)), Err(RdfError::RootAsChild)));
    let body = r#"<RDF:Seq RDF:about="urn:scrapbook:root"><RDF:li RDF:resource="urn:scrapbook:item9"/></RDF:Seq>"#;
    assert!(matches!(parse_rdf(&doc(body)), Err(RdfError::ResourceNotFound(id)) if id == "9"));
    let body = r#"<RDF:Seq RDF:about="urn:scrapbook:item9"></RDF:Seq>"#;
    assert!(matches!(parse_rdf(&doc(body)), Err(RdfError::ResourceNotFound(id)) if id == "9"));
    let body = r#"<RDF:Seq RDF:about="urn:other:thing"></RDF:Seq>"#;
    assert!(matches!(parse_rdf(&doc(body)), Err(RdfError::UnexpectedResource(r)) if r == "urn:other:thing"));
}

#[test]
fn malformed_xml_is_an_error() {
    assert!(matches!(parse_rdf("<RDF:RDF"), Err(RdfError::InvalidXml(_))));
    assert!(matches!(parse_rdf(""), Err(RdfError::InvalidXml(_))));
    match parse_rdf("<RDF:RDF") {
        Err(e @ RdfError::InvalidXml(_)) => {
            let text = e.message();
            assert!(text.starts_with("Parsing error: "));
            assert!(text.len() > "Parsing error: ".len());
        }
        _ => panic!("malformed XML was accepted"),
    }
}

#[test]
fn bad_icon_fails_the_description() {
    let body = r#"<RDF:Description NS1:id="1" NS1:type="" NS1:icon="gopher://x" />"#;
    assert!(matches!(parse_rdf(&doc(body)), Err(RdfError::UnexpectedIconPath(_))));
}

#[test]
fn error_messages() {
    assert_eq!(RdfError::AttributeMissing("NS1:id".into()).message(), "NS1:id attribute missing");
    assert_eq!(RdfError::ResourceNotFound("12".into()).message(), "Resource id 12 not found");
    assert_eq!(RdfError::RootAsChild.message(), "Root node can't be a child of another node");
    assert_eq!(RdfError::UnknownNodeType("x".into()).message(), "Unknown node type: x");
}
