use scrapdog::parser::description::NodeType as ParserNodeType;
use scrapdog::storage::blob::ChildIds;
use scrapdog::storage::types::NodeType;
use scrapdog::model::NodeBody;

#[test]
fn node_type_codes() {
    assert_eq!(NodeType::Folder.code(), 0);
    assert_eq!(NodeType::Bookmark.code(), 6);
    for c in 0..7 {
        assert_eq!(NodeType::from_code(c).unwrap().code(), c);
    }
    assert!(NodeType::from_code(7).is_none());
    assert!(NodeType::from_code(-1).is_none());
    assert_eq!(NodeType::from(ParserNodeType::Notex), NodeType::Notex);
    assert_eq!(NodeType::from(ParserNodeType::Page), NodeType::Page);
}

#[test]
fn blob_format() {
    let ids = ChildIds(vec![1, -1]);
    assert_eq!(
        ids.to_blob(),
        vec![2, 0, 0, 0, 0, 0, 0, 0, 1, 0, 0, 0, 0xff, 0xff, 0xff, 0xff]
    );
    assert_eq!(ChildIds(vec![]).to_blob(), vec![0u8; 8]);
}

#[test]
fn blob_round_trip() {
    let ids = vec![0, 3, 5, 2, 9, i32::MIN, i32::MAX];
    let bytes = ChildIds(ids.clone()).to_blob();
    let back: Vec<i32> = ChildIds::from_blob(&bytes).unwrap().into();
    assert_eq!(back, ids);
}

#[test]
fn blob_errors_and_trailing_bytes() {
    assert!(ChildIds::from_blob(&[1, 0, 0]).is_err());
    assert!(ChildIds::from_blob(&[1, 0, 0, 0, 0, 0, 0, 0, 7, 0]).is_err());
    let back = ChildIds::from_blob(&[1, 0, 0, 0, 0, 0, 0, 0, 7, 0, 0, 0, 9]).unwrap();
    assert_eq!(back.0, vec![7]);
}

#[test]
fn root_body_is_empty() {
    let b = NodeBody::root();
    assert!(b.rdf_id.is_none() && b.children.is_none() && !b.marked && !b.locked);
}
