use scrapdog::parser::error::RdfError;
use scrapdog::storage::node_mapper::ConvertIconPath;
use scrapdog::types::icon::UnresolvedIcon;
use scrapdog::types::ResolveError;

#[test]
fn unexpected_icon_is_an_error() {
    match UnresolvedIcon::parse("ftp://example.com/icon.png") {
        Err(RdfError::UnexpectedIconPath(s)) => assert_eq!(s, "ftp://example.com/icon.png"),
        other => panic!("unexpected result {:?}", other),
    }
}

#[test]
fn from_matches_decides_in_order() {
    assert_eq!(
        UnresolvedIcon::from_matches("x", true, Some("a"), Some("b")).unwrap(),
        Some(UnresolvedIcon::Url("x".into()))
    );
    assert_eq!(
        UnresolvedIcon::from_matches("x", false, Some("a"), Some("b")).unwrap(),
        Some(UnresolvedIcon::InBucket("a".into()))
    );
    assert_eq!(
        UnresolvedIcon::from_matches("x", false, None, Some("b")).unwrap(),
        Some(UnresolvedIcon::File("b".into()))
    );
    assert!(UnresolvedIcon::from_matches("x", false, None, None).is_err());
    assert_eq!(UnresolvedIcon::from_matches("", true, None, None).unwrap(), None);
}

#[test]
fn resolve_against_bucket() {
    assert_eq!(
        UnresolvedIcon::InBucket("favicon.ico".into()).resolve(Some(5)).unwrap(),
        "5/favicon.ico"
    );
    assert!(matches!(
        UnresolvedIcon::InBucket("favicon.ico".into()).resolve(None),
        Err(ResolveError::IconWithoutBucket(p)) if p == "favicon.ico"
    ));
    assert_eq!(UnresolvedIcon::File("/a/b.png".into()).resolve(None).unwrap(), "file:///a/b.png");
    assert_eq!(UnresolvedIcon::Url("https://x/y".into()).resolve(Some(1)).unwrap(), "https://x/y");
}

#[test]
fn icon_paths_under_node_numbers() {
    assert_eq!(
        UnresolvedIcon::InBucket("img/a.png".into()).into_icon_path(12),
        "scrapdog://12/img/a.png"
    );
    assert_eq!(UnresolvedIcon::File("/a.png".into()).into_icon_path(3), "file:///a.png");
    assert_eq!(UnresolvedIcon::Url("http://a".into()).into_icon_path(3), "http://a");
}

#[test]
fn resolve_error_messages() {
    assert_eq!(
        ResolveError::IconWithoutBucket("a.png".into()).message(),
        "Icon path a.png cannot be resolved: node has no bucket id"
    );
    assert_eq!(ResolveError::BadTimeConversion.message(), "Bad convertion result");
}

#[test]
fn addresses_and_files_give_back_their_attribute() {
    for attr in ["file:///home/u/a b.png", "https://x.org/f.ico", "moz-icon://x.pdf?size=16"] {
        let icon = UnresolvedIcon::parse(attr).unwrap().unwrap();
        assert_eq!(icon.to_icon_path(17), attr);
    }
}
