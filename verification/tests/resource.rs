use scrapdog::parser::resource::RdfResource;

#[test]
fn rdf_resource_root() {
    assert!(matches!(
        RdfResource::parse("urn:scrapbook:root"),
        Ok(RdfResource::Root)
    ));
}

#[test]
fn rdf_resource_id() {
    assert!(matches!(
        RdfResource::parse("urn:scrapbook:item20201221133741"),
        Ok(RdfResource::RdfId("20201221133741"))
    ));
}

#[test]
fn rdf_resource_err() {
    assert!(RdfResource::parse("urn:scrapbook:bullshit").is_err());
}

#[test]
fn item_ids_are_the_trailing_digits() {
    assert!(matches!(RdfResource::parse("urn:scrapbook:item42"), Ok(RdfResource::RdfId("42"))));
    assert!(matches!(RdfResource::parse("x:urn:scrapbook:item7"), Ok(RdfResource::RdfId("7"))));
    assert!(RdfResource::parse("urn:scrapbook:item").is_err());
    assert!(RdfResource::parse("urn:scrapbook:item4a").is_err());
}
