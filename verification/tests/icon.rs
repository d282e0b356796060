use scrapdog::types::icon::UnresolvedIcon;

fn assert_url(url: &str) {
    assert_eq!(
        UnresolvedIcon::parse(url).unwrap(),
        Some(UnresolvedIcon::Url(url.into()))
    );
}

#[test]
fn moz_icon() {
    assert_url("moz-icon://Meta.pdf?size=16");
}

#[test]
fn https() {
    assert_url("https://www.rust-lang.org/static/images/favicon.svg");
}

#[test]
fn http() {
    assert_url("http://www.rust-lang.org/static/images/favicon.svg");
}

#[test]
fn resource() {
    assert_eq!(
        UnresolvedIcon::parse("resource://scrapbook/data/20210317144721/favicon.ico").unwrap(),
        Some(UnresolvedIcon::InBucket("favicon.ico".into()))
    )
}

#[test]
fn file() {
    assert_eq!(
        UnresolvedIcon::parse(
            "file:///home/lisk/Images/goretober_31__you_cannot_run_by_sinnykitt_debpa89.png"
        )
        .unwrap(),
        Some(UnresolvedIcon::File(
            "/home/lisk/Images/goretober_31__you_cannot_run_by_sinnykitt_debpa89.png".into()
        ))
    )
}

#[test]
fn none() {
    assert_eq!(UnresolvedIcon::parse("").unwrap(), None)
}

#[test]
fn web_addresses_by_their_scheme() {
    assert_eq!(UnresolvedIcon::parse("http://a").unwrap(), Some(UnresolvedIcon::Url("http://a".into())));
    assert_eq!(UnresolvedIcon::parse("https://a").unwrap(), Some(UnresolvedIcon::Url("https://a".into())));
    assert!(UnresolvedIcon::parse("httpx://a").is_err());
    assert!(UnresolvedIcon::parse(" http://a").is_err());
}
