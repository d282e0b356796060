use scrapdog::parser::description::{NodeType as ParserNodeType, RdfNode};
use scrapdog::parser::graph::RdfGraph;
use scrapdog::storage::importer::{convert_rdf_node, make_insertables, needs_a_bucket, ImportedNode};
use scrapdog::storage::node_mapper::{remap, shift_ids};
use scrapdog::parser::time::{parse, TimeError};
use scrapdog::storage::types::NodeType;
use scrapdog::types::icon::UnresolvedIcon;
use scrapdog::types::time::{utc, LocalConversion, UnresolvedTime, WallClock};
use scrapdog::types::ResolveError;

fn node(id: &str, t: ParserNodeType, icon: Option<UnresolvedIcon>, children: Option<Vec<i32>>) -> RdfNode {
    RdfNode {
        rdf_id: id.to_string(),
        type_: t,
        title: Some(format!("title {}", id)),
        created: None,
        modified: None,
        source: None,
        icon,
        comment: None,
        encoding: None,
        marked: false,
        locked: true,
        children,
    }
}

fn sample() -> RdfGraph {
    RdfGraph {
        root: vec![0, 1],
        nodes: vec![
            node("a", ParserNodeType::Folder, None, Some(vec![2])),
            node("b", ParserNodeType::Page, Some(UnresolvedIcon::InBucket("f.ico".into())), None),
            node("c", ParserNodeType::Note, Some(UnresolvedIcon::Url("http://x".into())), None),
        ],
    }
}

#[test]
fn shifting_positions() {
    assert_eq!(shift_ids(vec![0, 2, 5], 10).0, vec![10, 12, 15]);
    assert_eq!(shift_ids(vec![], 10).0, Vec::<i32>::new());
}

#[test]
fn remap_numbers_nodes_after_the_root() {
    let v = remap(sample(), 100, &utc).unwrap();
    assert_eq!(v.len(), 4);
    assert_eq!(v[0].id, 100);
    assert!(v[0].is_root);
    assert_eq!(v[0].children.as_ref().unwrap().0, vec![101, 102]);
    assert_eq!(v[1].id, 101);
    assert_eq!(v[1].rdf_id.as_deref(), Some("a"));
    assert_eq!(v[1].type_, Some(NodeType::Folder));
    assert_eq!(v[1].children.as_ref().unwrap().0, vec![103]);
    assert_eq!(v[3].id, v[1].children.as_ref().unwrap().0[0]);
    assert_eq!(v[2].icon.as_deref(), Some("scrapdog://102/f.ico"));
    assert_eq!(v[3].icon.as_deref(), Some("http://x"));
    assert_eq!(v[2].locked, Some(true));
    assert_eq!(v[2].marked, Some(false));
    assert!(v[2].created.is_none());
}

/// The answer of a zone at a fixed offset `east` seconds ahead of UTC.
fn fixed_offset(east: i32) -> impl Fn(WallClock) -> LocalConversion {
    move |w: WallClock| {
        let naive = chrono::NaiveDate::from_ymd_opt(w.year, w.month, w.day)
            .unwrap()
            .and_hms_opt(w.hour, w.minute, w.second)
            .unwrap();
        let zone = chrono::FixedOffset::east_opt(east).unwrap();
        match chrono::TimeZone::from_local_datetime(&zone, &naive) {
            chrono::LocalResult::Single(d) => {
                let u = d.naive_utc();
                LocalConversion::Single(WallClock {
                    year: chrono::Datelike::year(&u),
                    month: chrono::Datelike::month(&u),
                    day: chrono::Datelike::day(&u),
                    hour: chrono::Timelike::hour(&u),
                    minute: chrono::Timelike::minute(&u),
                    second: chrono::Timelike::second(&u),
                })
            }
            _ => LocalConversion::Nonexistent,
        }
    }
}

fn clock(year: i32, month: u32, day: u32, hour: u32, minute: u32, second: u32) -> WallClock {
    WallClock { year, month, day, hour, minute, second }
}

#[test]
fn remap_converts_times() {
    let mut g = sample();
    g.nodes[0].created = Some(UnresolvedTime::parse("20210317144721").unwrap());
    g.nodes[0].modified = Some(UnresolvedTime::parse("20210318000000").unwrap());
    // in UTC the times stay as written, each in its own slot
    let v = remap(g, 0, &utc).unwrap();
    assert_eq!(v[1].created, Some(clock(2021, 3, 17, 14, 47, 21)));
    assert_eq!(v[1].modified, Some(clock(2021, 3, 18, 0, 0, 0)));
    // an hour ahead of UTC, they move back an hour, across midnight too
    let mut g = sample();
    g.nodes[0].created = Some(UnresolvedTime::parse("20210317144721").unwrap());
    g.nodes[0].modified = Some(UnresolvedTime::parse("20210318000000").unwrap());
    let v = remap(g, 0, &fixed_offset(3600)).unwrap();
    assert_eq!(v[1].created, Some(clock(2021, 3, 17, 13, 47, 21)));
    assert_eq!(v[1].modified, Some(clock(2021, 3, 17, 23, 0, 0)));
    // a zone that maps the time to no instant fails the numbering
    let mut g = sample();
    g.nodes[1].created = Some(UnresolvedTime::parse("20210317144721").unwrap());
    assert!(matches!(remap(g, 0, &|_: WallClock| LocalConversion::Ambiguous), Err(ResolveError::BadTimeConversion)));
    // without times the zone is never asked
    assert!(remap(sample(), 0, &|_: WallClock| LocalConversion::Nonexistent).is_ok());
}

#[test]
fn resolve_in_a_zone() {
    let t = UnresolvedTime::parse("20210317144721").unwrap();
    assert_eq!(t.resolve(&utc).unwrap(), clock(2021, 3, 17, 14, 47, 21));
    assert_eq!(t.resolve(&fixed_offset(3600)).unwrap(), clock(2021, 3, 17, 13, 47, 21));
    assert_eq!(t.resolve(&fixed_offset(-7200)).unwrap(), clock(2021, 3, 17, 16, 47, 21));
    assert!(matches!(t.resolve(&|_: WallClock| LocalConversion::Nonexistent), Err(ResolveError::BadTimeConversion)));
    assert_eq!(UnresolvedTime::from_conversion(LocalConversion::Single(clock(2000, 1, 1, 0, 0, 0))).unwrap(), clock(2000, 1, 1, 0, 0, 0));
}

#[test]
fn compact_times() {
    assert!(UnresolvedTime::parse("20201221133800").is_ok());
    assert!(UnresolvedTime::parse("2020-12-21").is_err());
    assert!(UnresolvedTime::parse("").is_err());
    let clock = WallClock { year: 2020, month: 12, day: 21, hour: 13, minute: 38, second: 0 };
    assert_eq!(UnresolvedTime::parse("20201221133800").unwrap().0, clock);
    assert_eq!(UnresolvedTime::from_naive(clock).0, clock);
    // chrono checks the calendar: there is no 30 February
    assert!(UnresolvedTime::parse("20210230120000").is_err());
    // a leap year has a 29 February
    assert_eq!(UnresolvedTime::parse("20200229000000").unwrap().0.day, 29);
}

#[test]
fn buckets_follow_node_order() {
    assert!(needs_a_bucket(ParserNodeType::Page));
    assert!(needs_a_bucket(ParserNodeType::Notex));
    assert!(!needs_a_bucket(ParserNodeType::Folder));
    assert!(!needs_a_bucket(ParserNodeType::Bookmark));
    let v = make_insertables(sample(), 7, 40, &utc).unwrap();
    assert_eq!(v.len(), 4);
    assert_eq!(v[0].id, 0);
    assert_eq!(v[0].children.as_ref().unwrap().0, vec![0, 1]);
    assert!(v[0].title.is_none() && v[0].source.is_none() && v[0].icon.is_none());
    assert!(v[0].comment.is_none() && v[0].encoding.is_none());
    assert!(!v[0].marked && !v[0].locked);
    assert!(v[0].created.is_none() && v[0].modified.is_none());
    assert_eq!(v[1].bucket_id, None);
    assert_eq!(v[2].bucket_id, Some(40));
    assert_eq!(v[3].bucket_id, Some(41));
    assert_eq!(v[2].icon.as_deref(), Some("40/f.ico"));
    assert_eq!(v[2].id, 1);
    assert!(v.iter().all(|n| n.scrapbook_id == 7));
}

#[test]
fn icon_without_bucket_fails_import() {
    let r = convert_rdf_node(
        node("z", ParserNodeType::Folder, Some(UnresolvedIcon::InBucket("i.png".into())), None),
        1,
        5,
        None,
        &utc,
    );
    assert!(matches!(r, Err(ResolveError::IconWithoutBucket(p)) if p == "i.png"));
    let mut g = sample();
    g.nodes[0].icon = Some(UnresolvedIcon::InBucket("i.png".into()));
    assert!(make_insertables(g, 1, 1, &utc).is_err());
}

#[test]
fn imported_root() {
    let r = ImportedNode::root(3, vec![4, 5].into());
    assert_eq!(r.id, 0);
    assert_eq!(r.scrapbook_id, 3);
    assert_eq!(r.children.unwrap().0, vec![4, 5]);
}

#[test]
fn parse_in_a_zone() {
    assert_eq!(parse("20210317144721", &utc), Ok(clock(2021, 3, 17, 14, 47, 21)));
    assert_eq!(parse("20210317144721", &fixed_offset(3600)), Ok(clock(2021, 3, 17, 13, 47, 21)));
    assert_eq!(parse("2021-03-17", &utc), Err(TimeError::InvalidTime("2021-03-17".into())));
    assert_eq!(parse("20210230120000", &utc), Err(TimeError::InvalidTime("20210230120000".into())));
    assert_eq!(parse("20210317144721", &|_: WallClock| LocalConversion::Ambiguous), Err(TimeError::BadTimeConversion));
}
