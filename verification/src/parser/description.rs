//! Reading one `Description` element of an index into a node.
use vstd::prelude::*;
use crate::text::str_equal;
use crate::parser::error::{RdfError, RdfErrorView};
use crate::parser::xml::{XmlTag, TagView, attr_value};
use crate::types::icon::{UnresolvedIcon, IconView, icon_of, icon_result_view, opt_icon_view};
use crate::types::time::{UnresolvedTime, ClockFields, compact_time, opt_time_view};

verus! {

/// The kind of a node of an index.
#[derive(Debug, Copy, Clone, PartialEq, Eq, Structural)]
pub enum NodeType {
    Folder,
    Page,
    File,
    Note,
    Notex,
    Separator,
    Bookmark,
}

/// A node read from an index.
#[derive(Debug)]
pub struct RdfNode {
    pub rdf_id: String,
    pub type_: NodeType,
    pub title: Option<String>,
    pub created: Option<UnresolvedTime>,
    pub modified: Option<UnresolvedTime>,
    pub source: Option<String>,
    pub icon: Option<UnresolvedIcon>,
    pub comment: Option<String>,
    pub encoding: Option<String>,
    pub marked: bool,
    pub locked: bool,
    /// The positions of the node's children among all nodes, for a folder.
    pub children: Option<Vec<i32>>,
}

/// What a description states of its node, times and children aside.
pub struct DescView {
    pub rdf_id: Seq<char>,
    pub type_: NodeType,
    pub title: Option<Seq<char>>,
    pub source: Option<Seq<char>>,
    pub icon: Option<IconView>,
    pub comment: Option<Seq<char>>,
    pub encoding: Option<Seq<char>>,
    pub marked: bool,
    pub locked: bool,
}

/// An optional string as an optional sequence of characters.
pub open spec fn opt_str_view(o: Option<String>) -> Option<Seq<char>> {
    match o {
        Some(s) => Some(s@),
        None => None,
    }
}

/// An optional list of positions as an optional sequence.
pub open spec fn opt_ids_view(o: Option<Vec<i32>>) -> Option<Seq<i32>> {
    match o {
        Some(v) => Some(v@),
        None => None,
    }
}

impl RdfNode {
    /// What this node holds of its description.
    pub open spec fn desc_view(&self) -> DescView {
        DescView {
            rdf_id: self.rdf_id@,
            type_: self.type_,
            title: opt_str_view(self.title),
            source: opt_str_view(self.source),
            icon: opt_icon_view(self.icon),
            comment: opt_str_view(self.comment),
            encoding: opt_str_view(self.encoding),
            marked: self.marked,
            locked: self.locked,
        }
    }
}

pub const ATTR_TYPE: &'static str = "NS1:type";
pub const ATTR_ID: &'static str = "NS1:id";
pub const ATTR_TITLE: &'static str = "NS1:title";
pub const ATTR_CREATE: &'static str = "NS1:create";
pub const ATTR_MODIFY: &'static str = "NS1:modify";
pub const ATTR_SOURCE: &'static str = "NS1:source";
pub const ATTR_ICON: &'static str = "NS1:icon";
pub const ATTR_COMMENT: &'static str = "NS1:comment";
pub const ATTR_CHARS: &'static str = "NS1:chars";
pub const ATTR_LOCK: &'static str = "NS1:lock";

/// The node type, and whether the node is marked, that a `NS1:type` value
/// names.
pub open spec fn node_kind(t: Seq<char>) -> Option<(NodeType, bool)> {
    if t == "folder"@ {
        Some((NodeType::Folder, false))
    } else if t == ""@ {
        Some((NodeType::Page, false))
    } else if t == "marked"@ {
        Some((NodeType::Page, true))
    } else if t == "file"@ {
        Some((NodeType::File, false))
    } else if t == "note"@ {
        Some((NodeType::Note, false))
    } else if t == "notex"@ {
        Some((NodeType::Notex, false))
    } else if t == "separator"@ {
        Some((NodeType::Separator, false))
    } else if t == "bookmark"@ {
        Some((NodeType::Bookmark, false))
    } else {
        None
    }
}

/// Each `NS1:type` value names the node type of the same name: `folder`,
/// `file`, `note`, `notex`, `separator` and `bookmark` their kinds, the
/// empty value a page and `marked` a marked page; no other value names a
/// type, and two different values name different types unless both are
/// pages.
pub proof fn lemma_node_kinds(t: Seq<char>, u: Seq<char>)
    ensures
        node_kind("folder"@) == Some((NodeType::Folder, false)),
        node_kind(""@) == Some((NodeType::Page, false)),
        node_kind("marked"@) == Some((NodeType::Page, true)),
        node_kind("file"@) == Some((NodeType::File, false)),
        node_kind("note"@) == Some((NodeType::Note, false)),
        node_kind("notex"@) == Some((NodeType::Notex, false)),
        node_kind("separator"@) == Some((NodeType::Separator, false)),
        node_kind("bookmark"@) == Some((NodeType::Bookmark, false)),
        node_kind(t) is Some <==> (t == "folder"@ || t == ""@ || t == "marked"@ || t == "file"@
            || t == "note"@ || t == "notex"@ || t == "separator"@ || t == "bookmark"@),
        node_kind(t) matches Some((k, m)) ==> (m <==> t == "marked"@),
        node_kind(t) matches Some((k1, m1)) ==> (node_kind(u) matches Some((k2, m2)) ==> (
            t != u && k1 == k2 ==> k1 == NodeType::Page)),
{
    reveal_strlit("folder");
    reveal_strlit("");
    reveal_strlit("marked");
    reveal_strlit("file");
    reveal_strlit("note");
    reveal_strlit("notex");
    reveal_strlit("separator");
    reveal_strlit("bookmark");
    assert(""@.len() == 0);
    assert("folder"@.len() == 6 && "folder"@[0] == 'f');
    assert("marked"@.len() == 6 && "marked"@[0] == 'm');
    assert("file"@.len() == 4 && "file"@[0] == 'f');
    assert("note"@.len() == 4 && "note"@[0] == 'n');
    assert("notex"@.len() == 5 && "notex"@[0] == 'n');
    assert("separator"@.len() == 9 && "separator"@[0] == 's');
    assert("bookmark"@.len() == 8 && "bookmark"@[0] == 'b');
}

/// Only `NS1:lock="true"` locks a node: a description that is read is
/// locked exactly when its lock attribute is the text `true`, so an empty
/// lock attribute (which ScrapBook writes for unlocked items), another
/// value or no attribute leaves the node unlocked.
pub proof fn lemma_lock_only_true(tag: TagView)
    ensures
        description_of(tag) matches Ok(d) ==> (d.locked <==> attr_value(tag.attrs, ATTR_LOCK@) == Some("true"@)),
        attr_value(tag.attrs, ATTR_LOCK@) == Some(""@) ==> (description_of(tag) matches Ok(d) ==> !d.locked),
        attr_value(tag.attrs, ATTR_LOCK@) is None ==> (description_of(tag) matches Ok(d) ==> !d.locked),
{
    reveal_strlit("true");
    reveal_strlit("");
    assert("true"@.len() == 4 && ""@.len() == 0);
}

/// A description is read from its `NS1:` attributes: the id from
/// `NS1:id`, the kind from `NS1:type`, the title, source, comment and
/// encoding from `NS1:title`, `NS1:source`, `NS1:comment` and `NS1:chars`
/// as written, and the lock from `NS1:lock`; a description without
/// `NS1:type` or `NS1:id` is refused, naming the missing attribute.
pub proof fn lemma_description_attributes(tag: TagView)
    ensures
        description_of(tag) matches Ok(d) ==> {
            &&& attr_value(tag.attrs, "NS1:id"@) == Some(d.rdf_id)
            &&& attr_value(tag.attrs, "NS1:type"@) matches Some(t) && node_kind(t) == Some((d.type_, d.marked))
            &&& d.title == attr_value(tag.attrs, "NS1:title"@)
            &&& d.source == attr_value(tag.attrs, "NS1:source"@)
            &&& d.comment == attr_value(tag.attrs, "NS1:comment"@)
            &&& d.encoding == attr_value(tag.attrs, "NS1:chars"@)
            &&& (d.locked <==> attr_value(tag.attrs, "NS1:lock"@) == Some("true"@))
        },
        attr_value(tag.attrs, "NS1:type"@) is None
            ==> description_of(tag) == Err::<DescView, RdfErrorView>(RdfErrorView::AttributeMissing("NS1:type"@)),
        attr_value(tag.attrs, "NS1:type"@) matches Some(t) && node_kind(t) is Some && attr_value(tag.attrs, "NS1:id"@) is None
            ==> description_of(tag) == Err::<DescView, RdfErrorView>(RdfErrorView::AttributeMissing("NS1:id"@)),
{
}

/// A node read from a description takes its creation time from
/// `NS1:create` and its modification time from `NS1:modify`.
pub proof fn lemma_time_attributes(n: RdfNode, d: DescView, tag: TagView)
    requires
        node_matches(n, d, tag),
    ensures
        opt_time_view(n.created) == match attr_value(tag.attrs, "NS1:create"@) {
            Some(s) => compact_time(s),
            None => None,
        },
        opt_time_view(n.modified) == match attr_value(tag.attrs, "NS1:modify"@) {
            Some(s) => compact_time(s),
            None => None,
        },
{
}

/// How the `NS1:icon` attribute of a description is read.
pub open spec fn icon_attr(tag: TagView) -> Result<Option<IconView>, RdfErrorView> {
    match attr_value(tag.attrs, ATTR_ICON@) {
        None => Ok(None),
        Some(s) => icon_of(s),
    }
}

/// The time that a time attribute of a description gives its node: the
/// time written in the attribute when it is present and in the compact
/// form; otherwise the node has no such time.
pub open spec fn time_attr_value(tag: TagView, name: Seq<char>) -> Option<ClockFields> {
    match attr_value(tag.attrs, name) {
        Some(s) => compact_time(s),
        None => None,
    }
}

/// How a description is read: its type must be known and its id present,
/// and its icon, when it has one, must be in a known form; the errors are
/// tried in that order.
pub open spec fn description_of(tag: TagView) -> Result<DescView, RdfErrorView> {
    match attr_value(tag.attrs, ATTR_TYPE@) {
        None => Err(RdfErrorView::AttributeMissing(ATTR_TYPE@)),
        Some(t) => match node_kind(t) {
            None => Err(RdfErrorView::UnknownNodeType(t)),
            Some((type_, marked)) => match attr_value(tag.attrs, ATTR_ID@) {
                None => Err(RdfErrorView::AttributeMissing(ATTR_ID@)),
                Some(id) => match icon_attr(tag) {
                    Err(e) => Err(e),
                    Ok(icon) => Ok(DescView {
                        rdf_id: id,
                        type_,
                        title: attr_value(tag.attrs, ATTR_TITLE@),
                        source: attr_value(tag.attrs, ATTR_SOURCE@),
                        icon,
                        comment: attr_value(tag.attrs, ATTR_COMMENT@),
                        encoding: attr_value(tag.attrs, ATTR_CHARS@),
                        marked,
                        locked: attr_value(tag.attrs, ATTR_LOCK@) == Some("true"@),
                    }),
                },
            },
        },
    }
}

/// A node read from `tag` agrees with it: what the description states,
/// and the creation and modification times that its attributes give.
pub open spec fn node_matches(n: RdfNode, d: DescView, tag: TagView) -> bool {
    &&& n.desc_view() == d
    &&& opt_time_view(n.created) == time_attr_value(tag, ATTR_CREATE@)
    &&& opt_time_view(n.modified) == time_attr_value(tag, ATTR_MODIFY@)
}

fn required_attr<'a>(item: &'a XmlTag, name: &str) -> (r: Result<&'a str, RdfError>)
    ensures
        match r {
            Ok(v) => attr_value(item@.attrs, name@) == Some(v@),
            Err(e) => attr_value(item@.attrs, name@) is None && e@ == RdfErrorView::AttributeMissing(name@),
        },
{
    match item.attr(name) {
        Some(v) => Ok(v),
        None => Err(RdfError::AttributeMissing(String::from_str(name))),
    }
}

fn owned_attr(item: &XmlTag, name: &str) -> (r: Option<String>)
    ensures
        opt_str_view(r) == attr_value(item@.attrs, name@),
{
    match item.attr(name) {
        Some(v) => Some(String::from_str(v)),
        None => None,
    }
}

fn time_attr(item: &XmlTag, name: &str) -> (r: Option<UnresolvedTime>)
    ensures
        opt_time_view(r) == time_attr_value(item@, name@),
{
    match item.attr(name) {
        Some(timestr) => match UnresolvedTime::parse(timestr) {
            Ok(time) => Some(time),
            Err(_) => None,
        },
        None => None,
    }
}

fn icon_attr_of(item: &XmlTag) -> (r: Result<Option<UnresolvedIcon>, RdfError>)
    ensures
        icon_result_view(r) == icon_attr(item@),
{
    match item.attr(ATTR_ICON) {
        Some(icostr) => UnresolvedIcon::parse(icostr),
        None => Ok(None),
    }
}

/// Reads the node type named by a `NS1:type` value.
pub fn node_kind_of(t: &str) -> (r: Option<(NodeType, bool)>)
    ensures
        r == node_kind(t@),
{
    if str_equal(t, "folder") {
        Some((NodeType::Folder, false))
    } else if str_equal(t, "") {
        Some((NodeType::Page, false))
    } else if str_equal(t, "marked") {
        Some((NodeType::Page, true))
    } else if str_equal(t, "file") {
        Some((NodeType::File, false))
    } else if str_equal(t, "note") {
        Some((NodeType::Note, false))
    } else if str_equal(t, "notex") {
        Some((NodeType::Notex, false))
    } else if str_equal(t, "separator") {
        Some((NodeType::Separator, false))
    } else if str_equal(t, "bookmark") {
        Some((NodeType::Bookmark, false))
    } else {
        None
    }
}

/// Reads a `Description` (or `BookmarkSeparator`) element into a node
/// without children (see [`description_of`]); times that are absent or not
/// in the compact form are left out.
pub fn parse_description(item: &XmlTag) -> (r: Result<RdfNode, RdfError>)
    ensures
        match description_of(item@) {
            Ok(d) => r matches Ok(n) && node_matches(n, d, item@) && n.children is None,
            Err(e) => r matches Err(x) && x@ == e,
        },
{
    let t = required_attr(item, ATTR_TYPE)?;
    let (type_, marked) = match node_kind_of(t) {
        Some(kind) => kind,
        None => return Err(RdfError::UnknownNodeType(String::from_str(t))),
    };
    let rdf_id = String::from_str(required_attr(item, ATTR_ID)?);
    let icon = icon_attr_of(item)?;
    let locked = match item.attr(ATTR_LOCK) {
        Some(v) => str_equal(v, "true"),
        None => false,
    };
    let node = RdfNode {
        rdf_id,
        type_,
        title: owned_attr(item, ATTR_TITLE),
        created: time_attr(item, ATTR_CREATE),
        modified: time_attr(item, ATTR_MODIFY),
        source: owned_attr(item, ATTR_SOURCE),
        icon,
        comment: owned_attr(item, ATTR_COMMENT),
        encoding: owned_attr(item, ATTR_CHARS),
        marked,
        locked,
        children: None,
    };
    Ok(node)
}

} // verus!
