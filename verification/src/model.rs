//! Rows of the node table in their simplest form: a full row, and the
//! body of a row to insert.
use vstd::prelude::*;
use crate::storage::types::NodeType;
use crate::storage::blob::ChildIds;

verus! {

/// A full row of the node table.
#[derive(Debug)]
pub struct NodeFull {
    pub scrapbook_id: i32,
    pub id: i32,
    pub rdf_id: Option<String>,
    pub type_: Option<NodeType>,
    pub title: Option<String>,
    pub source: Option<String>,
    pub icon: Option<String>,
    pub comment: Option<String>,
    pub encoding: Option<String>,
    pub marked: bool,
    pub locked: bool,
    pub created: crate::types::time::WallClock,
    pub modified: crate::types::time::WallClock,
    pub children: Option<ChildIds>,
}

/// The body of a row to insert.
#[derive(Debug)]
pub struct NodeBody {
    pub rdf_id: Option<String>,
    pub type_: Option<NodeType>,
    pub title: Option<String>,
    pub created: Option<crate::types::time::WallClock>,
    pub modified: Option<crate::types::time::WallClock>,
    pub source: Option<String>,
    pub icon: Option<String>,
    pub comment: Option<String>,
    pub encoding: Option<String>,
    pub marked: bool,
    pub locked: bool,
    pub children: Option<ChildIds>,
}

impl NodeBody {
    /// The body of the root folder: nothing set.
    pub fn root() -> (r: Self)
        ensures
            r.rdf_id is None && r.type_ is None && r.title is None,
            r.created is None && r.modified is None,
            r.source is None && r.icon is None && r.comment is None && r.encoding is None,
            !r.marked && !r.locked,
            r.children is None,
    {
        NodeBody {
            rdf_id: None,
            type_: None,
            title: None,
            created: None,
            modified: None,
            source: None,
            icon: None,
            comment: None,
            encoding: None,
            marked: false,
            locked: false,
            children: None,
        }
    }
}

} // verus!
