//! The node type as the database stores it: an integer code per kind.
use vstd::prelude::*;
use crate::parser::description::NodeType as ParserNodeType;

verus! {

/// The kind of a stored node, stored as the integer [`NodeType::code`].
#[derive(Debug, Copy, Clone, PartialEq, Eq, Structural)]
pub enum NodeType {
    Folder,
    Page,
    File,
    Note,
    Notex,
    Separator,
    Bookmark,
}

/// The stored code of a node type.
pub open spec fn code_of(t: NodeType) -> i32 {
    match t {
        NodeType::Folder => 0,
        NodeType::Page => 1,
        NodeType::File => 2,
        NodeType::Note => 3,
        NodeType::Notex => 4,
        NodeType::Separator => 5,
        NodeType::Bookmark => 6,
    }
}

/// The node type of a stored code, if any.
pub open spec fn type_of_code(c: i32) -> Option<NodeType> {
    if c == 0 {
        Some(NodeType::Folder)
    } else if c == 1 {
        Some(NodeType::Page)
    } else if c == 2 {
        Some(NodeType::File)
    } else if c == 3 {
        Some(NodeType::Note)
    } else if c == 4 {
        Some(NodeType::Notex)
    } else if c == 5 {
        Some(NodeType::Separator)
    } else if c == 6 {
        Some(NodeType::Bookmark)
    } else {
        None
    }
}

/// The stored type of a node type read from an index: the kind of the same
/// name.
pub open spec fn stored_type(t: ParserNodeType) -> NodeType {
    match t {
        ParserNodeType::Folder => NodeType::Folder,
        ParserNodeType::Page => NodeType::Page,
        ParserNodeType::File => NodeType::File,
        ParserNodeType::Note => NodeType::Note,
        ParserNodeType::Notex => NodeType::Notex,
        ParserNodeType::Separator => NodeType::Separator,
        ParserNodeType::Bookmark => NodeType::Bookmark,
    }
}

impl NodeType {
    /// The integer the database stores for this type.
    pub fn code(self) -> (r: i32)
        ensures
            r == code_of(self),
    {
        match self {
            NodeType::Folder => 0,
            NodeType::Page => 1,
            NodeType::File => 2,
            NodeType::Note => 3,
            NodeType::Notex => 4,
            NodeType::Separator => 5,
            NodeType::Bookmark => 6,
        }
    }

    /// The type stored as `code`, if the code names one.
    pub fn from_code(code: i32) -> (r: Option<NodeType>)
        ensures
            r == type_of_code(code),
    {
        if code == 0 {
            Some(NodeType::Folder)
        } else if code == 1 {
            Some(NodeType::Page)
        } else if code == 2 {
            Some(NodeType::File)
        } else if code == 3 {
            Some(NodeType::Note)
        } else if code == 4 {
            Some(NodeType::Notex)
        } else if code == 5 {
            Some(NodeType::Separator)
        } else if code == 6 {
            Some(NodeType::Bookmark)
        } else {
            None
        }
    }
}

/// Reading back a stored code gives the stored type, and a code that reads
/// as a type is that type's code: the codes are exactly 0 to 6, one per type.
pub proof fn lemma_code_round_trip(t: NodeType, c: i32)
    ensures
        type_of_code(code_of(t)) == Some(t),
        type_of_code(c) matches Some(u) ==> code_of(u) == c,
        type_of_code(c) is Some <==> 0 <= c <= 6,
{
}

/// Each stored type has its fixed code, the one the database has always
/// held: Folder 0, Page 1, File 2, Note 3, Notex 4, Separator 5,
/// Bookmark 6; each of these codes reads back as its type.
pub proof fn lemma_fixed_codes()
    ensures
        code_of(NodeType::Folder) == 0 && type_of_code(0) == Some(NodeType::Folder),
        code_of(NodeType::Page) == 1 && type_of_code(1) == Some(NodeType::Page),
        code_of(NodeType::File) == 2 && type_of_code(2) == Some(NodeType::File),
        code_of(NodeType::Note) == 3 && type_of_code(3) == Some(NodeType::Note),
        code_of(NodeType::Notex) == 4 && type_of_code(4) == Some(NodeType::Notex),
        code_of(NodeType::Separator) == 5 && type_of_code(5) == Some(NodeType::Separator),
        code_of(NodeType::Bookmark) == 6 && type_of_code(6) == Some(NodeType::Bookmark),
{
}

/// A node type read from an index is stored as the kind of the same name,
/// with that kind's fixed code; two different kinds are never stored alike.
pub proof fn lemma_stored_type_by_name(a: ParserNodeType, b: ParserNodeType)
    ensures
        stored_type(ParserNodeType::Folder) == NodeType::Folder && code_of(stored_type(ParserNodeType::Folder)) == 0,
        stored_type(ParserNodeType::Page) == NodeType::Page && code_of(stored_type(ParserNodeType::Page)) == 1,
        stored_type(ParserNodeType::File) == NodeType::File && code_of(stored_type(ParserNodeType::File)) == 2,
        stored_type(ParserNodeType::Note) == NodeType::Note && code_of(stored_type(ParserNodeType::Note)) == 3,
        stored_type(ParserNodeType::Notex) == NodeType::Notex && code_of(stored_type(ParserNodeType::Notex)) == 4,
        stored_type(ParserNodeType::Separator) == NodeType::Separator && code_of(stored_type(ParserNodeType::Separator)) == 5,
        stored_type(ParserNodeType::Bookmark) == NodeType::Bookmark && code_of(stored_type(ParserNodeType::Bookmark)) == 6,
        stored_type(a) == stored_type(b) ==> a == b,
{
}

impl From<ParserNodeType> for NodeType {
    fn from(type_: ParserNodeType) -> (r: Self) {
        match type_ {
            ParserNodeType::Folder => NodeType::Folder,
            ParserNodeType::Page => NodeType::Page,
            ParserNodeType::File => NodeType::File,
            ParserNodeType::Note => NodeType::Note,
            ParserNodeType::Notex => NodeType::Notex,
            ParserNodeType::Separator => NodeType::Separator,
            ParserNodeType::Bookmark => NodeType::Bookmark,
        }
    }
}

impl vstd::std_specs::convert::FromSpecImpl<ParserNodeType> for NodeType {
    open spec fn obeys_from_spec() -> bool {
        true
    }

    open spec fn from_spec(v: ParserNodeType) -> NodeType {
        stored_type(v)
    }
}

} // verus!
