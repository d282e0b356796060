//! What can go wrong while reading a ScrapBook index.
use vstd::prelude::*;

verus! {

/// A reason why an index could not be read.
#[derive(Debug)]
pub enum RdfError {
    /// One of the library's fixed regular expressions did not compile.
    InvalidPattern,
    /// An icon attribute in none of the known forms.
    UnexpectedIconPath(String),
    /// A resource reference that is neither the root nor an item.
    UnexpectedResource(String),
    /// A required attribute of a description is absent (its name).
    AttributeMissing(String),
    /// A `NS1:type` value that names no node type.
    UnknownNodeType(String),
    /// A `Seq` element without `RDF:about`.
    AboutMissing,
    /// An `li` element without `RDF:resource`.
    ResourceAttributeMissing,
    /// A reference to an item that no description declares.
    ResourceNotFound(String),
    /// The root listed as the child of another node.
    RootAsChild,
    /// The document is not well-formed XML (what the XML reader reports).
    InvalidXml(String),
    /// A time not in the form `YYYYMMDDhhmmss`.
    InvalidTime(String),
}

/// The mathematical value of a [`RdfError`].
pub enum RdfErrorView {
    InvalidPattern,
    UnexpectedIconPath(Seq<char>),
    UnexpectedResource(Seq<char>),
    AttributeMissing(Seq<char>),
    UnknownNodeType(Seq<char>),
    AboutMissing,
    ResourceAttributeMissing,
    ResourceNotFound(Seq<char>),
    RootAsChild,
    InvalidXml(Seq<char>),
    InvalidTime(Seq<char>),
}

impl View for RdfError {
    type V = RdfErrorView;

    open spec fn view(&self) -> RdfErrorView {
        match self {
            RdfError::InvalidPattern => RdfErrorView::InvalidPattern,
            RdfError::UnexpectedIconPath(s) => RdfErrorView::UnexpectedIconPath(s@),
            RdfError::UnexpectedResource(s) => RdfErrorView::UnexpectedResource(s@),
            RdfError::AttributeMissing(s) => RdfErrorView::AttributeMissing(s@),
            RdfError::UnknownNodeType(s) => RdfErrorView::UnknownNodeType(s@),
            RdfError::AboutMissing => RdfErrorView::AboutMissing,
            RdfError::ResourceAttributeMissing => RdfErrorView::ResourceAttributeMissing,
            RdfError::ResourceNotFound(s) => RdfErrorView::ResourceNotFound(s@),
            RdfError::RootAsChild => RdfErrorView::RootAsChild,
            RdfError::InvalidXml(s) => RdfErrorView::InvalidXml(s@),
            RdfError::InvalidTime(s) => RdfErrorView::InvalidTime(s@),
        }
    }
}


/// The text describing an error.
pub open spec fn error_text(e: RdfErrorView) -> Seq<char> {
    match e {
        RdfErrorView::InvalidPattern => "Invalid built-in pattern"@,
        RdfErrorView::UnexpectedIconPath(s) => "Unexpected icon path: "@ + s,
        RdfErrorView::UnexpectedResource(s) => "Unexpected RDF resource string: "@ + s,
        RdfErrorView::AttributeMissing(s) => s + " attribute missing"@,
        RdfErrorView::UnknownNodeType(s) => "Unknown node type: "@ + s,
        RdfErrorView::AboutMissing => "RDF:about missing in Sequence tag"@,
        RdfErrorView::ResourceAttributeMissing => "RDF:resource missing in 'li' tag"@,
        RdfErrorView::ResourceNotFound(s) => "Resource id "@ + s + " not found"@,
        RdfErrorView::RootAsChild => "Root node can't be a child of another node"@,
        RdfErrorView::InvalidXml(s) => "Parsing error: "@ + s,
        RdfErrorView::InvalidTime(s) => "Invalid time: "@ + s,
    }
}

fn text_of(prefix: &str, s: &str, suffix: &str) -> (r: String)
    ensures
        r@ == prefix@ + s@ + suffix@,
{
    let mut out = String::from_str(prefix);
    out.append(s);
    out.append(suffix);
    out
}

impl RdfError {
    /// The text describing this error.
    pub fn message(&self) -> (r: String)
        ensures
            r@ == error_text(self@),
    {
        proof {
            reveal_strlit("");
        }
        let r = match self {
            RdfError::InvalidPattern => String::from_str("Invalid built-in pattern"),
            RdfError::UnexpectedIconPath(s) => text_of("Unexpected icon path: ", s.as_str(), ""),
            RdfError::UnexpectedResource(s) => text_of("Unexpected RDF resource string: ", s.as_str(), ""),
            RdfError::AttributeMissing(s) => text_of("", s.as_str(), " attribute missing"),
            RdfError::UnknownNodeType(s) => text_of("Unknown node type: ", s.as_str(), ""),
            RdfError::AboutMissing => String::from_str("RDF:about missing in Sequence tag"),
            RdfError::ResourceAttributeMissing => String::from_str("RDF:resource missing in 'li' tag"),
            RdfError::ResourceNotFound(s) => text_of("Resource id ", s.as_str(), " not found"),
            RdfError::RootAsChild => String::from_str("Root node can't be a child of another node"),
            RdfError::InvalidXml(s) => text_of("Parsing error: ", s.as_str(), ""),
            RdfError::InvalidTime(s) => text_of("Invalid time: ", s.as_str(), ""),
        };
        assert(r@ =~= error_text(self@));
        r
    }
}

} // verus!
