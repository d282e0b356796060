//! Values read from an index that still need a node's context to be final.
pub mod icon;
pub mod time;

use vstd::prelude::*;

verus! {

/// A reason why a value read from an index cannot be given its final form.
#[derive(Debug)]
pub enum ResolveError {
    /// An icon inside the node's data folder, for a node without one (the
    /// icon's path).
    IconWithoutBucket(String),
    /// A local time that the time zone maps to no instant or to two.
    BadTimeConversion,
}

/// The mathematical value of a [`ResolveError`].
pub enum ResolveErrorView {
    IconWithoutBucket(Seq<char>),
    BadTimeConversion,
}

impl View for ResolveError {
    type V = ResolveErrorView;

    open spec fn view(&self) -> ResolveErrorView {
        match self {
            ResolveError::IconWithoutBucket(s) => ResolveErrorView::IconWithoutBucket(s@),
            ResolveError::BadTimeConversion => ResolveErrorView::BadTimeConversion,
        }
    }
}


impl ResolveError {
    /// The text describing this error.
    pub fn message(&self) -> (r: String)
        ensures
            r@ == match self@ {
                ResolveErrorView::IconWithoutBucket(p) => "Icon path "@ + p + " cannot be resolved: node has no bucket id"@,
                ResolveErrorView::BadTimeConversion => "Bad convertion result"@,
            },
    {
        match self {
            ResolveError::IconWithoutBucket(p) => {
                let mut out = String::from_str("Icon path ");
                out.append(p.as_str());
                out.append(" cannot be resolved: node has no bucket id");
                out
            },
            ResolveError::BadTimeConversion => String::from_str("Bad convertion result"),
        }
    }
}

} // verus!
