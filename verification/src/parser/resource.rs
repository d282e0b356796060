//! References between the elements of an index: `urn:scrapbook:root` for the
//! root folder and `urn:scrapbook:item<digits>` for an item.
use vstd::prelude::*;
use crate::text::str_equal;
use crate::parser::error::{RdfError, RdfErrorView};
use crate::parser::regex_utils::{Pattern, RegexExt, regex_first_group, ends_with, ascii_digits};

verus! {

/// The reference to the root folder.
pub const ROOT_RESOURCE: &'static str = "urn:scrapbook:root";
/// References to items; group 1 is the item's id.
pub const ITEM_PATTERN: &'static str = "urn:scrapbook:item(\\d+)$";
/// What comes before an item's id in a reference to it.
pub const ITEM_PREFIX: &'static str = "urn:scrapbook:item";

/// What a resource reference designates.
#[derive(Debug, Clone, Copy)]
pub enum RdfResource<'a> {
    /// The root folder.
    Root,
    /// The item with this id.
    RdfId(&'a str),
}

/// The mathematical value of an [`RdfResource`].
pub enum ResourceView {
    Root,
    RdfId(Seq<char>),
}

impl<'a> View for RdfResource<'a> {
    type V = ResourceView;

    open spec fn view(&self) -> ResourceView {
        match self {
            RdfResource::Root => ResourceView::Root,
            RdfResource::RdfId(s) => ResourceView::RdfId(s@),
        }
    }
}

/// The value of the result of reading a reference.
pub open spec fn resource_result_view<'a>(r: Result<RdfResource<'a>, RdfError>) -> Result<ResourceView, RdfErrorView> {
    match r {
        Ok(x) => Ok(x@),
        Err(e) => Err(e@),
    }
}

/// How a reference `s` is read, given the id that the item pattern captures
/// from it.
pub open spec fn resource_of_capture(s: Seq<char>, capture: Option<Seq<char>>) -> Result<ResourceView, RdfErrorView> {
    if s == ROOT_RESOURCE@ {
        Ok(ResourceView::Root)
    } else if capture is Some {
        Ok(ResourceView::RdfId(capture->0))
    } else {
        Err(RdfErrorView::UnexpectedResource(s))
    }
}

/// How a reference `s` is read: the root, or an item with the id that the
/// item pattern captures.
pub open spec fn resource_of(s: Seq<char>) -> Result<ResourceView, RdfErrorView> {
    if s == ROOT_RESOURCE@ {
        Ok(ResourceView::Root)
    } else {
        resource_of_capture(s, regex_first_group(ITEM_PATTERN@, s))
    }
}

impl<'a> RdfResource<'a> {
    /// Reads a reference given the id that the item pattern captured.
    pub fn from_capture(resource: &'a str, capture: Option<&'a str>) -> (r: Result<RdfResource<'a>, RdfError>)
        ensures
            resource_result_view(r) == resource_of_capture(
                resource@,
                match capture { Some(c) => Some(c@), None => None },
            ),
    {
        if str_equal(resource, ROOT_RESOURCE) {
            Ok(RdfResource::Root)
        } else if let Some(rdf_id) = capture {
            Ok(RdfResource::RdfId(rdf_id))
        } else {
            Err(RdfError::UnexpectedResource(String::from_str(resource)))
        }
    }

    /// Reads a resource reference: the root, or an item with its id. An id
    /// is the digits that end the reference, after `urn:scrapbook:item`.
    pub fn parse(resource: &'a str) -> (r: Result<RdfResource<'a>, RdfError>)
        ensures
            resource_result_view(r) == resource_of(resource@),
            r matches Ok(RdfResource::RdfId(id)) ==> id@.len() > 0 && ends_with(resource@, ITEM_PREFIX@ + id@),
            forall|g: Seq<char>| #[trigger] ascii_digits(g) && g.len() > 0 && ends_with(resource@, ITEM_PREFIX@ + g)
                ==> (r matches Ok(RdfResource::RdfId(id)) && id@ == g),
    {
        if str_equal(resource, ROOT_RESOURCE) {
            proof {
                reveal_strlit("urn:scrapbook:root");
                assert forall|g: Seq<char>| #[trigger] ascii_digits(g) && g.len() > 0
                    implies !ends_with(resource@, ITEM_PREFIX@ + g) by {
                    let t = ITEM_PREFIX@ + g;
                    if ends_with(resource@, t) {
                        let n = resource@.len();
                        assert(resource@.subrange(n - t.len(), n as int)[t.len() - 1] == resource@[n - 1]);
                        assert(t[t.len() - 1] == g[g.len() - 1]);
                    }
                }
            }
            return RdfResource::from_capture(resource, None);
        }
        let item = match Pattern::compile(ITEM_PATTERN) {
            Ok(p) => p,
            Err(_) => return Err(RdfError::InvalidPattern),
        };
        let rdf_id = item.capture_first(resource);
        RdfResource::from_capture(resource, rdf_id)
    }
}

} // verus!
