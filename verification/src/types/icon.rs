//! Icon references of ScrapBook nodes: where an icon lives, and how that
//! becomes a path once the node's identity is known.
use vstd::prelude::*;
use crate::text::{has_prefix, decimal, starts_with, push_decimal};
use crate::parser::error::{RdfError, RdfErrorView};
use crate::types::{ResolveError, ResolveErrorView};
use crate::parser::regex_utils::{
    Pattern, RegexExt, regex_first_group, is_web_address,
};

verus! {

/// The prefix of Mozilla's icon URLs.
pub const MOZ_ICON_PREFIX: &'static str = "moz-icon://";
/// Web addresses.
pub const HTTP_PATTERN: &'static str = "^https?://";
/// Files inside a ScrapBook data folder; group 1 is the path in the folder.
pub const RESOURCE_PATTERN: &'static str = "^resource://scrapbook/data/\\d+/(.+)$";
/// The scheme of local file URLs.
pub const FILE_URL_PREFIX: &'static str = "file://";
/// The scheme of URLs into the library's own data folders.
pub const SCRAPDOG_URL_PREFIX: &'static str = "scrapdog://";
/// Local files; group 1 is the path.
pub const FILE_PATTERN: &'static str = "^file://(.+)$";

/// Where the icon of a node is.
#[derive(PartialEq, Eq, Debug)]
pub enum UnresolvedIcon {
    /// An address to keep as it is.
    Url(String),
    /// A path inside the node's own data folder.
    InBucket(String),
    /// An absolute path on the local file system.
    File(String),
}

/// The mathematical value of an [`UnresolvedIcon`].
pub enum IconView {
    Url(Seq<char>),
    InBucket(Seq<char>),
    File(Seq<char>),
}

impl View for UnresolvedIcon {
    type V = IconView;

    open spec fn view(&self) -> IconView {
        match self {
            UnresolvedIcon::Url(s) => IconView::Url(s@),
            UnresolvedIcon::InBucket(s) => IconView::InBucket(s@),
            UnresolvedIcon::File(s) => IconView::File(s@),
        }
    }
}

/// The value of an optional icon.
pub open spec fn opt_icon_view(o: Option<UnresolvedIcon>) -> Option<IconView> {
    match o {
        Some(i) => Some(i@),
        None => None,
    }
}

/// The value of the result of reading an icon attribute.
pub open spec fn icon_result_view(r: Result<Option<UnresolvedIcon>, RdfError>) -> Result<Option<IconView>, RdfErrorView> {
    match r {
        Ok(o) => Ok(opt_icon_view(o)),
        Err(e) => Err(e@),
    }
}

/// How an icon attribute `s` is read, given what the three patterns answer
/// on it: whether it is a web address, and the captured path of the data
/// folder form and of the file form.
pub open spec fn icon_of_matches(
    s: Seq<char>,
    http: bool,
    resource: Option<Seq<char>>,
    file: Option<Seq<char>>,
) -> Result<Option<IconView>, RdfErrorView> {
    if s.len() == 0 {
        Ok(None)
    } else if has_prefix(s, MOZ_ICON_PREFIX@) || http {
        Ok(Some(IconView::Url(s)))
    } else if resource is Some {
        Ok(Some(IconView::InBucket(resource->0)))
    } else if file is Some {
        Ok(Some(IconView::File(file->0)))
    } else {
        Err(RdfErrorView::UnexpectedIconPath(s))
    }
}

/// How an icon attribute `s` is read: empty is no icon, a Mozilla icon URL
/// or a web address (`http://`, `https://`) stays an address, then the data
/// folder form and the file form are tried, by what their patterns capture.
pub open spec fn icon_of(s: Seq<char>) -> Result<Option<IconView>, RdfErrorView> {
    if s.len() == 0 || has_prefix(s, MOZ_ICON_PREFIX@) {
        icon_of_matches(s, false, None, None)
    } else if is_web_address(s) {
        icon_of_matches(s, true, None, None)
    } else if regex_first_group(RESOURCE_PATTERN@, s) is Some {
        icon_of_matches(s, false, regex_first_group(RESOURCE_PATTERN@, s), None)
    } else {
        icon_of_matches(s, false, None, regex_first_group(FILE_PATTERN@, s))
    }
}

/// The path of an icon once the node's data folder (`bucket`) is known:
/// addresses stay as they are, a path in the data folder is put under the
/// folder's number, and a local path becomes a `file://` URL.
pub open spec fn resolved_icon(icon: IconView, bucket: Option<int>) -> Result<Seq<char>, ResolveErrorView> {
    match icon {
        IconView::Url(u) => Ok(u),
        IconView::InBucket(p) => match bucket {
            Some(b) => Ok(decimal(b) + seq!['/'] + p),
            None => Err(ResolveErrorView::IconWithoutBucket(p)),
        },
        IconView::File(p) => Ok(FILE_URL_PREFIX@ + p),
    }
}

/// The icon path of a node with number `node_id` in the library's own URL
/// scheme: addresses stay as they are, a path in the data folder becomes a
/// `scrapdog://` URL under the node's number, and a local path becomes a
/// `file://` URL.
pub open spec fn icon_path(icon: IconView, node_id: int) -> Seq<char> {
    match icon {
        IconView::Url(u) => u,
        IconView::InBucket(p) => SCRAPDOG_URL_PREFIX@ + decimal(node_id) + seq!['/'] + p,
        IconView::File(p) => FILE_URL_PREFIX@ + p,
    }
}

/// An optional `i32` as an optional integer.
pub open spec fn opt_int(o: Option<i32>) -> Option<int> {
    match o {
        Some(x) => Some(x as int),
        None => None,
    }
}

/// The value of the result of resolving a path.
pub open spec fn resolve_result_view(r: Result<String, ResolveError>) -> Result<Seq<char>, ResolveErrorView> {
    match r {
        Ok(p) => Ok(p@),
        Err(e) => Err(e@),
    }
}

fn owned(s: &str) -> (r: String)
    ensures
        r@ == s@,
{
    String::from_str(s)
}

impl UnresolvedIcon {
    /// Reads an icon attribute given what the patterns answered on it.
    pub fn from_matches(
        rdf_icon: &str,
        http: bool,
        resource: Option<&str>,
        file: Option<&str>,
    ) -> (r: Result<Option<UnresolvedIcon>, RdfError>)
        ensures
            icon_result_view(r) == icon_of_matches(
                rdf_icon@,
                http,
                match resource { Some(x) => Some(x@), None => None },
                match file { Some(x) => Some(x@), None => None },
            ),
    {
        if rdf_icon.unicode_len() == 0 {
            Ok(None)
        } else if starts_with(rdf_icon, MOZ_ICON_PREFIX) || http {
            Ok(Some(UnresolvedIcon::Url(owned(rdf_icon))))
        } else if let Some(local_path) = resource {
            Ok(Some(UnresolvedIcon::InBucket(owned(local_path))))
        } else if let Some(path) = file {
            Ok(Some(UnresolvedIcon::File(owned(path))))
        } else {
            Err(RdfError::UnexpectedIconPath(owned(rdf_icon)))
        }
    }

    /// Reads the `NS1:icon` attribute of a description: empty means no icon,
    /// Mozilla icon URLs and web addresses stay addresses, a file inside a
    /// ScrapBook data folder becomes a path in the node's own folder, and a
    /// `file://` URL becomes a local path.
    pub fn parse(rdf_icon: &str) -> (r: Result<Option<UnresolvedIcon>, RdfError>)
        ensures
            icon_result_view(r) == icon_of(rdf_icon@),
            // a web address or a local file gives back, as the stored path,
            // the attribute it was read from
            r matches Ok(Some(ic)) ==> (ic is InBucket || forall|n: int| #[trigger] icon_path(ic@, n) == rdf_icon@),
    {
        if rdf_icon.unicode_len() == 0 || starts_with(rdf_icon, MOZ_ICON_PREFIX) {
            return UnresolvedIcon::from_matches(rdf_icon, false, None, None);
        }
        let http = match Pattern::compile(HTTP_PATTERN) {
            Ok(p) => p,
            Err(_) => return Err(RdfError::InvalidPattern),
        };
        if http.is_match(rdf_icon) {
            return UnresolvedIcon::from_matches(rdf_icon, true, None, None);
        }
        let resource = match Pattern::compile(RESOURCE_PATTERN) {
            Ok(p) => p,
            Err(_) => return Err(RdfError::InvalidPattern),
        };
        let local_path = resource.capture_first(rdf_icon);
        if local_path.is_some() {
            return UnresolvedIcon::from_matches(rdf_icon, false, local_path, None);
        }
        let file = match Pattern::compile(FILE_PATTERN) {
            Ok(p) => p,
            Err(_) => return Err(RdfError::InvalidPattern),
        };
        let path = file.capture_first(rdf_icon);
        UnresolvedIcon::from_matches(rdf_icon, false, None, path)
    }

    /// The final path of this icon for a node whose data folder is
    /// `bucket_id`; an icon inside the data folder of a node without one is
    /// an error.
    pub fn resolve(self, bucket_id: Option<i32>) -> (r: Result<String, ResolveError>)
        ensures
            resolve_result_view(r) == resolved_icon(self@, opt_int(bucket_id)),
    {
        match &self {
            UnresolvedIcon::Url(url) => Ok(owned(url.as_str())),
            UnresolvedIcon::InBucket(local_path) => match bucket_id {
                Some(bid) => {
                    let mut out = String::new();
                    push_decimal(&mut out, bid);
                    proof { reveal_strlit("/"); }
                    out.append("/");
                    out.append(local_path.as_str());
                    assert(out@ =~= decimal(bid as int) + seq!['/'] + local_path@);
                    Ok(out)
                },
                None => Err(ResolveError::IconWithoutBucket(owned(local_path.as_str()))),
            },
            UnresolvedIcon::File(path) => {
                let mut out = String::from_str(FILE_URL_PREFIX);
                out.append(path.as_str());
                Ok(out)
            },
        }
    }

    /// The icon path of node `node_id` (see [`icon_path`]).
    pub fn to_icon_path(self, node_id: i32) -> (r: String)
        ensures
            r@ == icon_path(self@, node_id as int),
    {
        match self {
            UnresolvedIcon::Url(url) => url,
            UnresolvedIcon::InBucket(local_path) => {
                let mut out = String::from_str(SCRAPDOG_URL_PREFIX);
                push_decimal(&mut out, node_id);
                proof { reveal_strlit("/"); }
                out.append("/");
                out.append(local_path.as_str());
                out
            },
            UnresolvedIcon::File(path) => {
                let mut out = String::from_str(FILE_URL_PREFIX);
                out.append(path.as_str());
                out
            },
        }
    }
}

} // verus!
