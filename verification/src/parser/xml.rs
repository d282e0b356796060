//! The part of an XML document that an index is read from: the elements
//! under the root, each with its attributes and its own child elements.
use vstd::prelude::*;
use crate::text::str_equal;

verus! {

#[verifier::external_type_specification]
#[verifier::external_body]
pub struct ExMinidomError(minidom::Error);

/// An element: its local name (without prefix) and its attributes, in the
/// order of their names, each name written as in the document.
pub struct XmlTag {
    pub name: String,
    pub attrs: Vec<(String, String)>,
}

/// An element under the root, with its own child elements.
pub struct XmlEntry {
    pub tag: XmlTag,
    pub children: Vec<XmlTag>,
}

/// The mathematical value of an [`XmlTag`].
pub struct TagView {
    pub name: Seq<char>,
    pub attrs: Seq<(Seq<char>, Seq<char>)>,
}

/// The mathematical value of an [`XmlEntry`].
pub struct EntryView {
    pub tag: TagView,
    pub children: Seq<TagView>,
}

impl View for XmlTag {
    type V = TagView;

    open spec fn view(&self) -> TagView {
        TagView {
            name: self.name@,
            attrs: self.attrs@.map_values(|a: (String, String)| (a.0@, a.1@)),
        }
    }
}

impl View for XmlEntry {
    type V = EntryView;

    open spec fn view(&self) -> EntryView {
        EntryView {
            tag: self.tag@,
            children: self.children@.map_values(|t: XmlTag| t@),
        }
    }
}

/// The values of a sequence of entries.
pub open spec fn entries_view(v: Seq<XmlEntry>) -> Seq<EntryView> {
    v.map_values(|e: XmlEntry| e@)
}

/// The elements under the root of the document `text`, as
/// `minidom::Element`'s `FromStr` reads it; `None` when it refuses the text.
pub uninterp spec fn xml_entries(text: Seq<char>) -> Option<Seq<EntryView>>;

/// Parses `text` with `minidom::Element`'s `FromStr` and copies, for each
/// element under the root, its name, its attributes and the names and
/// attributes of its child elements. The contract claims that the copy is
/// `xml_entries` of the text, and that the parse fails exactly when that is
/// `None`.
#[verifier::external_body]
pub(crate) fn parse_xml(text: &str) -> (r: Result<Vec<XmlEntry>, minidom::Error>)
    ensures
        match r {
            Ok(v) => xml_entries(text@) == Some(entries_view(v@)),
            Err(_) => xml_entries(text@) is None,
        },
{
    let root: minidom::Element = text.parse()?;
    Ok(root.children().map(|e| XmlEntry {
        tag: XmlTag {
            name: e.name().to_string(),
            attrs: e.attrs().map(|(k, v)| (k.to_string(), v.to_string())).collect(),
        },
        children: e.children().map(|c| XmlTag {
            name: c.name().to_string(),
            attrs: c.attrs().map(|(k, v)| (k.to_string(), v.to_string())).collect(),
        }).collect(),
    }).collect())
}

/// Calls `Display` of `minidom::Error`: the text of what the XML reader
/// found wrong. Nothing is claimed of that text.
#[verifier::external_body]
pub(crate) fn xml_error_text(e: &minidom::Error) -> (r: String) {
    e.to_string()
}

/// The value of the first attribute named `name`.
pub open spec fn attr_value(attrs: Seq<(Seq<char>, Seq<char>)>, name: Seq<char>) -> Option<Seq<char>>
    decreases attrs.len(),
{
    if attrs.len() == 0 {
        None
    } else if attrs[0].0 == name {
        Some(attrs[0].1)
    } else {
        attr_value(attrs.drop_first(), name)
    }
}

proof fn lemma_attr_value_skip(attrs: Seq<(Seq<char>, Seq<char>)>, name: Seq<char>, i: int)
    requires
        0 <= i < attrs.len(),
        forall|j: int| 0 <= j < i ==> attrs[j].0 != name,
    ensures
        attr_value(attrs, name) == attr_value(attrs.skip(i), name),
    decreases i,
{
    if i > 0 {
        lemma_attr_value_skip(attrs.drop_first(), name, i - 1);
        assert(attrs.drop_first().skip(i - 1) =~= attrs.skip(i));
    } else {
        assert(attrs.skip(0) =~= attrs);
    }
}

proof fn lemma_attr_value_none(attrs: Seq<(Seq<char>, Seq<char>)>, name: Seq<char>)
    requires
        forall|j: int| 0 <= j < attrs.len() ==> attrs[j].0 != name,
    ensures
        attr_value(attrs, name) is None,
    decreases attrs.len(),
{
    if attrs.len() > 0 {
        lemma_attr_value_none(attrs.drop_first(), name);
    }
}

impl XmlTag {
    /// The value of the attribute `name`, if the element has it.
    pub fn attr<'a>(&'a self, name: &str) -> (r: Option<&'a str>)
        ensures
            match r {
                Some(v) => attr_value(self@.attrs, name@) == Some(v@),
                None => attr_value(self@.attrs, name@) is None,
            },
    {
        let n = self.attrs.len();
        let ghost attrs = self@.attrs;
        let mut i: usize = 0;
        while i < n
            invariant
                n == self.attrs@.len(),
                attrs == self@.attrs,
                attrs.len() == n,
                i <= n,
                forall|j: int| 0 <= j < i ==> attrs[j].0 != name@,
            decreases n - i,
        {
            let pair = &self.attrs[i];
            assert(attrs[i as int] == (pair.0@, pair.1@));
            if str_equal(pair.0.as_str(), name) {
                proof {
                    lemma_attr_value_skip(attrs, name@, i as int);
                }
                return Some(pair.1.as_str());
            }
            i = i + 1;
        }
        proof {
            lemma_attr_value_none(attrs, name@);
        }
        None
    }
}

} // verus!
