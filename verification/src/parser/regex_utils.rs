//! Compiled regular expressions of the `regex` crate, behind a small trusted
//! surface: a pattern is compiled once into a [`Pattern`] that remembers its
//! source text, and each query is stated over names for what `regex` answers.
use vstd::prelude::*;
use crate::text::has_prefix;
use crate::types::icon::{FILE_PATTERN, FILE_URL_PREFIX, HTTP_PATTERN, RESOURCE_PATTERN};
use crate::parser::resource::{ITEM_PATTERN, ITEM_PREFIX};

verus! {

#[verifier::external_type_specification]
#[verifier::external_body]
pub struct ExRegex(regex::Regex);

#[verifier::external_type_specification]
#[verifier::external_body]
pub struct ExRegexError(regex::Error);

/// Whether `regex::Regex::new` accepts `pattern` (with its default limits).
pub uninterp spec fn regex_compiles(pattern: Seq<char>) -> bool;

/// What `regex::Regex::is_match` answers for a regex compiled from `pattern`
/// on `text`.
pub uninterp spec fn regex_is_match(pattern: Seq<char>, text: Seq<char>) -> bool;

/// The text of capture group 1 of the first match of `pattern` in `text`, as
/// `regex::Regex::captures` reports it; `None` when nothing matches or the
/// group takes no part in the match.
pub uninterp spec fn regex_first_group(pattern: Seq<char>, text: Seq<char>) -> Option<Seq<char>>;

/// Whether `source` is one of the library's fixed patterns.
pub open spec fn is_fixed_pattern(source: Seq<char>) -> bool {
    source == HTTP_PATTERN@ || source == RESOURCE_PATTERN@ || source == FILE_PATTERN@ || source == ITEM_PATTERN@
}

/// Whether `text` begins with a web address scheme, `http://` or
/// `https://`.
pub open spec fn is_web_address(text: Seq<char>) -> bool {
    has_prefix(text, "http://"@) || has_prefix(text, "https://"@)
}

/// Whether `s` ends with `t`.
pub open spec fn ends_with(s: Seq<char>, t: Seq<char>) -> bool {
    t.len() <= s.len() && s.subrange(s.len() - t.len(), s.len() as int) == t
}

/// Whether every character of `s` is an ASCII digit.
pub open spec fn ascii_digits(s: Seq<char>) -> bool {
    forall|i: int| 0 <= i < s.len() ==> '0' <= #[trigger] s[i] && s[i] <= '9'
}

/// What the item pattern `urn:scrapbook:item(\d+)$` captures of `text`:
/// a non-empty group that, after `urn:scrapbook:item`, ends the text; and
/// where the text ends with `urn:scrapbook:item` and ASCII digits, exactly
/// those digits.
pub open spec fn item_capture(text: Seq<char>, r: Option<Seq<char>>) -> bool {
    &&& (r matches Some(g) ==> g.len() > 0 && ends_with(text, ITEM_PREFIX@ + g))
    &&& forall|g: Seq<char>| #[trigger] ascii_digits(g) && g.len() > 0 && ends_with(text, ITEM_PREFIX@ + g) ==> r == Some(g)
}

/// A regular expression together with the text it was compiled from.
pub struct Pattern {
    source: String,
    regex: regex::Regex,
}

/// A pattern that `regex` refused.
pub struct PatternError;

impl Pattern {
    /// The text this pattern was compiled from.
    pub closed spec fn source(&self) -> Seq<char> {
        self.source@
    }

    /// Compiles `source` with `regex::Regex::new`. The contract claims that
    /// the call succeeds exactly when `regex_compiles` holds of the source,
    /// that it succeeds for the library's fixed patterns (each is valid
    /// syntax of the regex crate and far below its size limits), and that
    /// the pattern remembers its source.
    #[verifier::external_body]
    pub(crate) fn compile(source: &str) -> (r: Result<Pattern, PatternError>)
        ensures
            r is Ok <==> regex_compiles(source@),
            is_fixed_pattern(source@) ==> r is Ok,
            r matches Ok(p) ==> p.source() == source@,
    {
        match regex::Regex::new(source) {
            Ok(regex) => Ok(Pattern { source: source.to_string(), regex }),
            Err(_) => Err(PatternError),
        }
    }

    /// Calls `regex::Regex::is_match`; the contract claims that the answer is
    /// `regex_is_match` of the pattern's source and the text, and that the
    /// web address pattern `^https?://` (anchored at the start of the text)
    /// matches exactly the texts that begin with `http://` or `https://`.
    #[verifier::external_body]
    pub(crate) fn is_match(&self, text: &str) -> (r: bool)
        ensures
            r == regex_is_match(self.source(), text@),
            self.source() == HTTP_PATTERN@ ==> (r <==> is_web_address(text@)),
    {
        self.regex.is_match(text)
    }
}

/// Extraction of the first capture group of a match.
pub trait RegexExt {
    fn capture_first<'a>(&self, text: &'a str) -> Option<&'a str>;
}

impl Pattern {
    /// Calls `regex::Regex::captures` and takes group 1 of the result as a
    /// slice of `text`; the contract claims that its characters are
    /// `regex_first_group` of the pattern's source and the text, and, for
    /// the file URL pattern `^file://(.+)$` (anchored at both ends of the
    /// text, with a literal prefix), that a captured group is the whole text
    /// after the prefix. For the item pattern `urn:scrapbook:item(\d+)$`
    /// it claims `item_capture`: the group is a run of digits that ends the
    /// text after the literal (the literal has no overlap with itself, so
    /// only its last occurrence can start a match), and ASCII digits there
    /// are captured whole.
    #[verifier::external_body]
    fn captures_group_one<'a>(&self, text: &'a str) -> (r: Option<&'a str>)
        ensures
            match r {
                Some(g) => regex_first_group(self.source(), text@) == Some(g@),
                None => regex_first_group(self.source(), text@) is None,
            },
            self.source() == FILE_PATTERN@ ==> (r matches Some(g) ==> text@ == FILE_URL_PREFIX@ + g@),
            self.source() == ITEM_PATTERN@ ==> item_capture(text@, match r { Some(g) => Some(g@), None => None }),
    {
        match self.regex.captures(text) {
            Some(caps) => caps.get(1).map(|m| m.as_str()),
            None => None,
        }
    }
}

impl RegexExt for Pattern {
    fn capture_first<'a>(&self, text: &'a str) -> (r: Option<&'a str>)
        ensures
            match r {
                Some(g) => regex_first_group(self.source(), text@) == Some(g@),
                None => regex_first_group(self.source(), text@) is None,
            },
            self.source() == FILE_PATTERN@ ==> (r matches Some(g) ==> text@ == FILE_URL_PREFIX@ + g@),
            self.source() == ITEM_PATTERN@ ==> item_capture(text@, match r { Some(g) => Some(g@), None => None }),
    {
        self.captures_group_one(text)
    }
}

} // verus!
