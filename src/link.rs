use vstd::prelude::*;
use crate::maps::{EntryMap, MapValue, ParamMap};
use crate::text::same_text;

verus! {

#[verifier::external_type_specification]
#[verifier::external_body]
pub struct ExUri(http::Uri);

/// Whether http's URI parser accepts the text as a URI or a relative reference.
pub uninterp spec fn uri_accepts(s: Seq<char>) -> bool;

/// The query component that http's URI parser finds in the text it accepts.
pub uninterp spec fn uri_query(s: Seq<char>) -> Option<Seq<char>>;

/// The view of an optional string.
pub open spec fn opt_view(o: Option<String>) -> Option<Seq<char>> {
    match o {
        Some(s) => Some(s@),
        None => None,
    }
}

/// Relies on `<http::Uri as FromStr>::from_str` to parse `s`, and on
/// `http::Uri::query` for the query component of what it parsed. Both depend on
/// the text of `s` alone; an empty text is refused.
#[verifier::external_body]
pub(crate) fn parse_reference(s: &str) -> (r: Option<(http::Uri, Option<String>)>)
    ensures
        r is Some <==> uri_accepts(s@),
        s@.len() == 0 ==> r is None,
        r matches Some((_, q)) ==> opt_view(q) == uri_query(s@),
{
    match s.parse::<http::Uri>() {
        Ok(uri) => {
            let q = match uri.query() {
                Some(t) => Some(t.to_string()),
                None => None,
            };
            Some((uri, q))
        },
        Err(_) => None,
    }
}

/// What a `Link` holds, apart from the parsed URI.
pub struct LinkModel {
    pub raw: Seq<char>,
    pub queries: Map<Seq<char>, Seq<char>>,
    pub params: Map<Seq<char>, Seq<char>>,
}

/// A single entry of a `Link:` header: the reference as written, its parsed form,
/// the pairs of its query and its parameters.
#[derive(Debug)]
pub struct Link {
    /// The parsed reference.
    pub uri: http::Uri,
    /// The reference as it stands in the header.
    pub raw_uri: String,
    /// The `key=value` pairs of the reference's query.
    pub queries: ParamMap,
    /// The `key=value` parameters of the entry, `rel` among them when present.
    pub params: ParamMap,
}

impl View for Link {
    type V = LinkModel;

    open spec fn view(&self) -> LinkModel {
        LinkModel { raw: self.raw_uri@, queries: self.queries@, params: self.params@ }
    }
}

impl MapValue for Link {
    /// Compares the raw references and both maps; the parsed `uri` is a
    /// function of `raw_uri`.
    fn same_value(&self, other: &Self) -> (r: bool) {
        same_text(self.raw_uri.as_str(), other.raw_uri.as_str()) && self.queries.same_entries(
            &other.queries,
        ) && self.params.same_entries(&other.params)
    }
}

impl PartialEq for Link {
    fn eq(&self, other: &Self) -> (r: bool) {
        self.same_value(other)
    }
}

impl vstd::std_specs::cmp::PartialEqSpecImpl for Link {
    open spec fn obeys_eq_spec() -> bool {
        true
    }

    open spec fn eq_spec(&self, other: &Self) -> bool {
        self@ == other@
    }
}

/// Links by relation, where an entry may lack one.
pub type LinkMap = EntryMap<Option<String>, Link>;

/// Links by relation, where every entry has one.
pub type RelLinkMap = EntryMap<String, Link>;

} // verus!
