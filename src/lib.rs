//! Parsing of the value of an HTTP `Link:` header into a map from relation type to
//! link entry.

mod error;
mod laws;
mod link;
mod maps;
mod parser;
mod text;

pub use error::{Error, ErrorKind};
pub use laws::{
    clean_entry, law_leading_ampersand, law_missing_rel, law_parse_deterministic,
    law_raw_reference_reparses, law_rel_present, law_two_entries, plain_text, rel_opening,
    two_entry_header,
};
pub use link::{opt_view, uri_accepts, uri_query, Link, LinkMap, LinkModel, RelLinkMap};
pub use maps::{keys_distinct, pair_views, pairs_map, EntryMap, MapKey, MapValue, ParamMap};
pub use parser::{
    collect_pairs, entries_result, entry_result, link_map_of, links_result, parse, parse_entries,
    parse_entry, parse_with_rel, query_map, query_pairs, rel_link_map_of, split_pairs,
};
pub use text::{
    is_noise, is_white_space, remove_noise, same_text, split_fields, split_once_at, split_once_seq,
    split_seq, strip_noise,
};
