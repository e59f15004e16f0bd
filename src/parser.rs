use vstd::prelude::*;
use crate::error::{Error, ErrorKind};
use crate::link::{
    opt_view, parse_reference, uri_accepts, uri_query, Link, LinkMap, LinkModel, RelLinkMap,
};
use crate::maps::{lemma_pairs_map_push, pairs_map, MapKey, ParamMap};
use crate::text::{
    lemma_split_seq_nonempty, remove_noise, split_fields, split_once_at, split_once_seq, split_seq,
    string_views, strip_noise,
};

verus! {

/// The name of the relation parameter.
pub open spec fn rel_key() -> Seq<char> {
    seq!['r', 'e', 'l']
}

/// Each field cut at its first `=` into a key and a value, or `None` where a
/// field has no `=`.
pub open spec fn split_pairs(fields: Seq<Seq<char>>) -> Option<Seq<(Seq<char>, Seq<char>)>>
    decreases fields.len(),
{
    if fields.len() == 0 {
        Some(Seq::empty())
    } else {
        match (split_pairs(fields.drop_last()), split_once_seq(fields.last(), '=')) {
            (Some(ps), Some(p)) => Some(ps.push(p)),
            _ => None,
        }
    }
}

/// A query without one leading `&`.
pub open spec fn drop_leading_amp(q: Seq<char>) -> Seq<char> {
    if q.len() > 0 && q[0] == '&' {
        q.drop_first()
    } else {
        q
    }
}

/// The pairs of a query component: none for an absent or empty one.
pub open spec fn query_pairs(q: Option<Seq<char>>) -> Option<Seq<(Seq<char>, Seq<char>)>> {
    match q {
        None => Some(Seq::empty()),
        Some(t) => if t.len() == 0 {
            Some(Seq::empty())
        } else {
            split_pairs(split_seq(drop_leading_amp(t), '&'))
        },
    }
}

/// The value of `rel` among the parameters, if any.
pub open spec fn rel_of(params: Map<Seq<char>, Seq<char>>) -> Option<Seq<char>> {
    if params.contains_key(rel_key()) {
        Some(params[rel_key()])
    } else {
        None
    }
}

/// The relation and the link that one entry of a cleaned header gives, or the
/// first error met in it: the parameters are split first, then the reference
/// is resolved, then its query is split, and last the relation is looked up.
pub open spec fn entry_result(e: Seq<char>, mandatory_rel: bool) -> Result<
    (Option<Seq<char>>, LinkModel),
    ErrorKind,
> {
    let fields = split_seq(e, ';');
    let raw = fields[0];
    match split_pairs(fields.subrange(1, fields.len() as int)) {
        None => Err(ErrorKind::MalformedParam),
        Some(ps) => if !uri_accepts(raw) {
            Err(ErrorKind::InvalidURI)
        } else {
            match query_pairs(uri_query(raw)) {
                None => Err(ErrorKind::MalformedQuery),
                Some(qs) => {
                    let params = pairs_map(ps);
                    if mandatory_rel && rel_of(params) is None {
                        Err(ErrorKind::MissingRel)
                    } else {
                        Ok((rel_of(params), LinkModel { raw, queries: pairs_map(qs), params }))
                    }
                },
            }
        },
    }
}

/// The results of the entries in order, or the error of the first one that fails.
pub open spec fn entries_result(es: Seq<Seq<char>>, mandatory_rel: bool) -> Result<
    Seq<(Option<Seq<char>>, LinkModel)>,
    ErrorKind,
>
    decreases es.len(),
{
    if es.len() == 0 {
        Ok(Seq::empty())
    } else {
        match entries_result(es.drop_last(), mandatory_rel) {
            Err(e) => Err(e),
            Ok(done) => match entry_result(es.last(), mandatory_rel) {
                Err(e) => Err(e),
                Ok(x) => Ok(done.push(x)),
            },
        }
    }
}

/// The entries of a header from which the noise characters are gone.
pub open spec fn links_result(cleaned: Seq<char>, mandatory_rel: bool) -> Result<
    Seq<(Option<Seq<char>>, LinkModel)>,
    ErrorKind,
> {
    entries_result(split_seq(cleaned, ','), mandatory_rel)
}

/// The views of parsed entries.
pub open spec fn entry_views(v: Seq<(Option<String>, Link)>) -> Seq<(Option<Seq<char>>, LinkModel)> {
    v.map_values(|x: (Option<String>, Link)| (x.0.key_view(), x.1@))
}

proof fn lemma_split_pairs_none(s: Seq<Seq<char>>, k: int)
    requires
        0 <= k <= s.len(),
        split_pairs(s.subrange(0, k)) is None,
    ensures
        split_pairs(s) is None,
    decreases s.len(),
{
    if k == s.len() {
        assert(s.subrange(0, k) =~= s);
    } else {
        assert(s.drop_last().subrange(0, k) =~= s.subrange(0, k));
        lemma_split_pairs_none(s.drop_last(), k);
    }
}

proof fn lemma_entries_err(s: Seq<Seq<char>>, k: int, m: bool, e: ErrorKind)
    requires
        0 <= k <= s.len(),
        entries_result(s.subrange(0, k), m) == Err::<Seq<(Option<Seq<char>>, LinkModel)>, ErrorKind>(e),
    ensures
        entries_result(s, m) == Err::<Seq<(Option<Seq<char>>, LinkModel)>, ErrorKind>(e),
    decreases s.len(),
{
    if k == s.len() {
        assert(s.subrange(0, k) =~= s);
    } else {
        assert(s.drop_last().subrange(0, k) =~= s.subrange(0, k));
        lemma_entries_err(s.drop_last(), k, m, e);
    }
}

/// Cuts each of `fields[from..]` at its first `=` and collects the pairs, a later
/// key winning over an earlier one.
pub fn collect_pairs(fields: &Vec<String>, from: usize) -> (r: Option<ParamMap>)
    requires
        from <= fields.len(),
    ensures
        match r {
            Some(m) => {
                &&& split_pairs(string_views(fields@).subrange(from as int, fields.len() as int))
                    matches Some(ps)
                &&& m@ == pairs_map(ps)
            },
            None => split_pairs(
                string_views(fields@).subrange(from as int, fields.len() as int),
            ) is None,
        },
{
    let ghost views = string_views(fields@);
    let mut m = ParamMap::new();
    let ghost mut ps: Seq<(Seq<char>, Seq<char>)> = Seq::empty();
    let mut i: usize = from;
    assert(views.subrange(from as int, from as int) =~= Seq::<Seq<char>>::empty());
    while i < fields.len()
        invariant
            views == string_views(fields@),
            from <= i <= fields.len(),
            split_pairs(views.subrange(from as int, i as int)) == Some(ps),
            m@ == pairs_map(ps),
        decreases fields.len() - i,
    {
        let ghost sub = views.subrange(from as int, i + 1);
        assert(sub.drop_last() =~= views.subrange(from as int, i as int));
        assert(sub.last() == fields@[i as int]@);
        match split_once_at(fields[i].as_str(), '=') {
            None => {
                proof {
                    let whole = views.subrange(from as int, fields.len() as int);
                    assert(whole.subrange(0, i + 1 - from) =~= sub);
                    lemma_split_pairs_none(whole, i + 1 - from);
                }
                return None;
            },
            Some((k, v)) => {
                proof {
                    lemma_pairs_map_push(ps, k@, v@);
                    ps = ps.push((k@, v@));
                }
                m.insert(k, v);
            },
        }
        i = i + 1;
    }
    Some(m)
}

/// The pairs of a reference's query component, after one leading `&` is dropped.
pub fn query_map(q: Option<String>) -> (r: Option<ParamMap>)
    ensures
        match r {
            Some(m) => {
                &&& query_pairs(opt_view(q)) matches Some(qs)
                &&& m@ == pairs_map(qs)
            },
            None => query_pairs(opt_view(q)) is None,
        },
{
    match q {
        None => Some(ParamMap::new()),
        Some(t) => {
            let n = t.as_str().unicode_len();
            if n == 0 {
                return Some(ParamMap::new());
            }
            let body = if t.as_str().get_char(0) == '&' {
                t.as_str().substring_char(1, n)
            } else {
                t.as_str()
            };
            assert(body@ == drop_leading_amp(t@));
            let pieces = split_fields(body, '&');
            assert(string_views(pieces@).subrange(0, pieces.len() as int) =~= string_views(
                pieces@,
            ));
            collect_pairs(&pieces, 0)
        },
    }
}

/// Parses one entry of a cleaned header into its relation and its link.
pub fn parse_entry(e: &str, mandatory_rel: bool) -> (r: Result<(Option<String>, Link), Error>)
    ensures
        match r {
            Ok((rel, link)) => {
                &&& entry_result(e@, mandatory_rel) == Ok::<_, ErrorKind>((opt_view(rel), link@))
            },
            Err(err) => entry_result(e@, mandatory_rel) == Err::<
                (Option<Seq<char>>, LinkModel),
                ErrorKind,
            >(err.0),
        },
{
    let fields = split_fields(e, ';');
    proof {
        lemma_split_seq_nonempty(e@, ';');
    }
    let params = match collect_pairs(&fields, 1) {
        None => return Err(Error(ErrorKind::MalformedParam)),
        Some(m) => m,
    };
    let raw_uri = fields[0].clone();
    assert(raw_uri@ == split_seq(e@, ';')[0]);
    let (uri, query) = match parse_reference(raw_uri.as_str()) {
        None => return Err(Error(ErrorKind::InvalidURI)),
        Some(parsed) => parsed,
    };
    let queries = match query_map(query) {
        None => return Err(Error(ErrorKind::MalformedQuery)),
        Some(m) => m,
    };
    proof {
        reveal_strlit("rel");
    }
    let rel_name = String::from_str("rel");
    assert(rel_name@ =~= rel_key());
    let rel = match params.get(&rel_name) {
        Some(v) => Some(v.clone()),
        None => None,
    };
    if mandatory_rel && rel.is_none() {
        return Err(Error(ErrorKind::MissingRel));
    }
    Ok((rel, Link { uri, raw_uri, queries, params }))
}

/// Parses every entry of a cleaned header, in order, stopping at the first error.
pub fn parse_entries(cleaned: &str, mandatory_rel: bool) -> (r: Result<
    Vec<(Option<String>, Link)>,
    Error,
>)
    ensures
        match r {
            Ok(v) => {
                &&& links_result(cleaned@, mandatory_rel) == Ok::<_, ErrorKind>(entry_views(v@))
            },
            Err(err) => links_result(cleaned@, mandatory_rel) == Err::<
                Seq<(Option<Seq<char>>, LinkModel)>,
                ErrorKind,
            >(err.0),
        },
{
    let pieces = split_fields(cleaned, ',');
    let ghost views = string_views(pieces@);
    let mut out: Vec<(Option<String>, Link)> = Vec::new();
    let mut i: usize = 0;
    assert(views.subrange(0, 0) =~= Seq::<Seq<char>>::empty());
    assert(entry_views(out@) =~= Seq::empty());
    while i < pieces.len()
        invariant
            views == string_views(pieces@),
            views == split_seq(cleaned@, ','),
            i <= pieces.len(),
            entries_result(views.subrange(0, i as int), mandatory_rel) == Ok::<_, ErrorKind>(
                entry_views(out@),
            ),
        decreases pieces.len() - i,
    {
        let ghost sub = views.subrange(0, i + 1);
        assert(sub.drop_last() =~= views.subrange(0, i as int));
        assert(sub.last() == pieces@[i as int]@);
        match parse_entry(pieces[i].as_str(), mandatory_rel) {
            Err(err) => {
                proof {
                    lemma_entries_err(views, i + 1, mandatory_rel, err.0);
                }
                return Err(err);
            },
            Ok(x) => {
                let ghost before = entry_views(out@);
                out.push(x);
                assert(entry_views(out@) =~= before.push((x.0.key_view(), x.1@)));
            },
        }
        i = i + 1;
    }
    assert(views.subrange(0, pieces.len() as int) =~= views);
    Ok(out)
}

/// The text of a relation known to be present.
pub open spec fn rel_text(o: Option<Seq<char>>) -> Seq<char> {
    match o {
        Some(t) => t,
        None => Seq::empty(),
    }
}

/// Parsed entries keyed by their relation text.
pub open spec fn rel_entries(s: Seq<(Option<Seq<char>>, LinkModel)>) -> Seq<(Seq<char>, LinkModel)> {
    s.map_values(|x: (Option<Seq<char>>, LinkModel)| (rel_text(x.0), x.1))
}

/// What `parse` gives for a header.
pub open spec fn link_map_of(link_header: Seq<char>) -> Result<
    Map<Option<Seq<char>>, LinkModel>,
    ErrorKind,
> {
    match links_result(strip_noise(link_header), false) {
        Ok(s) => Ok(pairs_map(s)),
        Err(e) => Err(e),
    }
}

/// What `parse_with_rel` gives for a header.
pub open spec fn rel_link_map_of(link_header: Seq<char>) -> Result<
    Map<Seq<char>, LinkModel>,
    ErrorKind,
> {
    match links_result(strip_noise(link_header), true) {
        Ok(s) => Ok(pairs_map(rel_entries(s))),
        Err(e) => Err(e),
    }
}

/// Every parsed entry has a relation.
pub open spec fn all_have_rel(s: Seq<(Option<Seq<char>>, LinkModel)>) -> bool {
    forall|i: int| 0 <= i < s.len() ==> (#[trigger] s[i]).0 is Some
}

/// Taking the first of the parsed entries that remain moves the window over
/// their views one place on.
proof fn lemma_views_after_remove(
    rest: Seq<(Option<String>, Link)>,
    all: Seq<(Option<Seq<char>>, LinkModel)>,
    k: int,
)
    requires
        0 <= k <= all.len(),
        rest.len() > 0,
        entry_views(rest) == all.subrange(k, all.len() as int),
    ensures
        k < all.len(),
        entry_views(rest)[0] == all[k],
        entry_views(rest.remove(0)) == all.subrange(k + 1, all.len() as int),
{
    let sub = all.subrange(k, all.len() as int);
    assert(sub.len() == rest.len());
    assert(sub[0] == all[k]);
    assert forall|j: int| 0 <= j < rest.len() - 1 implies #[trigger] entry_views(rest.remove(0))[j]
        == all[k + 1 + j] by {
        assert(rest.remove(0)[j] == rest[j + 1]);
        assert(entry_views(rest)[j + 1] == sub[j + 1]);
    }
    assert(entry_views(rest.remove(0)) =~= all.subrange(k + 1, all.len() as int));
}

/// Files parsed entries by relation, a later entry replacing an earlier one with
/// the same relation.
fn into_link_map(v: Vec<(Option<String>, Link)>) -> (r: LinkMap)
    ensures
        r@ == pairs_map(entry_views(v@)),
{
    let ghost all = entry_views(v@);
    let mut rest = v;
    let mut m = LinkMap::new();
    let ghost mut k: int = 0;
    assert(all.subrange(0, 0) =~= Seq::<(Option<Seq<char>>, LinkModel)>::empty());
    assert(all.subrange(0, all.len() as int) =~= all);
    while rest.len() > 0
        invariant
            0 <= k <= all.len(),
            entry_views(rest@) == all.subrange(k, all.len() as int),
            m@ == pairs_map(all.subrange(0, k)),
        decreases rest.len(),
    {
        let ghost old_rest = rest@;
        let x = rest.remove(0);
        proof {
            lemma_views_after_remove(old_rest, all, k);
            assert(all.subrange(0, k + 1).drop_last() =~= all.subrange(0, k));
        }
        m.insert(x.0, x.1);
        proof {
            k = k + 1;
        }
    }
    assert(all.subrange(0, k) =~= all);
    m
}

/// Files parsed entries that all have a relation by its text, a later entry
/// replacing an earlier one with the same relation.
fn into_rel_link_map(v: Vec<(Option<String>, Link)>) -> (r: RelLinkMap)
    requires
        all_have_rel(entry_views(v@)),
    ensures
        r@ == pairs_map(rel_entries(entry_views(v@))),
{
    let ghost all = rel_entries(entry_views(v@));
    let ghost full = entry_views(v@);
    let mut rest = v;
    let mut m = RelLinkMap::new();
    let ghost mut k: int = 0;
    assert(all.subrange(0, 0) =~= Seq::<(Seq<char>, LinkModel)>::empty());
    assert(full.subrange(0, full.len() as int) =~= full);
    while rest.len() > 0
        invariant
            0 <= k <= full.len(),
            all.len() == full.len(),
            all == rel_entries(full),
            all_have_rel(full),
            entry_views(rest@) == full.subrange(k, full.len() as int),
            m@ == pairs_map(all.subrange(0, k)),
        decreases rest.len(),
    {
        let ghost old_rest = rest@;
        let x = rest.remove(0);
        proof {
            lemma_views_after_remove(old_rest, full, k);
            assert(all.subrange(0, k + 1).drop_last() =~= all.subrange(0, k));
        }
        match x.0 {
            Some(rel) => {
                m.insert(rel, x.1);
            },
            None => {
                assert(full[k].0 is Some);
            },
        }
        proof {
            k = k + 1;
        }
    }
    assert(all.subrange(0, k) =~= all);
    m
}

proof fn lemma_mandatory_all_have_rel(es: Seq<Seq<char>>, s: Seq<(Option<Seq<char>>, LinkModel)>)
    requires
        entries_result(es, true) == Ok::<_, ErrorKind>(s),
    ensures
        all_have_rel(s),
    decreases es.len(),
{
    if es.len() > 0 {
        let done = entries_result(es.drop_last(), true)->Ok_0;
        lemma_mandatory_all_have_rel(es.drop_last(), done);
        assert forall|i: int| 0 <= i < s.len() implies (#[trigger] s[i]).0 is Some by {
            if i < done.len() {
                assert(s[i] == done[i]);
            }
        }
    }
}

/// Parses the value of a `Link:` header into its links by relation; an entry
/// without a `rel` parameter is filed under `None`. Angle brackets, double
/// quotes and white space are dropped first, then the text is split into entries
/// at `,` and each entry into fields at `;`: the reference, then `key=value`
/// parameters. The first entry that fails decides the error.
pub fn parse(link_header: &str) -> (r: Result<LinkMap, Error>)
    ensures
        match r {
            Ok(m) => link_map_of(link_header@) == Ok::<_, ErrorKind>(m@),
            Err(e) => link_map_of(link_header@) == Err::<
                Map<Option<Seq<char>>, LinkModel>,
                ErrorKind,
            >(e.0),
        },
{
    let cleaned = remove_noise(link_header);
    match parse_entries(cleaned.as_str(), false) {
        Err(e) => Err(e),
        Ok(v) => Ok(into_link_map(v)),
    }
}

/// Parses the value of a `Link:` header as `parse` does, where every entry must
/// have a `rel` parameter: the first entry without one fails with `MissingRel`.
pub fn parse_with_rel(link_header: &str) -> (r: Result<RelLinkMap, Error>)
    ensures
        match r {
            Ok(m) => rel_link_map_of(link_header@) == Ok::<_, ErrorKind>(m@),
            Err(e) => rel_link_map_of(link_header@) == Err::<
                Map<Seq<char>, LinkModel>,
                ErrorKind,
            >(e.0),
        },
{
    let cleaned = remove_noise(link_header);
    match parse_entries(cleaned.as_str(), true) {
        Err(e) => Err(e),
        Ok(v) => {
            proof {
                lemma_mandatory_all_have_rel(split_seq(cleaned@, ','), entry_views(v@));
            }
            Ok(into_rel_link_map(v))
        },
    }
}

} // verus!
