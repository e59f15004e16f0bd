use vstd::prelude::*;
use crate::error::ErrorKind;
use crate::link::{uri_accepts, uri_query, LinkModel};
use crate::maps::{lemma_pairs_map_dom, lemma_pairs_map_value, pairs_map};
use crate::parser::{
    all_have_rel, drop_leading_amp, entries_result, entry_result, link_map_of,
    query_pairs, rel_entries, rel_key, rel_link_map_of, rel_text, split_pairs,
};
use crate::text::{first_at, is_noise, split_once_seq, split_seq, strip_noise};

verus! {

proof fn lemma_entry_mandatory(e: Seq<char>)
    ensures
        match entry_result(e, false) {
            Ok((None, _)) => entry_result(e, true) == Err::<
                (Option<Seq<char>>, LinkModel),
                ErrorKind,
            >(ErrorKind::MissingRel),
            other => entry_result(e, true) == other,
        },
{
}

proof fn lemma_entries_mandatory(es: Seq<Seq<char>>)
    ensures
        match entries_result(es, false) {
            Ok(s) => if all_have_rel(s) {
                entries_result(es, true) == Ok::<_, ErrorKind>(s)
            } else {
                entries_result(es, true) == Err::<Seq<(Option<Seq<char>>, LinkModel)>, ErrorKind>(
                    ErrorKind::MissingRel,
                )
            },
            Err(_) => entries_result(es, true) is Err,
        },
    decreases es.len(),
{
    if es.len() > 0 {
        lemma_entries_mandatory(es.drop_last());
        lemma_entry_mandatory(es.last());
        if let Ok(done) = entries_result(es.drop_last(), false) {
            if let Ok(x) = entry_result(es.last(), false) {
                let s = done.push(x);
                if all_have_rel(done) && x.0 is Some {
                    assert forall|i: int| 0 <= i < s.len() implies (#[trigger] s[i]).0 is Some by {
                        if i < done.len() {
                            assert(s[i] == done[i]);
                        }
                    }
                } else if !all_have_rel(done) {
                    let i = choose|i: int| 0 <= i < done.len() && !((#[trigger] done[i]).0 is Some);
                    assert(s[i] == done[i]);
                } else {
                    assert(!(s[s.len() - 1].0 is Some));
                }
            }
        }
    }
}

/// Where `parse` succeeds on a header with an entry that has no `rel`
/// parameter, `parse_with_rel` fails on it with `MissingRel`.
pub proof fn law_missing_rel(link_header: Seq<char>)
    requires
        link_map_of(link_header) matches Ok(m) && m.contains_key(None),
    ensures
        rel_link_map_of(link_header) == Err::<Map<Seq<char>, LinkModel>, ErrorKind>(
            ErrorKind::MissingRel,
        ),
{
    let es = split_seq(strip_noise(link_header), ',');
    lemma_entries_mandatory(es);
    let s = entries_result(es, false)->Ok_0;
    lemma_pairs_map_dom(s, None);
    let i = choose|i: int| 0 <= i < s.len() && s[i].0 == None::<Seq<char>>;
    assert(!(s[i].0 is Some));
}

proof fn lemma_rel_entries_map(s: Seq<(Option<Seq<char>>, LinkModel)>)
    requires
        all_have_rel(s),
    ensures
        forall|k: Seq<char>|
            #![trigger pairs_map(rel_entries(s)).contains_key(k)]
            pairs_map(rel_entries(s)).contains_key(k) == pairs_map(s).contains_key(Some(k)),
        forall|k: Seq<char>|
            #![trigger pairs_map(rel_entries(s))[k]]
            pairs_map(s).contains_key(Some(k)) ==> pairs_map(rel_entries(s))[k] == pairs_map(
                s,
            )[Some(k)],
    decreases s.len(),
{
    if s.len() > 0 {
        let p = s.drop_last();
        assert(all_have_rel(p)) by {
            assert forall|i: int| 0 <= i < p.len() implies (#[trigger] p[i]).0 is Some by {
                assert(p[i] == s[i]);
            }
        }
        lemma_rel_entries_map(p);
        assert(rel_entries(s).drop_last() =~= rel_entries(p));
        assert(s[s.len() - 1].0 is Some);
        assert(rel_entries(s).last() == (rel_text(s.last().0), s.last().1));
        let t = rel_text(s.last().0);
        assert(s.last().0 == Some(t));
        let rm = pairs_map(rel_entries(s));
        let m = pairs_map(s);
        assert(rm == pairs_map(rel_entries(p)).insert(t, s.last().1));
        assert(m == pairs_map(p).insert(Some(t), s.last().1));
        assert forall|k: Seq<char>| #[trigger] rm.contains_key(k) == m.contains_key(Some(k)) by {
            if k != t {
                assert(pairs_map(rel_entries(p)).contains_key(k) == pairs_map(p).contains_key(
                    Some(k),
                ));
            }
        }
        assert forall|k: Seq<char>| m.contains_key(Some(k)) implies #[trigger] rm[k] == m[Some(
            k,
        )] by {
            if k != t {
                assert(pairs_map(rel_entries(p)).contains_key(k) == pairs_map(p).contains_key(
                    Some(k),
                ));
                assert(pairs_map(rel_entries(p))[k] == pairs_map(p)[Some(k)]);
            }
        }
    } else {
        assert(rel_entries(s) =~= Seq::<(Seq<char>, LinkModel)>::empty());
    }
}

/// Where `parse` succeeds on a header in which every entry has a `rel`
/// parameter, `parse_with_rel` succeeds on it too, with the same links under
/// the same relations.
pub proof fn law_rel_present(link_header: Seq<char>)
    requires
        link_map_of(link_header) matches Ok(m) && !m.contains_key(None),
    ensures
        rel_link_map_of(link_header) matches Ok(rm) && (forall|k: Seq<char>|
            #[trigger] rm.contains_key(k) == link_map_of(link_header)->Ok_0.contains_key(Some(k)))
            && (forall|k: Seq<char>|
            #[trigger] rm.contains_key(k) ==> rm[k] == link_map_of(link_header)->Ok_0[Some(k)]),
{
    let es = split_seq(strip_noise(link_header), ',');
    lemma_entries_mandatory(es);
    let s = entries_result(es, false)->Ok_0;
    assert(all_have_rel(s)) by {
        assert forall|i: int| 0 <= i < s.len() implies (#[trigger] s[i]).0 is Some by {
            if s[i].0 is None {
                lemma_pairs_map_dom(s, None);
                assert(s[i].0 == None::<Seq<char>>);
            }
        }
    }
    lemma_rel_entries_map(s);
}

/// Parsing gives the same result for two headers that differ only in noise
/// characters; in particular, parsing one header twice gives equal results.
pub proof fn law_parse_deterministic(h1: Seq<char>, h2: Seq<char>)
    requires
        strip_noise(h1) == strip_noise(h2),
    ensures
        link_map_of(h1) == link_map_of(h2),
        rel_link_map_of(h1) == rel_link_map_of(h2),
{
}

/// A query that starts with a stray `&` gives the pairs of the query without it.
pub proof fn law_leading_ampersand(q: Seq<char>)
    requires
        q.len() > 0,
        q[0] != '&',
    ensures
        query_pairs(Some(seq!['&'] + q)) == query_pairs(Some(q)),
{
    assert(drop_leading_amp(seq!['&'] + q) =~= q);
}

proof fn lemma_entries_reparse(es: Seq<Seq<char>>, m: bool)
    requires
        entries_result(es, m) is Ok,
    ensures
        forall|j: int|
            0 <= j < entries_result(es, m)->Ok_0.len() ==> {
                let l = (#[trigger] entries_result(es, m)->Ok_0[j]).1;
                &&& uri_accepts(l.raw)
                &&& query_pairs(uri_query(l.raw)) matches Some(qs)
                &&& l.queries == pairs_map(qs)
            },
    decreases es.len(),
{
    if es.len() > 0 {
        lemma_entries_reparse(es.drop_last(), m);
    }
}

/// The raw reference of every link that `parse` gives parses again, with the
/// same query pairs.
pub proof fn law_raw_reference_reparses(link_header: Seq<char>)
    requires
        link_map_of(link_header) is Ok,
    ensures
        forall|k: Option<Seq<char>>|
            #![trigger link_map_of(link_header)->Ok_0[k]]
            link_map_of(link_header)->Ok_0.contains_key(k) ==> {
                let l = link_map_of(link_header)->Ok_0[k];
                &&& uri_accepts(l.raw)
                &&& query_pairs(uri_query(l.raw)) matches Some(qs)
                &&& l.queries == pairs_map(qs)
            },
{
    let es = split_seq(strip_noise(link_header), ',');
    lemma_entries_reparse(es, false);
    let s = entries_result(es, false)->Ok_0;
    assert forall|k: Option<Seq<char>>| #[trigger]
        pairs_map(s).contains_key(k) implies {
            let l = pairs_map(s)[k];
            &&& uri_accepts(l.raw)
            &&& query_pairs(uri_query(l.raw)) matches Some(qs)
            &&& l.queries == pairs_map(qs)
        } by {
        lemma_pairs_map_value(s, k);
        let j = choose|j: int| 0 <= j < s.len() && s[j] == (k, pairs_map(s)[k]);
        assert(s[j].1 == pairs_map(s)[k]);
    }
}

/// Text with no noise character, no `,` and no `;`.
pub open spec fn plain_text(s: Seq<char>) -> bool {
    forall|i: int| 0 <= i < s.len() ==> !is_noise(#[trigger] s[i]) && s[i] != ',' && s[i] != ';'
}

/// `; rel="` as it stands between a reference and its relation.
pub open spec fn rel_opening() -> Seq<char> {
    seq!['>', ';', ' ', 'r', 'e', 'l', '=', '"']
}

/// `<u1>; rel="a", <u2>; rel="b"`.
pub open spec fn two_entry_header(u1: Seq<char>, a: Seq<char>, u2: Seq<char>, b: Seq<char>) -> Seq<
    char,
> {
    seq!['<'] + u1 + rel_opening() + a + seq!['"', ',', ' ', '<'] + u2 + rel_opening() + b
        + seq!['"']
}

proof fn lemma_strip_plain(x: Seq<char>)
    requires
        plain_text(x),
    ensures
        strip_noise(x) == x,
    decreases x.len(),
{
    reveal(Seq::filter);
    if x.len() > 0 {
        assert(plain_text(x.drop_last()));
        lemma_strip_plain(x.drop_last());
        assert(x.drop_last().push(x.last()) =~= x);
    }
}

proof fn lemma_strip_add(x: Seq<char>, y: Seq<char>)
    ensures
        strip_noise(x + y) == strip_noise(x) + strip_noise(y),
{
    Seq::filter_distributes_over_add(x, y, |c: char| !is_noise(c));
}

proof fn lemma_split_plain(x: Seq<char>, sep: char)
    requires
        !x.contains(sep),
    ensures
        split_seq(x, sep) == seq![x],
    decreases x.len(),
{
    if x.len() > 0 {
        assert(!x.drop_last().contains(sep)) by {
            if x.drop_last().contains(sep) {
                let i = choose|i: int| 0 <= i < x.drop_last().len() && x.drop_last()[i] == sep;
                assert(x[i] == sep);
            }
        }
        lemma_split_plain(x.drop_last(), sep);
        assert(x.last() != sep) by {
            assert(x[x.len() - 1] == x.last());
        }
        assert(x.drop_last().push(x.last()) =~= x);
    } else {
        assert(x =~= Seq::<char>::empty());
    }
}

proof fn lemma_split_join(x: Seq<char>, y: Seq<char>, sep: char)
    ensures
        split_seq(x + seq![sep] + y, sep) == split_seq(x, sep) + split_seq(y, sep),
    decreases y.len(),
{
    let xs = x + seq![sep];
    if y.len() == 0 {
        assert(xs + y =~= xs);
        assert(xs.drop_last() =~= x);
        assert(split_seq(x, sep).push(Seq::empty()) =~= split_seq(x, sep) + split_seq(y, sep));
    } else {
        lemma_split_join(x, y.drop_last(), sep);
        assert((xs + y).drop_last() =~= xs + y.drop_last());
        assert((xs + y).last() == y.last());
        crate::text::lemma_split_seq_nonempty(y.drop_last(), sep);
        let l = split_seq(x, sep);
        let r = split_seq(y.drop_last(), sep);
        if y.last() == sep {
            assert((l + r).push(Seq::empty()) =~= l + r.push(Seq::empty()));
        } else {
            assert((l + r).update((l + r).len() - 1, (l + r).last().push(y.last())) =~= l
                + r.update(r.len() - 1, r.last().push(y.last())));
        }
    }
}

proof fn lemma_plain_lacks(x: Seq<char>, c: char)
    requires
        plain_text(x),
        c == ',' || c == ';',
    ensures
        !x.contains(c),
{
    if x.contains(c) {
        let i = choose|i: int| 0 <= i < x.len() && x[i] == c;
        assert(!is_noise(x[i]) && x[i] != ',' && x[i] != ';');
    }
}

/// The entry `u;rel=a` of a cleaned header.
pub open spec fn clean_entry(u: Seq<char>, a: Seq<char>) -> Seq<char> {
    u + seq![';'] + (rel_key() + seq!['='] + a)
}

proof fn lemma_rel_field(a: Seq<char>)
    ensures
        split_pairs(seq![rel_key() + seq!['='] + a]) == Some(seq![(rel_key(), a)]),
{
    let f = rel_key() + seq!['='] + a;
    assert(first_at(f, '=', 3));
    assert(f.contains('='));
    let k = choose|k: int| first_at(f, '=', k);
    assert(k == 3) by {
        if k < 3 {
        } else if k > 3 {
            assert(f[3] == '=');
        }
    }
    assert(f.subrange(0, 3) =~= rel_key());
    assert(f.subrange(4, f.len() as int) =~= a);
    assert(split_once_seq(f, '=') == Some((rel_key(), a)));
    let fs = seq![f];
    assert(fs.drop_last() =~= Seq::<Seq<char>>::empty());
    assert(split_pairs(Seq::<Seq<char>>::empty()) == Some(Seq::<(Seq<char>, Seq<char>)>::empty()));
    assert(Seq::<(Seq<char>, Seq<char>)>::empty().push((rel_key(), a)) =~= seq![(rel_key(), a)]);
}

proof fn lemma_clean_entry(u: Seq<char>, a: Seq<char>)
    requires
        plain_text(u),
        plain_text(a),
        uri_accepts(u),
        query_pairs(uri_query(u)) is Some,
    ensures
        entry_result(clean_entry(u, a), false) == Ok::<_, ErrorKind>(
            (
                Some(a),
                LinkModel {
                    raw: u,
                    queries: pairs_map(query_pairs(uri_query(u))->Some_0),
                    params: map![rel_key() => a],
                },
            ),
        ),
{
    let f = rel_key() + seq!['='] + a;
    lemma_plain_lacks(u, ';');
    lemma_plain_lacks(a, ';');
    assert(!f.contains(';')) by {
        if f.contains(';') {
            let i = choose|i: int| 0 <= i < f.len() && f[i] == ';';
            if i >= 4 {
                assert(a[i - 4] == f[i]);
            }
        }
    }
    lemma_split_join(u, f, ';');
    lemma_split_plain(u, ';');
    lemma_split_plain(f, ';');
    let fields = split_seq(clean_entry(u, a), ';');
    assert(fields =~= seq![u, f]);
    assert(fields.subrange(1, 2) =~= seq![f]);
    lemma_rel_field(a);
    let ps = seq![(rel_key(), a)];
    assert(ps.drop_last() =~= Seq::<(Seq<char>, Seq<char>)>::empty());
    assert(pairs_map(ps.drop_last()) == Map::<Seq<char>, Seq<char>>::empty());
    assert(pairs_map(ps) == Map::<Seq<char>, Seq<char>>::empty().insert(rel_key(), a));
    assert(pairs_map(ps) =~= map![rel_key() => a]);
}

proof fn lemma_strip_literals()
    ensures
        strip_noise(seq!['<']) == Seq::<char>::empty(),
        strip_noise(seq!['"']) == Seq::<char>::empty(),
        strip_noise(seq!['"', ',', ' ', '<']) == seq![','],
        strip_noise(rel_opening()) == seq![';', 'r', 'e', 'l', '='],
{
    reveal_with_fuel(Seq::filter, 9);
    assert(strip_noise(seq!['<']) =~= Seq::<char>::empty());
    assert(strip_noise(seq!['"']) =~= Seq::<char>::empty());
    assert(strip_noise(seq!['"', ',', ' ', '<']) =~= seq![',']);
    assert(strip_noise(rel_opening()) =~= seq![';', 'r', 'e', 'l', '=']);
}

proof fn lemma_strip_two_entry(u1: Seq<char>, a: Seq<char>, u2: Seq<char>, b: Seq<char>)
    requires
        plain_text(u1),
        plain_text(a),
        plain_text(u2),
        plain_text(b),
    ensures
        strip_noise(two_entry_header(u1, a, u2, b)) == clean_entry(u1, a) + seq![','] + clean_entry(
            u2,
            b,
        ),
{
    lemma_strip_literals();
    lemma_strip_plain(u1);
    lemma_strip_plain(u2);
    lemma_strip_plain(a);
    lemma_strip_plain(b);
    let lt = seq!['<'];
    let q = seq!['"'];
    let mid = seq!['"', ',', ' ', '<'];
    let ro = rel_opening();
    let sr = seq![';', 'r', 'e', 'l', '='];
    let h1 = lt + u1;
    lemma_strip_add(lt, u1);
    assert(strip_noise(h1) =~= u1);
    let h2 = h1 + ro;
    lemma_strip_add(h1, ro);
    let h3 = h2 + a;
    lemma_strip_add(h2, a);
    assert(strip_noise(h3) == u1 + sr + a);
    let h4 = h3 + mid;
    lemma_strip_add(h3, mid);
    let h5 = h4 + u2;
    lemma_strip_add(h4, u2);
    let h6 = h5 + ro;
    lemma_strip_add(h5, ro);
    let h7 = h6 + b;
    lemma_strip_add(h6, b);
    let h8 = h7 + q;
    lemma_strip_add(h7, q);
    assert(strip_noise(h8) == u1 + sr + a + seq![','] + u2 + sr + b + Seq::<char>::empty());
    assert(h8 == two_entry_header(u1, a, u2, b));
    assert(u1 + sr + a + seq![','] + u2 + sr + b + Seq::<char>::empty() =~= clean_entry(u1, a)
        + seq![','] + clean_entry(u2, b));
}

proof fn lemma_entry_lacks_comma(u: Seq<char>, a: Seq<char>)
    requires
        plain_text(u),
        plain_text(a),
    ensures
        !clean_entry(u, a).contains(','),
{
    let e = clean_entry(u, a);
    lemma_plain_lacks(u, ',');
    lemma_plain_lacks(a, ',');
    if e.contains(',') {
        let i = choose|i: int| 0 <= i < e.len() && e[i] == ',';
        if i >= u.len() + 5 {
            assert(a[i - u.len() - 5] == e[i]);
        } else if i < u.len() {
            assert(u[i] == e[i]);
        }
    }
}

/// A well-formed two-entry header `<u1>; rel="a", <u2>; rel="b"` gives exactly
/// the relations `a` and `b`, with the raw references `u1` and `u2`.
pub proof fn law_two_entries(u1: Seq<char>, a: Seq<char>, u2: Seq<char>, b: Seq<char>)
    requires
        plain_text(u1),
        plain_text(a),
        plain_text(u2),
        plain_text(b),
        uri_accepts(u1),
        uri_accepts(u2),
        query_pairs(uri_query(u1)) is Some,
        query_pairs(uri_query(u2)) is Some,
        a != b,
    ensures
        link_map_of(two_entry_header(u1, a, u2, b)) matches Ok(m) && m.dom() =~= set![
            Some(a),
            Some(b),
        ] && m[Some(a)].raw == u1 && m[Some(b)].raw == u2,
{
    let h = two_entry_header(u1, a, u2, b);
    let e1 = clean_entry(u1, a);
    let e2 = clean_entry(u2, b);
    lemma_strip_two_entry(u1, a, u2, b);
    lemma_entry_lacks_comma(u1, a);
    lemma_entry_lacks_comma(u2, b);
    lemma_split_join(e1, e2, ',');
    lemma_split_plain(e1, ',');
    lemma_split_plain(e2, ',');
    let es = split_seq(strip_noise(h), ',');
    assert(es =~= seq![e1, e2]);
    lemma_clean_entry(u1, a);
    lemma_clean_entry(u2, b);
    let x1 = entry_result(e1, false)->Ok_0;
    let x2 = entry_result(e2, false)->Ok_0;
    assert(es.drop_last() =~= seq![e1]);
    assert(seq![e1].drop_last() =~= Seq::<Seq<char>>::empty());
    assert(entries_result(Seq::<Seq<char>>::empty(), false) == Ok::<_, ErrorKind>(
        Seq::<(Option<Seq<char>>, LinkModel)>::empty(),
    ));
    assert(entries_result(seq![e1], false) == Ok::<_, ErrorKind>(seq![x1])) by {
        assert(Seq::<(Option<Seq<char>>, LinkModel)>::empty().push(x1) =~= seq![x1]);
    }
    assert(entries_result(es, false) == Ok::<_, ErrorKind>(seq![x1, x2])) by {
        assert(seq![x1].push(x2) =~= seq![x1, x2]);
    }
    let s = seq![x1, x2];
    assert(s.drop_last() =~= seq![x1]);
    assert(seq![x1].drop_last() =~= Seq::<(Option<Seq<char>>, LinkModel)>::empty());
    let m = pairs_map(s);
    assert(pairs_map(Seq::<(Option<Seq<char>>, LinkModel)>::empty()) == Map::<
        Option<Seq<char>>,
        LinkModel,
    >::empty());
    assert(pairs_map(seq![x1]) == Map::<Option<Seq<char>>, LinkModel>::empty().insert(
        Some(a),
        x1.1,
    ));
    assert(m == Map::<Option<Seq<char>>, LinkModel>::empty().insert(Some(a), x1.1).insert(
        Some(b),
        x2.1,
    ));
}

} // verus!
