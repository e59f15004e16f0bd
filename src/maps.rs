use vstd::prelude::*;
use crate::text::same_text;

verus! {

/// The map that inserting the pairs of `s` in order builds: a later pair wins
/// over an earlier one with the same key.
pub open spec fn pairs_map<K, V>(s: Seq<(K, V)>) -> Map<K, V>
    decreases s.len(),
{
    if s.len() == 0 {
        Map::empty()
    } else {
        pairs_map(s.drop_last()).insert(s.last().0, s.last().1)
    }
}

/// No two pairs of `s` share a key.
pub open spec fn keys_distinct<K, V>(s: Seq<(K, V)>) -> bool {
    forall|i: int, j: int| 0 <= i < j < s.len() ==> s[i].0 != s[j].0
}

pub proof fn lemma_pairs_map_dom<K, V>(s: Seq<(K, V)>, k: K)
    ensures
        pairs_map(s).dom().contains(k) <==> exists|i: int| 0 <= i < s.len() && s[i].0 == k,
    decreases s.len(),
{
    if s.len() > 0 {
        lemma_pairs_map_dom(s.drop_last(), k);
        if pairs_map(s).dom().contains(k) && k != s.last().0 {
            let i = choose|i: int| 0 <= i < s.len() - 1 && s.drop_last()[i].0 == k;
            assert(s[i].0 == k);
        }
        if exists|i: int| 0 <= i < s.len() && s[i].0 == k {
            let i = choose|i: int| 0 <= i < s.len() && s[i].0 == k;
            if i < s.len() - 1 {
                assert(s.drop_last()[i].0 == k);
            }
        }
    }
}

pub proof fn lemma_pairs_map_at<K, V>(s: Seq<(K, V)>, i: int)
    requires
        keys_distinct(s),
        0 <= i < s.len(),
    ensures
        pairs_map(s).dom().contains(s[i].0),
        pairs_map(s)[s[i].0] == s[i].1,
    decreases s.len(),
{
    if i < s.len() - 1 {
        assert(keys_distinct(s.drop_last()));
        lemma_pairs_map_at(s.drop_last(), i);
        assert(s.drop_last()[i] == s[i]);
    }
}

pub proof fn lemma_pairs_map_finite<K, V>(s: Seq<(K, V)>)
    ensures
        pairs_map(s).dom().finite(),
    decreases s.len(),
{
    if s.len() > 0 {
        lemma_pairs_map_finite(s.drop_last());
    }
}

pub proof fn lemma_pairs_map_len<K, V>(s: Seq<(K, V)>)
    requires
        keys_distinct(s),
    ensures
        pairs_map(s).dom().finite(),
        pairs_map(s).dom().len() == s.len(),
    decreases s.len(),
{
    lemma_pairs_map_finite(s);
    if s.len() > 0 {
        let p = s.drop_last();
        assert(keys_distinct(p));
        lemma_pairs_map_len(p);
        lemma_pairs_map_dom(p, s.last().0);
        if pairs_map(p).dom().contains(s.last().0) {
            let i = choose|i: int| 0 <= i < p.len() && p[i].0 == s.last().0;
            assert(s[i].0 == s[s.len() - 1].0);
        }
    }
}

/// Each value of the map is that of some pair.
pub proof fn lemma_pairs_map_value<K, V>(s: Seq<(K, V)>, k: K)
    requires
        pairs_map(s).dom().contains(k),
    ensures
        exists|j: int| 0 <= j < s.len() && s[j] == (k, pairs_map(s)[k]),
    decreases s.len(),
{
    let p = s.drop_last();
    if k == s.last().0 {
        assert(s[s.len() - 1] == (k, pairs_map(s)[k]));
    } else {
        lemma_pairs_map_value(p, k);
        let j = choose|j: int| 0 <= j < p.len() && p[j] == (k, pairs_map(p)[k]);
        assert(s[j] == (k, pairs_map(s)[k]));
    }
}

/// Pushing a pair whose key is new inserts it.
pub proof fn lemma_pairs_map_push<K, V>(s: Seq<(K, V)>, k: K, v: V)
    ensures
        pairs_map(s.push((k, v))) == pairs_map(s).insert(k, v),
{
    assert(s.push((k, v)).drop_last() =~= s);
}

/// Replacing the value of a pair of distinct keys inserts it.
pub proof fn lemma_pairs_map_update<K, V>(s: Seq<(K, V)>, i: int, v: V)
    requires
        keys_distinct(s),
        0 <= i < s.len(),
    ensures
        keys_distinct(s.update(i, (s[i].0, v))),
        pairs_map(s.update(i, (s[i].0, v))) == pairs_map(s).insert(s[i].0, v),
{
    let t = s.update(i, (s[i].0, v));
    assert(keys_distinct(t));
    let m = pairs_map(s).insert(s[i].0, v);
    assert forall|k: K| pairs_map(t).dom().contains(k) == m.dom().contains(k) by {
        lemma_pairs_map_dom(t, k);
        lemma_pairs_map_dom(s, k);
        if exists|j: int| 0 <= j < t.len() && t[j].0 == k {
            let j = choose|j: int| 0 <= j < t.len() && t[j].0 == k;
            assert(s[j].0 == k);
        }
        if exists|j: int| 0 <= j < s.len() && s[j].0 == k {
            let j = choose|j: int| 0 <= j < s.len() && s[j].0 == k;
            assert(t[j].0 == k);
        }
    }
    assert forall|k: K| #[trigger] pairs_map(t).dom().contains(k) implies pairs_map(t)[k] == m[k] by {
        lemma_pairs_map_dom(t, k);
        let j = choose|j: int| 0 <= j < t.len() && t[j].0 == k;
        lemma_pairs_map_at(t, j);
        lemma_pairs_map_at(s, j);
    }
    assert(pairs_map(t) =~= m);
}

/// A key whose equality is decided by its view.
pub trait MapKey: Sized {
    type KeyView;

    spec fn key_view(&self) -> Self::KeyView;

    fn same_key(&self, other: &Self) -> (r: bool)
        ensures
            r == (self.key_view() == other.key_view()),
    ;
}

impl MapKey for String {
    type KeyView = Seq<char>;

    open spec fn key_view(&self) -> Seq<char> {
        self@
    }

    fn same_key(&self, other: &Self) -> (r: bool) {
        same_text(self.as_str(), other.as_str())
    }
}

impl MapKey for Option<String> {
    type KeyView = Option<Seq<char>>;

    open spec fn key_view(&self) -> Option<Seq<char>> {
        match self {
            Some(s) => Some(s@),
            None => None,
        }
    }

    fn same_key(&self, other: &Self) -> (r: bool) {
        match (self, other) {
            (Some(a), Some(b)) => same_text(a.as_str(), b.as_str()),
            (None, None) => true,
            _ => false,
        }
    }
}

/// A value whose equality is decided by its view.
pub trait MapValue: View + Sized {
    fn same_value(&self, other: &Self) -> (r: bool)
        ensures
            r == (self@ == other@),
    ;
}

impl MapValue for String {
    fn same_value(&self, other: &Self) -> (r: bool) {
        same_text(self.as_str(), other.as_str())
    }
}

/// The views of key-value pairs.
pub open spec fn pair_views<K: MapKey, V: View>(s: Seq<(K, V)>) -> Seq<(K::KeyView, V::V)> {
    s.map_values(|e: (K, V)| (e.0.key_view(), e.1@))
}

/// A map that holds each key once, with its entries in the order in which
/// their keys first arrived.
#[derive(Debug)]
pub struct EntryMap<K: MapKey, V: View> {
    entries: Vec<(K, V)>,
}

impl<K: MapKey, V: View> EntryMap<K, V> {
    /// Each key is held once.
    #[verifier::type_invariant]
    closed spec fn keys_unique(&self) -> bool {
        keys_distinct(pair_views(self.entries@))
    }

    /// An empty map.
    pub fn new() -> (r: Self)
        ensures
            r@ == Map::<K::KeyView, V::V>::empty(),
    {
        let entries: Vec<(K, V)> = Vec::new();
        assert(pair_views(entries@) =~= Seq::empty());
        EntryMap { entries }
    }

    /// Sets the value of `k` to `v`, replacing any earlier value.
    pub fn insert(&mut self, k: K, v: V)
        ensures
            final(self)@ == old(self)@.insert(k.key_view(), v@),
    {
        proof {
            use_type_invariant(&*self);
        }
        let mut entries: Vec<(K, V)> = Vec::new();
        std::mem::swap(&mut entries, &mut self.entries);
        let ghost before = pair_views(entries@);
        let mut i: usize = 0;
        while i < entries.len()
            invariant
                pair_views(entries@) == before,
                old(self)@ == pairs_map(before),
                keys_distinct(before),
                i <= entries.len(),
                forall|j: int| 0 <= j < i ==> before[j].0 != k.key_view(),
            decreases entries.len() - i,
        {
            if entries[i].0.same_key(&k) {
                assert(before[i as int].0 == k.key_view());
                proof {
                    lemma_pairs_map_update(before, i as int, v@);
                }
                entries.set(i, (k, v));
                assert(pair_views(entries@) =~= before.update(i as int, (before[i as int].0, v@)));
                self.entries = entries;
                return;
            }
            i = i + 1;
        }
        let ghost kv = k.key_view();
        entries.push((k, v));
        proof {
            lemma_pairs_map_push(before, kv, v@);
        }
        assert(pair_views(entries@) =~= before.push((kv, v@)));
        self.entries = entries;
    }

    /// The value of `k`, if it is held.
    pub fn get(&self, k: &K) -> (r: Option<&V>)
        ensures
            match r {
                Some(v) => self@.contains_key(k.key_view()) && self@[k.key_view()] == v@,
                None => !self@.contains_key(k.key_view()),
            },
    {
        proof {
            use_type_invariant(self);
        }
        let ghost ev = pair_views(self.entries@);
        let mut i: usize = 0;
        while i < self.entries.len()
            invariant
                ev == pair_views(self.entries@),
                keys_distinct(ev),
                i <= self.entries.len(),
                forall|j: int| 0 <= j < i ==> ev[j].0 != k.key_view(),
            decreases self.entries.len() - i,
        {
            if self.entries[i].0.same_key(k) {
                proof {
                    lemma_pairs_map_at(ev, i as int);
                }
                return Some(&self.entries[i].1);
            }
            i = i + 1;
        }
        proof {
            lemma_pairs_map_dom(ev, k.key_view());
        }
        None
    }

    /// The entries, each key once, in the order in which their keys first
    /// arrived.
    pub fn entries(&self) -> (r: &Vec<(K, V)>)
        ensures
            keys_distinct(pair_views(r@)),
            pairs_map(pair_views(r@)) == self@,
    {
        proof {
            use_type_invariant(self);
        }
        &self.entries
    }

    /// The number of keys held.
    pub fn len(&self) -> (r: usize)
        ensures
            r == self@.dom().len(),
    {
        proof {
            use_type_invariant(self);
            lemma_pairs_map_len(pair_views(self.entries@));
        }
        self.entries.len()
    }
}

impl<K: MapKey, V: MapValue> EntryMap<K, V> {
    /// Whether both maps hold the same keys with equal values.
    pub fn same_entries(&self, other: &Self) -> (r: bool)
        ensures
            r == (self@ == other@),
    {
        proof {
            use_type_invariant(self);
            use_type_invariant(other);
            lemma_pairs_map_len(pair_views(self.entries@));
            lemma_pairs_map_len(pair_views(other.entries@));
        }
        if self.entries.len() != other.entries.len() {
            return false;
        }
        let ghost sv = pair_views(self.entries@);
        let mut i: usize = 0;
        while i < self.entries.len()
            invariant
                sv == pair_views(self.entries@),
                keys_distinct(sv),
                i <= self.entries.len(),
                forall|j: int|
                    0 <= j < i ==> other@.contains_key(#[trigger] sv[j].0) && other@[sv[j].0]
                        == sv[j].1,
            decreases self.entries.len() - i,
        {
            proof {
                lemma_pairs_map_at(sv, i as int);
            }
            match other.get(&self.entries[i].0) {
                None => {
                    return false;
                },
                Some(w) => {
                    if !self.entries[i].1.same_value(w) {
                        return false;
                    }
                },
            }
            i = i + 1;
        }
        proof {
            assert forall|k: K::KeyView| #[trigger] self@.contains_key(k) implies other@.contains_key(
                k,
            ) && other@[k] == self@[k] by {
                lemma_pairs_map_dom(sv, k);
                let j = choose|j: int| 0 <= j < sv.len() && sv[j].0 == k;
                lemma_pairs_map_at(sv, j);
            }
            vstd::set_lib::lemma_subset_equality(self@.dom(), other@.dom());
            assert(self@ =~= other@);
        }
        true
    }
}

impl<K: MapKey, V: MapValue> PartialEq for EntryMap<K, V> {
    fn eq(&self, other: &Self) -> (r: bool) {
        self.same_entries(other)
    }
}

impl<K: MapKey, V: MapValue> vstd::std_specs::cmp::PartialEqSpecImpl for EntryMap<K, V> {
    open spec fn obeys_eq_spec() -> bool {
        true
    }

    open spec fn eq_spec(&self, other: &Self) -> bool {
        self@ == other@
    }
}

impl<K: MapKey, V: View> View for EntryMap<K, V> {
    type V = Map<K::KeyView, V::V>;

    closed spec fn view(&self) -> Map<K::KeyView, V::V> {
        pairs_map(pair_views(self.entries@))
    }
}

/// The parameters of a link, or the pairs of a query, by key.
pub type ParamMap = EntryMap<String, String>;

} // verus!
