//! A map from names to text, kept ordered by name.
use vstd::prelude::*;

use crate::text::{lemma_text_lt_irreflexive, lemma_text_lt_total, lemma_text_lt_transitive, text_eq, text_less, text_lt};

verus! {

/// Whether the keys of `s` are strictly increasing, and hence distinct.
pub open spec fn sorted_keys(s: Seq<(Seq<char>, Seq<char>)>) -> bool {
    forall|i: int, j: int| 0 <= i < j < s.len() ==> text_lt(#[trigger] s[i].0, #[trigger] s[j].0)
}

/// The position of some pair of `s` whose key is `k`, where there is one.
pub open spec fn key_index(s: Seq<(Seq<char>, Seq<char>)>, k: Seq<char>) -> int {
    choose|i: int| 0 <= i < s.len() && #[trigger] s[i].0 == k
}

/// The map that a sequence of key/value pairs with distinct keys describes.
pub open spec fn pairs_map(s: Seq<(Seq<char>, Seq<char>)>) -> Map<Seq<char>, Seq<char>> {
    Map::new(
        |k: Seq<char>| exists|i: int| 0 <= i < s.len() && #[trigger] s[i].0 == k,
        |k: Seq<char>| s[key_index(s, k)].1,
    )
}

/// In a sequence with increasing keys, each pair is what the map holds for its key.
pub proof fn lemma_pairs_map_at(s: Seq<(Seq<char>, Seq<char>)>, i: int)
    requires
        sorted_keys(s),
        0 <= i < s.len(),
    ensures
        pairs_map(s).contains_key(s[i].0),
        pairs_map(s)[s[i].0] == s[i].1,
{
    let k = s[i].0;
    assert(exists|x: int| 0 <= x < s.len() && #[trigger] s[x].0 == k);
    let j = key_index(s, k);
    assert(pairs_map(s)[k] == s[j].1);
    lemma_text_lt_irreflexive(k);
    if j < i {
        assert(text_lt(s[j].0, s[i].0));
    } else if i < j {
        assert(text_lt(s[i].0, s[j].0));
    }
}

/// In a sequence with increasing keys, the pairs and the map agree both ways.
proof fn lemma_pairs_map(s: Seq<(Seq<char>, Seq<char>)>)
    requires
        sorted_keys(s),
    ensures
        forall|i: int|
            0 <= i < s.len() ==> pairs_map(s).contains_key(#[trigger] s[i].0) && pairs_map(s)[s[i].0]
                == s[i].1,
{
    assert forall|i: int| 0 <= i < s.len() implies pairs_map(s).contains_key(#[trigger] s[i].0)
        && pairs_map(s)[s[i].0] == s[i].1 by {
        lemma_pairs_map_at(s, i);
    }
}

spec fn pairs_of(v: Seq<(String, String)>) -> Seq<(Seq<char>, Seq<char>)> {
    Seq::new(v.len(), |i: int| (v[i].0@, v[i].1@))
}

/// Names mapped to text, ordered by name; walking it yields the names in increasing order.
#[derive(Debug, PartialEq, Eq)]
pub struct NameMap {
    entries: Vec<(String, String)>,
}

impl View for NameMap {
    type V = Map<Seq<char>, Seq<char>>;

    open spec fn view(&self) -> Map<Seq<char>, Seq<char>> {
        pairs_map(self.pairs())
    }
}

impl NameMap {
    /// The entries in order of increasing name.
    pub closed spec fn pairs(&self) -> Seq<(Seq<char>, Seq<char>)> {
        pairs_of(self.entries@)
    }

    #[verifier::type_invariant]
    closed spec fn inv(&self) -> bool {
        sorted_keys(self.pairs())
    }

    /// An empty map.
    pub fn new() -> (m: NameMap)
        ensures
            m.pairs() == Seq::<(Seq<char>, Seq<char>)>::empty(),
            sorted_keys(m.pairs()),
            m@ == Map::<Seq<char>, Seq<char>>::empty(),
    {
        let m = NameMap { entries: Vec::new() };
        assert(m.pairs() =~= Seq::<(Seq<char>, Seq<char>)>::empty());
        assert(m@ =~= Map::<Seq<char>, Seq<char>>::empty());
        m
    }

    /// The number of entries.
    pub fn len(&self) -> (n: usize)
        ensures
            n == self.pairs().len(),
    {
        self.entries.len()
    }

    /// The name of the `i`-th entry in increasing order.
    pub fn key_at(&self, i: usize) -> (k: &String)
        requires
            i < self.pairs().len(),
        ensures
            k@ == self.pairs()[i as int].0,
    {
        &self.entries[i].0
    }

    /// The value of the `i`-th entry in increasing order of names.
    pub fn value_at(&self, i: usize) -> (v: &String)
        requires
            i < self.pairs().len(),
        ensures
            v@ == self.pairs()[i as int].1,
    {
        &self.entries[i].1
    }

    /// The value held for `key`, if any.
    pub fn get(&self, key: &str) -> (r: Option<&String>)
        ensures
            r is None <==> !self@.contains_key(key@),
            r matches Some(v) ==> self@[key@] == v@,
    {
        proof {
            use_type_invariant(self);
            lemma_pairs_map(self.pairs());
        }
        let mut i: usize = 0;
        while i < self.entries.len()
            invariant
                i <= self.entries@.len(),
                self.pairs().len() == self.entries@.len(),
                forall|x: int| 0 <= x < i ==> self.pairs()[x].0 != key@,
            decreases self.entries@.len() - i,
        {
            if text_eq(self.entries[i].0.as_str(), key) {
                proof {
                    use_type_invariant(self);
                    lemma_pairs_map_at(self.pairs(), i as int);
                }
                assert(self.pairs()[i as int].0 == key@);
                assert(self.pairs()[i as int].1 == self.entries@[i as int].1@);
                return Some(&self.entries[i].1);
            }
            i = i + 1;
        }
        None
    }

    /// Sets the value for `key`, replacing any value it had.
    pub fn insert(&mut self, key: String, value: String)
        ensures
            final(self)@ == old(self)@.insert(key@, value@),
            sorted_keys(final(self).pairs()),
    {
        proof {
            use_type_invariant(&*self);
        }
        let ghost s = self.pairs();
        let mut entries: Vec<(String, String)> = Vec::new();
        std::mem::swap(&mut self.entries, &mut entries);
        let n = entries.len();
        let mut p: usize = 0;
        while p < n
            invariant
                n == entries@.len(),
                s == pairs_of(entries@),
                sorted_keys(s),
                p <= n,
                forall|x: int| 0 <= x < p ==> text_lt(#[trigger] s[x].0, key@),
            ensures
                p <= n,
                forall|x: int| 0 <= x < p ==> text_lt(#[trigger] s[x].0, key@),
                p < n ==> !text_lt(s[p as int].0, key@),
            decreases n - p,
        {
            if !text_less(entries[p].0.as_str(), key.as_str()) {
                break;
            }
            p = p + 1;
        }
        let ghost kv = (key@, value@);
        if p < n && text_eq(entries[p].0.as_str(), key.as_str()) {
            entries.set(p, (key, value));
            proof {
                let t = pairs_of(entries@);
                assert(t =~= s.update(p as int, kv));
                assert forall|i: int, j: int| 0 <= i < j < t.len() implies text_lt(
                    #[trigger] t[i].0,
                    #[trigger] t[j].0,
                ) by {
                    assert(s[i].0 == t[i].0 && s[j].0 == t[j].0);
                }
                lemma_update_view(s, p as int, kv);
            }
        } else {
            entries.insert(p, (key, value));
            proof {
                let t = pairs_of(entries@);
                assert(t =~= s.insert(p as int, kv));
                if p < n {
                    lemma_text_lt_total(s[p as int].0, key@);
                }
                assert forall|x: int| 0 <= x < n implies #[trigger] s[x].0 != key@ by {
                    lemma_text_lt_irreflexive(key@);
                }
                assert forall|x: int| p <= x < n implies text_lt(key@, #[trigger] s[x].0) by {
                    if x > p {
                        lemma_text_lt_transitive(key@, s[p as int].0, s[x].0);
                    }
                }
                assert forall|i: int, j: int| 0 <= i < j < t.len() implies text_lt(
                    #[trigger] t[i].0,
                    #[trigger] t[j].0,
                ) by {
                    if j < p {
                    } else if j == p {
                    } else if i < p {
                        lemma_text_lt_transitive(s[i].0, key@, s[j - 1].0);
                    } else if i == p {
                    } else {
                    }
                }
                lemma_insert_at_view(s, p as int, kv);
            }
        }
        std::mem::swap(&mut self.entries, &mut entries);
    }
}

impl Clone for NameMap {
    fn clone(&self) -> (r: NameMap)
        ensures
            r.pairs() == self.pairs(),
            r@ == self@,
    {
        proof {
            use_type_invariant(self);
        }
        let mut entries: Vec<(String, String)> = Vec::new();
        let mut i: usize = 0;
        while i < self.entries.len()
            invariant
                i <= self.entries@.len(),
                entries@.len() == i,
                pairs_of(entries@) == self.pairs().take(i as int),
            decreases self.entries@.len() - i,
        {
            let k = self.entries[i].0.clone();
            let v = self.entries[i].1.clone();
            let ghost before = entries@;
            entries.push((k, v));
            assert forall|j: int| 0 <= j < i implies #[trigger] pairs_of(entries@)[j] == pairs_of(
                before,
            )[j] by {
                assert(entries@[j] == before[j]);
            }
            assert(pairs_of(entries@)[i as int] == self.pairs()[i as int]);
            assert(pairs_of(entries@) =~= self.pairs().take(i + 1));
            i = i + 1;
        }
        assert(self.pairs().take(i as int) =~= self.pairs());
        NameMap { entries }
    }
}

proof fn lemma_update_view(s: Seq<(Seq<char>, Seq<char>)>, p: int, kv: (Seq<char>, Seq<char>))
    requires
        sorted_keys(s),
        sorted_keys(s.update(p, kv)),
        0 <= p < s.len(),
        s[p].0 == kv.0,
    ensures
        pairs_map(s.update(p, kv)) == pairs_map(s).insert(kv.0, kv.1),
{
    let t = s.update(p, kv);
    let m = pairs_map(s).insert(kv.0, kv.1);
    assert forall|k: Seq<char>| pairs_map(t).contains_key(k) implies #[trigger] m.contains_key(k)
        && pairs_map(t)[k] == m[k] by {
        let i = choose|i: int| 0 <= i < t.len() && #[trigger] t[i].0 == k;
        lemma_pairs_map_at(t, i);
        if i != p {
            lemma_pairs_map_at(s, i);
            lemma_text_lt_irreflexive(k);
            if i < p {
                assert(text_lt(s[i].0, s[p].0));
            } else {
                assert(text_lt(s[p].0, s[i].0));
            }
            assert(k != kv.0);
            assert(t[i] == s[i]);
        } else {
            assert(k == kv.0);
        }
    }
    assert forall|k: Seq<char>| #[trigger] m.contains_key(k) implies pairs_map(t).contains_key(k) by {
        if k == kv.0 {
            assert(t[p].0 == k);
        } else {
            let i = choose|i: int| 0 <= i < s.len() && #[trigger] s[i].0 == k;
            assert(t[i].0 == k);
        }
    }
    assert(pairs_map(t) =~= m);
}

proof fn lemma_insert_at_view(s: Seq<(Seq<char>, Seq<char>)>, p: int, kv: (Seq<char>, Seq<char>))
    requires
        sorted_keys(s),
        sorted_keys(s.insert(p, kv)),
        0 <= p <= s.len(),
        forall|x: int| 0 <= x < s.len() ==> #[trigger] s[x].0 != kv.0,
    ensures
        pairs_map(s.insert(p, kv)) == pairs_map(s).insert(kv.0, kv.1),
{
    let t = s.insert(p, kv);
    let m = pairs_map(s).insert(kv.0, kv.1);
    assert forall|k: Seq<char>| pairs_map(t).contains_key(k) implies #[trigger] m.contains_key(k)
        && pairs_map(t)[k] == m[k] by {
        let i = choose|i: int| 0 <= i < t.len() && #[trigger] t[i].0 == k;
        lemma_pairs_map_at(t, i);
        if i < p {
            lemma_pairs_map_at(s, i);
        } else if i > p {
            lemma_pairs_map_at(s, i - 1);
        }
    }
    assert forall|k: Seq<char>| #[trigger] m.contains_key(k) implies pairs_map(t).contains_key(k) by {
        if k == kv.0 {
            assert(t[p].0 == k);
        } else {
            let i = choose|i: int| 0 <= i < s.len() && #[trigger] s[i].0 == k;
            if i < p {
                assert(t[i].0 == k);
            } else {
                assert(t[i + 1].0 == k);
            }
        }
    }
    assert(pairs_map(t) =~= m);
}

} // verus!
