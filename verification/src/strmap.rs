//! A map keyed by strings, kept as a vector of entries with distinct keys.
use vstd::prelude::*;

verus! {

/// The keys of the entries are pairwise distinct.
pub open spec fn distinct_keys<V>(s: Seq<(Seq<char>, V)>) -> bool {
    forall|i: int, j: int| 0 <= i < s.len() && 0 <= j < s.len() && i != j ==> s[i].0 != s[j].0
}

/// The map that a sequence of entries describes (a later entry for a key
/// would replace an earlier one).
pub open spec fn to_map<V>(s: Seq<(Seq<char>, V)>) -> Map<Seq<char>, V>
    decreases s.len(),
{
    if s.len() == 0 {
        Map::empty()
    } else {
        to_map(s.drop_last()).insert(s.last().0, s.last().1)
    }
}

/// The entries view of a vector of owned entries.
pub open spec fn entries_view<V>(v: Seq<(String, V)>) -> Seq<(Seq<char>, V)> {
    v.map_values(|e: (String, V)| (e.0@, e.1))
}

proof fn lemma_to_map<V>(s: Seq<(Seq<char>, V)>)
    requires
        distinct_keys(s),
    ensures
        forall|k: Seq<char>|
            #[trigger] to_map(s).contains_key(k) <==> exists|i: int| 0 <= i < s.len() && s[i].0 == k,
        forall|i: int| 0 <= i < s.len() ==> #[trigger] to_map(s)[s[i].0] == s[i].1,
    decreases s.len(),
{
    if s.len() > 0 {
        let p = s.drop_last();
        assert(distinct_keys(p));
        lemma_to_map(p);
        assert forall|k: Seq<char>|
            #[trigger] to_map(s).contains_key(k) <==> exists|i: int|
                0 <= i < s.len() && s[i].0 == k by {
            if to_map(s).contains_key(k) {
                if k == s.last().0 {
                    assert(s[s.len() - 1].0 == k);
                } else {
                    assert(to_map(p).contains_key(k));
                    let i = choose|i: int| 0 <= i < p.len() && p[i].0 == k;
                    assert(p[i] == s[i]);
                    assert(s[i].0 == k);
                }
            }
            if exists|i: int| 0 <= i < s.len() && s[i].0 == k {
                let i = choose|i: int| 0 <= i < s.len() && s[i].0 == k;
                if i < s.len() - 1 {
                    assert(p[i] == s[i]);
                    assert(p[i].0 == k);
                    assert(to_map(p).contains_key(k));
                }
            }
        }
        assert forall|i: int| 0 <= i < s.len() implies #[trigger] to_map(s)[s[i].0] == s[i].1 by {
            if i < s.len() - 1 {
                assert(s[i].0 != s[s.len() - 1].0);
                assert(p[i] == s[i]);
                assert(to_map(p)[p[i].0] == p[i].1);
                assert(to_map(p).contains_key(p[i].0));
            }
        }
    }
}

proof fn lemma_to_map_update<V>(s: Seq<(Seq<char>, V)>, i: int, v: V)
    requires
        distinct_keys(s),
        0 <= i < s.len(),
    ensures
        distinct_keys(s.update(i, (s[i].0, v))),
        to_map(s.update(i, (s[i].0, v))) == to_map(s).insert(s[i].0, v),
{
    let k = s[i].0;
    let t = s.update(i, (k, v));
    assert(distinct_keys(t)) by {
        assert forall|a: int, b: int| 0 <= a < t.len() && 0 <= b < t.len() && a != b implies t[a].0
            != t[b].0 by {
            assert(t[a].0 == s[a].0 && t[b].0 == s[b].0);
        }
    }
    lemma_to_map(s);
    lemma_to_map(t);
    assert(to_map(t) =~= to_map(s).insert(k, v)) by {
        assert forall|k2: Seq<char>| #[trigger] to_map(t).contains_key(k2) <==> to_map(s).insert(
            k,
            v,
        ).contains_key(k2) by {
            if to_map(t).contains_key(k2) {
                let j = choose|j: int| 0 <= j < t.len() && t[j].0 == k2;
                assert(s[j].0 == k2);
            }
            if to_map(s).contains_key(k2) {
                let j = choose|j: int| 0 <= j < s.len() && s[j].0 == k2;
                assert(t[j].0 == k2);
            }
            if k2 == k {
                assert(t[i].0 == k2);
            }
        }
        assert forall|k2: Seq<char>| #[trigger] to_map(t).contains_key(k2) implies to_map(t)[k2]
            == to_map(s).insert(k, v)[k2] by {
            let j = choose|j: int| 0 <= j < t.len() && t[j].0 == k2;
            if j == i {
                assert(to_map(t)[t[i].0] == t[i].1);
            } else {
                assert(t[j] == s[j]);
                assert(to_map(t)[t[j].0] == t[j].1);
                assert(to_map(s)[s[j].0] == s[j].1);
            }
        }
    }
}

proof fn lemma_to_map_push<V>(s: Seq<(Seq<char>, V)>, k: Seq<char>, v: V)
    requires
        distinct_keys(s),
        !to_map(s).contains_key(k),
    ensures
        distinct_keys(s.push((k, v))),
        to_map(s.push((k, v))) == to_map(s).insert(k, v),
{
    lemma_to_map(s);
    let t = s.push((k, v));
    assert(t.drop_last() =~= s);
    assert forall|a: int, b: int| 0 <= a < t.len() && 0 <= b < t.len() && a != b implies t[a].0
        != t[b].0 by {
        if a < s.len() && b < s.len() {
            assert(t[a] == s[a] && t[b] == s[b]);
        } else if a < s.len() {
            assert(t[a] == s[a]);
            assert(s[a].0 != k);
        } else {
            assert(t[b] == s[b]);
            assert(s[b].0 != k);
        }
    }
}

/// A map from strings to values.
pub struct StringMap<V> {
    entries: Vec<(String, V)>,
}

impl<V> View for StringMap<V> {
    type V = Map<Seq<char>, V>;

    closed spec fn view(&self) -> Map<Seq<char>, V> {
        to_map(entries_view(self.entries@))
    }
}

impl<V> StringMap<V> {
    #[verifier::type_invariant]
    spec fn inv(&self) -> bool {
        distinct_keys(entries_view(self.entries@))
    }

    /// The map with no entries.
    pub fn new() -> (r: Self)
        ensures
            r@ == Map::<Seq<char>, V>::empty(),
    {
        let r = StringMap { entries: Vec::new() };
        assert(entries_view(r.entries@) =~= Seq::<(Seq<char>, V)>::empty());
        r
    }

    /// The index of the entry for a key, if any.
    fn index_of(&self, key: &str) -> (r: Option<usize>)
        ensures
            match r {
                Some(i) => i < self.entries.len() && self.entries@[i as int].0@ == key@,
                None => !self@.contains_key(key@),
            },
    {
        proof {
            use_type_invariant(self);
            lemma_to_map(entries_view(self.entries@));
        }
        let n = self.entries.len();
        for i in 0..n
            invariant
                n == self.entries.len(),
                forall|j: int| 0 <= j < i ==> self.entries@[j].0@ != key@,
        {
            if crate::text::str_eq(self.entries[i].0.as_str(), key) {
                return Some(i);
            }
        }
        assert forall|j: int| 0 <= j < entries_view(self.entries@).len() implies entries_view(
            self.entries@,
        )[j].0 != key@ by {
            assert(entries_view(self.entries@)[j].0 == self.entries@[j].0@);
        }
        None
    }

    /// The value for a key, if the map has one.
    pub fn get(&self, key: &str) -> (r: Option<&V>)
        ensures
            match r {
                Some(v) => self@.contains_key(key@) && self@[key@] == *v,
                None => !self@.contains_key(key@),
            },
    {
        proof {
            use_type_invariant(self);
            lemma_to_map(entries_view(self.entries@));
        }
        match self.index_of(key) {
            Some(i) => {
                assert(entries_view(self.entries@)[i as int] == (key@, self.entries@[i as int].1));
                Some(&self.entries[i].1)
            },
            None => None,
        }
    }

    /// Sets the value for a key, replacing the value it had.
    pub fn insert(&mut self, key: String, value: V)
        ensures
            final(self)@ == old(self)@.insert(key@, value),
    {
        proof {
            use_type_invariant(&*self);
        }
        let ghost s = entries_view(self.entries@);
        let ghost k = key@;
        match self.index_of(key.as_str()) {
            Some(i) => {
                let mut entries: Vec<(String, V)> = Vec::new();
                std::mem::swap(&mut entries, &mut self.entries);
                assert(s[i as int].0 == k);
                entries.set(i, (key, value));
                assert(entries_view(entries@) =~= s.update(i as int, (k, value)));
                proof {
                    lemma_to_map_update(s, i as int, value);
                }
                self.entries = entries;
            },
            None => {
                let mut entries: Vec<(String, V)> = Vec::new();
                std::mem::swap(&mut entries, &mut self.entries);
                entries.push((key, value));
                assert(entries_view(entries@) =~= s.push((k, value)));
                proof {
                    lemma_to_map_push(s, k, value);
                }
                self.entries = entries;
            },
        }
    }

    /// The number of keys.
    pub fn len(&self) -> (n: usize)
        ensures
            n == self@.dom().len(),
    {
        proof {
            use_type_invariant(self);
            lemma_to_map_len(entries_view(self.entries@));
        }
        self.entries.len()
    }
}

proof fn lemma_to_map_len<V>(s: Seq<(Seq<char>, V)>)
    requires
        distinct_keys(s),
    ensures
        to_map(s).dom().finite(),
        to_map(s).dom().len() == s.len(),
    decreases s.len(),
{
    if s.len() > 0 {
        let p = s.drop_last();
        assert(distinct_keys(p));
        lemma_to_map_len(p);
        lemma_to_map(p);
        assert(!to_map(p).contains_key(s.last().0)) by {
            if to_map(p).contains_key(s.last().0) {
                let i = choose|i: int| 0 <= i < p.len() && p[i].0 == s.last().0;
                assert(s[i].0 == s[s.len() - 1].0);
            }
        }
    }
}

} // verus!
