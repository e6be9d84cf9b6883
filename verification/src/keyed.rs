//! A map from text keys to values that keeps its keys in the order in which
//! they first arrived, with the semantics of a hash map's `insert`.

use vstd::prelude::*;

verus! {

/// The first position at or after `i` whose key is `k`.
pub open spec fn key_pos_from<A>(s: Seq<(Seq<char>, A)>, k: Seq<char>, i: int) -> Option<int>
    decreases s.len() - i,
{
    if i < 0 || i >= s.len() {
        None
    } else if s[i].0 == k {
        Some(i)
    } else {
        key_pos_from(s, k, i + 1)
    }
}

/// The position of key `k` among the entries `s`.
pub open spec fn key_pos<A>(s: Seq<(Seq<char>, A)>, k: Seq<char>) -> Option<int> {
    key_pos_from(s, k, 0)
}

/// No key occurs twice among the entries `s`.
pub open spec fn distinct_keys<A>(s: Seq<(Seq<char>, A)>) -> bool {
    forall|i: int, j: int| 0 <= i < s.len() && 0 <= j < s.len() && i != j ==> s[i].0 != s[j].0
}

/// The entries `s` after inserting `v` under `k`: the value of an entry
/// with that key is replaced in place, otherwise the entry goes last.
pub open spec fn insert_entry<A>(s: Seq<(Seq<char>, A)>, k: Seq<char>, v: A) -> Seq<(Seq<char>, A)> {
    match key_pos(s, k) {
        Some(i) => s.update(i, (k, v)),
        None => s.push((k, v)),
    }
}

/// The map that the entries `s` stand for.
pub open spec fn entries_map<A>(s: Seq<(Seq<char>, A)>) -> Map<Seq<char>, A>
    decreases s.len(),
{
    if s.len() == 0 {
        Map::empty()
    } else {
        entries_map(s.drop_last()).insert(s.last().0, s.last().1)
    }
}

pub proof fn lemma_key_pos_from<A>(s: Seq<(Seq<char>, A)>, k: Seq<char>, i: int)
    requires
        0 <= i,
    ensures
        key_pos_from(s, k, i) matches Some(p) ==> i <= p < s.len() && s[p].0 == k,
        key_pos_from(s, k, i) is None ==> forall|p: int| i <= p < s.len() ==> s[p].0 != k,
    decreases s.len() - i,
{
    if i < s.len() && s[i].0 != k {
        lemma_key_pos_from(s, k, i + 1);
    }
}

/// What the map of a sequence of entries holds.
pub proof fn lemma_entries_map<A>(s: Seq<(Seq<char>, A)>)
    requires
        distinct_keys(s),
    ensures
        forall|k: Seq<char>|
            #[trigger] entries_map(s).contains_key(k) <==> exists|i: int|
                0 <= i < s.len() && s[i].0 == k,
        forall|i: int| 0 <= i < s.len() ==> #[trigger] entries_map(s)[s[i].0] == s[i].1,
    decreases s.len(),
{
    if s.len() > 0 {
        let p = s.drop_last();
        assert(distinct_keys(p));
        lemma_entries_map(p);
        assert(entries_map(s) == entries_map(p).insert(s.last().0, s.last().1));
        assert forall|k: Seq<char>|
            #[trigger] entries_map(s).contains_key(k) <==> exists|i: int|
                0 <= i < s.len() && s[i].0 == k by {
            let in_p = entries_map(p).contains_key(k);
            if in_p {
                let i = choose|i: int| 0 <= i < p.len() && p[i].0 == k;
                assert(s[i].0 == k);
            }
            if exists|i: int| 0 <= i < s.len() && s[i].0 == k {
                let i = choose|i: int| 0 <= i < s.len() && s[i].0 == k;
                if i < p.len() {
                    assert(p[i].0 == k);
                    assert(in_p);
                }
            }
        }
        assert forall|i: int| 0 <= i < s.len() implies #[trigger] entries_map(s)[s[i].0]
            == s[i].1 by {
            if i < p.len() {
                assert(p[i] == s[i]);
                assert(s[i].0 != s.last().0);
                assert(entries_map(p)[p[i].0] == p[i].1);
            }
        }
    }
}

/// Inserting into the entries inserts into their map, and keeps keys distinct.
pub proof fn lemma_insert_entry<A>(s: Seq<(Seq<char>, A)>, k: Seq<char>, v: A)
    requires
        distinct_keys(s),
    ensures
        distinct_keys(insert_entry(s, k, v)),
        entries_map(insert_entry(s, k, v)) == entries_map(s).insert(k, v),
{
    let t = insert_entry(s, k, v);
    lemma_key_pos_from(s, k, 0);
    lemma_entries_map(s);
    match key_pos(s, k) {
        Some(p) => {
            assert(distinct_keys(t));
        },
        None => {
            assert(distinct_keys(t));
        },
    }
    lemma_entries_map(t);
    assert(entries_map(t) =~= entries_map(s).insert(k, v)) by {
        assert forall|q: Seq<char>| #[trigger] entries_map(t).contains_key(q)
            <==> entries_map(s).insert(k, v).contains_key(q) by {
            if entries_map(s).contains_key(q) {
                let i = choose|i: int| 0 <= i < s.len() && s[i].0 == q;
                assert(t[i].0 == q);
            }
            if entries_map(t).contains_key(q) && q != k {
                let i = choose|i: int| 0 <= i < t.len() && t[i].0 == q;
                assert(s[i].0 == q);
            }
            if q == k {
                match key_pos(s, k) {
                    Some(p) => assert(t[p].0 == k),
                    None => assert(t[s.len() as int].0 == k),
                }
            }
        }
        assert forall|q: Seq<char>| #[trigger] entries_map(t).contains_key(q) implies entries_map(
            t,
        )[q] == entries_map(s).insert(k, v)[q] by {
            let i = choose|i: int| 0 <= i < t.len() && t[i].0 == q;
            assert(entries_map(t)[t[i].0] == t[i].1);
            if q != k {
                assert(s[i] == t[i]);
                assert(entries_map(s)[s[i].0] == s[i].1);
            }
        }
    }
}

/// What is read under a key after a value is put under it is that value;
/// every other key reads as before.
pub proof fn law_read_after_write<A>(s: Seq<(Seq<char>, A)>, k: Seq<char>, v: A, q: Seq<char>)
    requires
        distinct_keys(s),
    ensures
        entries_map(insert_entry(s, k, v)).contains_key(k),
        entries_map(insert_entry(s, k, v))[k] == v,
        q != k ==> entries_map(insert_entry(s, k, v)).contains_key(q) == entries_map(s).contains_key(q),
        q != k ==> entries_map(insert_entry(s, k, v))[q] == entries_map(s)[q],
{
    lemma_insert_entry(s, k, v);
}

/// A map from text keys to values, in the order in which keys arrived.
#[derive(Debug, PartialEq)]
pub struct KeyedMap<V: View> {
    entries: Vec<(String, V)>,
}

/// The view of one entry.
pub open spec fn entry_view<V: View>(e: (String, V)) -> (Seq<char>, V::V) {
    (e.0@, e.1@)
}

impl<V: View> KeyedMap<V> {
    /// The entries, in order, by their views.
    pub closed spec fn seq(&self) -> Seq<(Seq<char>, V::V)> {
        self.entries@.map_values(|e: (String, V)| entry_view(e))
    }

    /// The map that the entries stand for.
    pub open spec fn map(&self) -> Map<Seq<char>, V::V> {
        entries_map(self.seq())
    }

    #[verifier::type_invariant]
    spec fn keys_distinct(&self) -> bool {
        distinct_keys(self.seq())
    }

    /// An empty map.
    pub fn new() -> (m: Self)
        ensures
            m.seq() == Seq::<(Seq<char>, V::V)>::empty(),
    {
        let m = KeyedMap { entries: Vec::new() };
        assert(m.seq() =~= Seq::<(Seq<char>, V::V)>::empty());
        m
    }

    /// The number of entries; no key occurs twice among them.
    pub fn len(&self) -> (n: usize)
        ensures
            n == self.seq().len(),
            distinct_keys(self.seq()),
    {
        proof {
            use_type_invariant(self);
        }
        self.entries.len()
    }

    /// Whether the map holds no entry.
    pub fn is_empty(&self) -> (b: bool)
        ensures
            b == (self.seq().len() == 0),
            b == (self.map() == Map::<Seq<char>, V::V>::empty()),
    {
        proof {
            if self.seq().len() > 0 {
                assert(self.map().contains_key(self.seq().last().0));
            }
        }
        self.entries.len() == 0
    }

    /// Gives entry `i` the value `v`, keeping its key and place.
    pub fn set_value(&mut self, i: usize, v: V)
        requires
            i < old(self).seq().len(),
        ensures
            final(self).seq() == old(self).seq().update(i as int, (old(self).seq()[i as int].0, v@)),
    {
        proof {
            use_type_invariant(&*self);
        }
        let mut entries: Vec<(String, V)> = Vec::new();
        std::mem::swap(&mut entries, &mut self.entries);
        let ghost old_seq = old(self).seq();
        assert(entries@.map_values(|e: (String, V)| entry_view(e)) == old_seq);
        let key = entries[i].0.clone();
        entries.set(i, (key, v));
        assert(entries@.map_values(|e: (String, V)| entry_view(e)) =~= old_seq.update(
            i as int,
            (old_seq[i as int].0, v@),
        ));
        assert(distinct_keys(entries@.map_values(|e: (String, V)| entry_view(e))));
        self.entries = entries;
    }

    /// The key and value of entry `i`.
    pub fn entry(&self, i: usize) -> (r: (&String, &V))
        requires
            i < self.seq().len(),
        ensures
            r.0@ == self.seq()[i as int].0,
            r.1@ == self.seq()[i as int].1,
    {
        let e = &self.entries[i];
        (&e.0, &e.1)
    }

    /// The position of key `k`, if the map holds it.
    pub fn position(&self, k: &String) -> (r: Option<usize>)
        ensures
            r matches Some(i) ==> key_pos(self.seq(), k@) == Some(i as int) && i < self.seq().len()
                && self.seq()[i as int].0 == k@,
            r is None ==> key_pos(self.seq(), k@) is None,
    {
        let mut i: usize = 0;
        while i < self.entries.len()
            invariant
                i <= self.seq().len(),
                key_pos(self.seq(), k@) == key_pos_from(self.seq(), k@, i as int),
            decreases self.seq().len() - i,
        {
            if self.entries[i].0 == *k {
                assert(self.seq()[i as int].0 == k@);
                return Some(i);
            }
            assert(self.seq()[i as int].0 != k@);
            i = i + 1;
        }
        None
    }

    /// The value under key `k`, if any.
    pub fn get(&self, k: &String) -> (r: Option<&V>)
        ensures
            r matches Some(v) ==> self.map().contains_key(k@) && v@ == self.map()[k@],
            r is None ==> !self.map().contains_key(k@),
    {
        proof {
            use_type_invariant(self);
            lemma_entries_map(self.seq());
            lemma_key_pos_from(self.seq(), k@, 0);
        }
        match self.position(k) {
            Some(i) => Some(&self.entries[i].1),
            None => None,
        }
    }

    /// Puts `v` under `k`: an entry with that key keeps its place and takes
    /// the new value, otherwise the entry goes last.
    pub fn insert(&mut self, k: String, v: V)
        ensures
            final(self).seq() == insert_entry(old(self).seq(), k@, v@),
            final(self).map() == old(self).map().insert(k@, v@),
    {
        proof {
            use_type_invariant(&*self);
            lemma_insert_entry(self.seq(), k@, v@);
        }
        let pos = self.position(&k);
        let mut entries: Vec<(String, V)> = Vec::new();
        std::mem::swap(&mut entries, &mut self.entries);
        let ghost old_entries = entries@;
        assert(old_entries.map_values(|e: (String, V)| entry_view(e)) == old(self).seq());
        proof {
            lemma_key_pos_from(old(self).seq(), k@, 0);
        }
        match pos {
            Some(i) => {
                entries.set(i, (k, v));
            },
            None => {
                entries.push((k, v));
            },
        }
        proof {
            assert(entries@.map_values(|e: (String, V)| entry_view(e)) =~= insert_entry(
                old_entries.map_values(|e: (String, V)| entry_view(e)),
                k@,
                v@,
            ));
        }
        self.entries = entries;
    }
}

} // verus!
