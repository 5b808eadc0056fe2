//! A map from string keys to values that keeps its entries ordered by key,
//! as the registry and the environment-variable files do.

use vstd::prelude::*;

use crate::text::{
    key_lt, lemma_key_lt_irreflexive, lemma_key_lt_total,
    lemma_key_lt_transitive, str_equal, str_lt,
};

verus! {

/// Keys strictly increasing along the sequence: sorted, each key at most once.
pub open spec fn keys_increasing<V>(s: Seq<(Seq<char>, V)>) -> bool {
    forall|i: int, j: int| 0 <= i < j < s.len() ==> key_lt(#[trigger] s[i].0, #[trigger] s[j].0)
}

/// Whether `k` is the key of some entry of `s`.
pub open spec fn has_key<V>(s: Seq<(Seq<char>, V)>, k: Seq<char>) -> bool {
    exists|i: int| 0 <= i < s.len() && #[trigger] s[i].0 == k
}

/// The position of an entry with key `k` (meaningful when `has_key(s, k)`).
pub open spec fn key_index<V>(s: Seq<(Seq<char>, V)>, k: Seq<char>) -> int {
    choose|i: int| 0 <= i < s.len() && #[trigger] s[i].0 == k
}

/// The map that an entry sequence stands for.
pub open spec fn seq_to_map<V>(s: Seq<(Seq<char>, V)>) -> Map<Seq<char>, V> {
    Map::new(|k: Seq<char>| has_key(s, k), |k: Seq<char>| s[key_index(s, k)].1)
}

/// In an increasing sequence a key sits at one position only.
pub proof fn lemma_index_unique<V>(s: Seq<(Seq<char>, V)>, i: int, j: int)
    requires
        keys_increasing(s),
        0 <= i < s.len(),
        0 <= j < s.len(),
        s[i].0 == s[j].0,
    ensures
        i == j,
{
    if i < j {
        assert(key_lt(s[i].0, s[j].0));
        lemma_key_lt_irreflexive(s[i].0);
    } else if j < i {
        assert(key_lt(s[j].0, s[i].0));
        lemma_key_lt_irreflexive(s[i].0);
    }
}

/// Each entry of an increasing sequence is an entry of its map.
pub proof fn lemma_entry_in_map<V>(s: Seq<(Seq<char>, V)>, i: int)
    requires
        keys_increasing(s),
        0 <= i < s.len(),
    ensures
        seq_to_map(s).contains_key(s[i].0),
        seq_to_map(s)[s[i].0] == s[i].1,
        key_index(s, s[i].0) == i,
{
    assert(has_key(s, s[i].0));
    let j = key_index(s, s[i].0);
    lemma_index_unique(s, i, j);
}

/// Every key of the map of `s` is the key of an entry.
pub proof fn lemma_map_key_in_seq<V>(s: Seq<(Seq<char>, V)>, k: Seq<char>)
    requires
        keys_increasing(s),
        seq_to_map(s).contains_key(k),
    ensures
        0 <= key_index(s, k) < s.len(),
        s[key_index(s, k)].0 == k,
        seq_to_map(s)[k] == s[key_index(s, k)].1,
{
}

/// Inserting a new key at its place keeps the keys increasing and adds the entry to the map.
pub proof fn lemma_insert_at<V>(s: Seq<(Seq<char>, V)>, i: int, k: Seq<char>, v: V)
    requires
        keys_increasing(s),
        0 <= i <= s.len(),
        forall|j: int| 0 <= j < i ==> key_lt(#[trigger] s[j].0, k),
        forall|j: int| i <= j < s.len() ==> key_lt(k, #[trigger] s[j].0),
    ensures
        keys_increasing(s.insert(i, (k, v))),
        seq_to_map(s.insert(i, (k, v))) =~= seq_to_map(s).insert(k, v),
{
    let t = s.insert(i, (k, v));
    assert forall|a: int, b: int| 0 <= a < b < t.len() implies key_lt(#[trigger] t[a].0, #[trigger] t[b].0) by {
        if b < i {
        } else if a < i && b == i {
        } else if a < i && b > i {
            assert(t[b] == s[b - 1]);
            lemma_key_lt_transitive(s[a].0, k, s[b - 1].0);
        } else if a == i {
            assert(t[b] == s[b - 1]);
        } else {
            assert(t[a] == s[a - 1]);
            assert(t[b] == s[b - 1]);
        }
    }
    let m = seq_to_map(s).insert(k, v);
    assert forall|key: Seq<char>| #[trigger] seq_to_map(t).contains_key(key) <==> m.contains_key(key) by {
        if seq_to_map(t).contains_key(key) {
            let j = key_index(t, key);
            if j < i {
                assert(s[j].0 == key);
            } else if j > i {
                assert(s[j - 1].0 == key);
            }
        }
        if m.contains_key(key) && key != k {
            let j = key_index(s, key);
            if j < i {
                assert(t[j].0 == key);
            } else {
                assert(t[j + 1].0 == key);
            }
        }
        if key == k {
            assert(t[i].0 == k);
        }
    }
    assert forall|key: Seq<char>| #[trigger] seq_to_map(t).contains_key(key) implies seq_to_map(t)[key] == m[key] by {
        let j = key_index(t, key);
        lemma_entry_in_map(t, j);
        if j < i {
            lemma_entry_in_map(s, j);
            if key == k {
                lemma_key_lt_irreflexive(k);
            }
        } else if j > i {
            lemma_entry_in_map(s, j - 1);
            if key == k {
                lemma_key_lt_irreflexive(k);
            }
        }
    }
}

/// Replacing the value at a position keeps the keys and updates the map at that key.
pub proof fn lemma_update_at<V>(s: Seq<(Seq<char>, V)>, i: int, v: V)
    requires
        keys_increasing(s),
        0 <= i < s.len(),
    ensures
        keys_increasing(s.update(i, (s[i].0, v))),
        seq_to_map(s.update(i, (s[i].0, v))) =~= seq_to_map(s).insert(s[i].0, v),
{
    let k = s[i].0;
    let t = s.update(i, (k, v));
    assert forall|a: int, b: int| 0 <= a < b < t.len() implies key_lt(#[trigger] t[a].0, #[trigger] t[b].0) by {
        assert(s[a].0 == t[a].0);
        assert(s[b].0 == t[b].0);
    }
    let m = seq_to_map(s).insert(k, v);
    assert forall|key: Seq<char>| #[trigger] seq_to_map(t).contains_key(key) <==> m.contains_key(key) by {
        if seq_to_map(t).contains_key(key) {
            let j = key_index(t, key);
            assert(s[j].0 == key);
        }
        if m.contains_key(key) && key != k {
            let j = key_index(s, key);
            assert(t[j].0 == key);
        }
        if key == k {
            assert(t[i].0 == k);
        }
    }
    assert forall|key: Seq<char>| #[trigger] seq_to_map(t).contains_key(key) implies seq_to_map(t)[key] == m[key] by {
        let j = key_index(t, key);
        lemma_entry_in_map(t, j);
        if j != i {
            lemma_entry_in_map(s, j);
            lemma_entry_in_map(s, i);
            if key == k {
                lemma_index_unique(s, i, j);
            }
        }
    }
}

/// Removing the entry at a position keeps the keys increasing and removes its key from the map.
pub proof fn lemma_remove_at<V>(s: Seq<(Seq<char>, V)>, i: int)
    requires
        keys_increasing(s),
        0 <= i < s.len(),
    ensures
        keys_increasing(s.remove(i)),
        seq_to_map(s.remove(i)) =~= seq_to_map(s).remove(s[i].0),
{
    let k = s[i].0;
    let t = s.remove(i);
    assert forall|a: int, b: int| 0 <= a < b < t.len() implies key_lt(#[trigger] t[a].0, #[trigger] t[b].0) by {
        if b < i {
        } else if a < i {
            assert(t[b] == s[b + 1]);
        } else {
            assert(t[a] == s[a + 1]);
            assert(t[b] == s[b + 1]);
        }
    }
    let m = seq_to_map(s).remove(k);
    assert forall|key: Seq<char>| #[trigger] seq_to_map(t).contains_key(key) <==> m.contains_key(key) by {
        if seq_to_map(t).contains_key(key) {
            let j = key_index(t, key);
            let js = if j < i { j } else { j + 1 };
            assert(s[js].0 == key);
            if key == k {
                lemma_index_unique(s, i, js);
            }
        }
        if m.contains_key(key) {
            let j = key_index(s, key);
            assert(j != i);
            if j < i {
                assert(t[j].0 == key);
            } else {
                assert(t[j - 1].0 == key);
            }
        }
    }
    assert forall|key: Seq<char>| #[trigger] seq_to_map(t).contains_key(key) implies seq_to_map(t)[key] == m[key] by {
        let j = key_index(t, key);
        lemma_entry_in_map(t, j);
        if j < i {
            lemma_entry_in_map(s, j);
        } else {
            lemma_entry_in_map(s, j + 1);
        }
    }
}

/// Taking one more entry of an increasing sequence adds that entry to the map.
pub proof fn lemma_take_step<V>(s: Seq<(Seq<char>, V)>, i: int)
    requires
        keys_increasing(s),
        0 <= i < s.len(),
    ensures
        keys_increasing(s.take(i + 1)),
        seq_to_map(s.take(i + 1)) =~= seq_to_map(s.take(i)).insert(s[i].0, s[i].1),
{
    let t = s.take(i);
    assert(keys_increasing(t));
    assert(s.take(i + 1) =~= t.insert(i, s[i]));
    lemma_insert_at(t, i, s[i].0, s[i].1);
}

/// The whole sequence is its longest prefix.
pub proof fn lemma_take_all<V>(s: Seq<(Seq<char>, V)>)
    ensures
        s.take(s.len() as int) == s,
{
    assert(s.take(s.len() as int) =~= s);
}

/// The map of the empty sequence is empty.
pub proof fn lemma_empty_map<V>(s: Seq<(Seq<char>, V)>)
    requires
        s.len() == 0,
    ensures
        seq_to_map(s) =~= Map::<Seq<char>, V>::empty(),
{
}

/// A map with `String` keys whose entries are kept in increasing key order.
#[derive(Debug)]
pub struct OrderedMap<V> {
    entries: Vec<(String, V)>,
}

/// The entry sequence of a vector of entries, keys taken by their view.
pub open spec fn entries_of<V>(v: Seq<(String, V)>) -> Seq<(Seq<char>, V)> {
    v.map_values(|e: (String, V)| (e.0@, e.1))
}

impl<V> OrderedMap<V> {
    /// The entries in increasing key order.
    pub closed spec fn entries_view(&self) -> Seq<(Seq<char>, V)> {
        entries_of(self.entries@)
    }

    #[verifier::type_invariant]
    spec fn inv(&self) -> bool {
        keys_increasing(self.entries_view())
    }

    /// An empty map.
    pub fn new() -> (m: Self)
        ensures
            m.entries_view() == Seq::<(Seq<char>, V)>::empty(),
            m@ == Map::<Seq<char>, V>::empty(),
    {
        let m = OrderedMap { entries: Vec::new() };
        assert(m.entries_view() =~= Seq::<(Seq<char>, V)>::empty());
        proof {
            lemma_empty_map(m.entries_view());
        }
        m
    }

    /// The number of entries.
    pub fn len(&self) -> (n: usize)
        ensures
            n == self.entries_view().len(),
    {
        self.entries.len()
    }

    /// Whether the map has no entries.
    pub fn is_empty(&self) -> (b: bool)
        ensures
            b == (self.entries_view().len() == 0),
            b == (self@ == Map::<Seq<char>, V>::empty()),
    {
        proof {
            use_type_invariant(self);
            if self.entries_view().len() == 0 {
                lemma_empty_map(self.entries_view());
            } else {
                lemma_entry_in_map(self.entries_view(), 0);
                assert(!Map::<Seq<char>, V>::empty().contains_key(self.entries_view()[0].0));
            }
        }
        self.entries.len() == 0
    }

    /// The entries, in increasing key order.
    pub fn entries(&self) -> (r: &Vec<(String, V)>)
        ensures
            entries_of(r@) == self.entries_view(),
            keys_increasing(self.entries_view()),
    {
        proof {
            use_type_invariant(self);
        }
        &self.entries
    }

    /// The position of `key` among the entries, if present.
    fn find(&self, key: &str) -> (r: Option<usize>)
        ensures
            r is None <==> !self@.contains_key(key@),
            r matches Some(i) ==> i < self.entries_view().len() && self.entries_view()[i as int].0
                == key@,
    {
        proof {
            use_type_invariant(self);
        }
        let mut i: usize = 0;
        while i < self.entries.len()
            invariant
                i <= self.entries@.len(),
                keys_increasing(self.entries_view()),
                forall|j: int| 0 <= j < i ==> self.entries_view()[j].0 != key@,
            decreases self.entries@.len() - i,
        {
            if str_equal(self.entries[i].0.as_str(), key) {
                proof {
                    lemma_entry_in_map(self.entries_view(), i as int);
                }
                return Some(i);
            }
            i = i + 1;
        }
        proof {
            if self@.contains_key(key@) {
                lemma_map_key_in_seq(self.entries_view(), key@);
            }
        }
        None
    }

    /// Whether `key` has an entry.
    pub fn contains_key(&self, key: &str) -> (b: bool)
        ensures
            b == self@.contains_key(key@),
    {
        self.find(key).is_some()
    }

    /// The value stored under `key`.
    pub fn get(&self, key: &str) -> (r: Option<&V>)
        ensures
            r is Some <==> self@.contains_key(key@),
            r matches Some(v) ==> *v == self@[key@],
    {
        proof {
            use_type_invariant(self);
        }
        match self.find(key) {
            Some(i) => {
                proof {
                    lemma_entry_in_map(self.entries_view(), i as int);
                }
                Some(&self.entries[i].1)
            },
            None => None,
        }
    }

    /// Stores `value` under `key`, returning the value it replaces.
    pub fn insert(&mut self, key: String, value: V) -> (r: Option<V>)
        ensures
            final(self)@ == old(self)@.insert(key@, value),
            r is Some <==> old(self)@.contains_key(key@),
            r matches Some(v) ==> v == old(self)@[key@],
            (forall|j: int| 0 <= j < old(self).entries_view().len() ==> key_lt(
                #[trigger] old(self).entries_view()[j].0,
                key@,
            )) ==> final(self).entries_view() == old(self).entries_view().push((key@, value)),
    {
        proof {
            use_type_invariant(&*self);
        }
        let ghost s = self.entries_view();
        let mut entries: Vec<(String, V)> = Vec::new();
        std::mem::swap(&mut entries, &mut self.entries);
        assert(entries_of(entries@) == s);
        let mut i: usize = 0;
        let mut found_place = false;
        while !found_place && i < entries.len()
            invariant
                i <= entries@.len(),
                entries_of(entries@) == s,
                keys_increasing(s),
                forall|j: int| 0 <= j < i ==> key_lt(#[trigger] s[j].0, key@),
                found_place ==> i < entries@.len() && !key_lt(s[i as int].0, key@),
            decreases entries@.len() - i + (if found_place { 0int } else { 1int }),
        {
            if str_lt(entries[i].0.as_str(), key.as_str()) {
                i = i + 1;
            } else {
                found_place = true;
            }
        }
        if i < entries.len() && str_equal(entries[i].0.as_str(), key.as_str()) {
            let (k, old_value) = entries.remove(i);
            entries.insert(i, (k, value));
            proof {
                assert(entries_of(entries@) =~= s.update(i as int, (s[i as int].0, value)));
                lemma_update_at(s, i as int, value);
                lemma_entry_in_map(s, i as int);
            }
            self.entries = entries;
            Some(old_value)
        } else {
            proof {
                assert forall|j: int| i <= j < s.len() implies key_lt(key@, #[trigger] s[j].0) by {
                    assert(!key_lt(s[i as int].0, key@));
                    assert(s[i as int].0 != key@);
                    lemma_key_lt_total(s[i as int].0, key@);
                    if j > i {
                        lemma_key_lt_transitive(key@, s[i as int].0, s[j].0);
                    }
                }
                if seq_to_map(s).contains_key(key@) {
                    let j = key_index(s, key@);
                    if j < i {
                        lemma_key_lt_irreflexive(key@);
                    } else {
                        lemma_key_lt_irreflexive(key@);
                    }
                }
            }
            entries.insert(i, (key, value));
            proof {
                assert(entries_of(entries@) =~= s.insert(i as int, (key@, value)));
                lemma_insert_at(s, i as int, key@, value);
                if i == s.len() {
                    assert(s.insert(i as int, (key@, value)) =~= s.push((key@, value)));
                }
            }
            self.entries = entries;
            None
        }
    }

    /// Removes the entry for `key`, returning its value.
    pub fn remove(&mut self, key: &str) -> (r: Option<V>)
        ensures
            final(self)@ == old(self)@.remove(key@),
            r is Some <==> old(self)@.contains_key(key@),
            r matches Some(v) ==> v == old(self)@[key@],
    {
        proof {
            use_type_invariant(&*self);
        }
        match self.find(key) {
            None => {
                assert(self@ =~= self@.remove(key@));
                None
            },
            Some(i) => {
                let ghost s = self.entries_view();
                let mut entries: Vec<(String, V)> = Vec::new();
                std::mem::swap(&mut entries, &mut self.entries);
                let (_k, v) = entries.remove(i);
                proof {
                    assert(entries_of(entries@) =~= s.remove(i as int));
                    lemma_remove_at(s, i as int);
                    lemma_entry_in_map(s, i as int);
                }
                self.entries = entries;
                Some(v)
            },
        }
    }
}

impl<V> View for OrderedMap<V> {
    type V = Map<Seq<char>, V>;

    open spec fn view(&self) -> Map<Seq<char>, V> {
        seq_to_map(self.entries_view())
    }
}

} // verus!
