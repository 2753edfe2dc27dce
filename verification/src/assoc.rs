//! Association lists: a sequence of key/value pairs read as a map, the way
//! the lookup tables here store string-keyed entries.

use vstd::prelude::*;

verus! {

/// No key occurs twice.
pub open spec fn distinct_keys<K, V>(s: Seq<(K, V)>) -> bool {
    forall|i: int, j: int| 0 <= i < j < s.len() ==> s[i].0 != s[j].0
}

/// The map an association list denotes: each key to its value.
pub open spec fn as_map<K, V>(s: Seq<(K, V)>) -> Map<K, V>
    decreases s.len(),
{
    if s.len() == 0 {
        Map::empty()
    } else {
        as_map(s.drop_last()).insert(s.last().0, s.last().1)
    }
}

/// The keys of the map are exactly the keys in the list.
pub proof fn lemma_as_map_dom<K, V>(s: Seq<(K, V)>, k: K)
    ensures
        as_map(s).contains_key(k) <==> exists|i: int| 0 <= i < s.len() && s[i].0 == k,
    decreases s.len(),
{
    if s.len() > 0 {
        lemma_as_map_dom(s.drop_last(), k);
        if exists|i: int| 0 <= i < s.len() && s[i].0 == k {
            let i = choose|i: int| 0 <= i < s.len() && s[i].0 == k;
            if i < s.len() - 1 {
                assert(s.drop_last()[i] == s[i]);
            }
        }
        if exists|i: int| 0 <= i < s.len() - 1 && s.drop_last()[i].0 == k {
            let i = choose|i: int| 0 <= i < s.len() - 1 && s.drop_last()[i].0 == k;
            assert(s[i].0 == k);
        }
    }
}

/// With distinct keys, the map sends each listed key to its listed value.
pub proof fn lemma_as_map_index<K, V>(s: Seq<(K, V)>, i: int)
    requires
        distinct_keys(s),
        0 <= i < s.len(),
    ensures
        as_map(s).contains_key(s[i].0),
        as_map(s)[s[i].0] == s[i].1,
    decreases s.len(),
{
    if i < s.len() - 1 {
        lemma_as_map_index(s.drop_last(), i);
    }
}

/// The map sends a key to the value of its last occurrence in the list.
pub proof fn lemma_as_map_last<K, V>(s: Seq<(K, V)>, i: int)
    requires
        0 <= i < s.len(),
        forall|j: int| i < j < s.len() ==> s[j].0 != s[i].0,
    ensures
        as_map(s).contains_key(s[i].0),
        as_map(s)[s[i].0] == s[i].1,
    decreases s.len(),
{
    if i < s.len() - 1 {
        lemma_as_map_last(s.drop_last(), i);
    }
}

/// Replacing the value at a listed key updates the map there.
pub proof fn lemma_as_map_update<K, V>(s: Seq<(K, V)>, i: int, v: V)
    requires
        distinct_keys(s),
        0 <= i < s.len(),
    ensures
        as_map(s.update(i, (s[i].0, v))) == as_map(s).insert(s[i].0, v),
        distinct_keys(s.update(i, (s[i].0, v))),
    decreases s.len(),
{
    let t = s.update(i, (s[i].0, v));
    if i == s.len() - 1 {
        assert(t.drop_last() =~= s.drop_last());
        lemma_as_map_dom(s.drop_last(), s[i].0);
        assert(as_map(t) =~= as_map(s).insert(s[i].0, v));
    } else {
        lemma_as_map_update(s.drop_last(), i, v);
        assert(t.drop_last() =~= s.drop_last().update(i, (s[i].0, v)));
        assert(as_map(t) =~= as_map(s).insert(s[i].0, v));
    }
}

/// Appending a new key adds it to the map.
pub proof fn lemma_as_map_push<K, V>(s: Seq<(K, V)>, k: K, v: V)
    requires
        distinct_keys(s),
        !as_map(s).contains_key(k),
    ensures
        as_map(s.push((k, v))) == as_map(s).insert(k, v),
        distinct_keys(s.push((k, v))),
{
    lemma_as_map_dom(s, k);
    assert(s.push((k, v)).drop_last() =~= s);
}

/// Removing the entry at `i` removes its key from the map.
pub proof fn lemma_as_map_remove<K, V>(s: Seq<(K, V)>, i: int)
    requires
        distinct_keys(s),
        0 <= i < s.len(),
    ensures
        as_map(s.remove(i)) == as_map(s).remove(s[i].0),
        distinct_keys(s.remove(i)),
    decreases s.len(),
{
    let t = s.remove(i);
    if i == s.len() - 1 {
        assert(t =~= s.drop_last());
        lemma_as_map_dom(s.drop_last(), s[i].0);
        assert(as_map(t) =~= as_map(s).remove(s[i].0));
    } else {
        lemma_as_map_remove(s.drop_last(), i);
        assert(t.drop_last() =~= s.drop_last().remove(i));
        assert(t.last() == s.last());
        assert(as_map(t) =~= as_map(s).remove(s[i].0));
    }
}

/// With distinct keys the map has as many keys as the list has entries.
pub proof fn lemma_as_map_len<K, V>(s: Seq<(K, V)>)
    requires
        distinct_keys(s),
    ensures
        as_map(s).dom().finite(),
        as_map(s).dom().len() == s.len(),
    decreases s.len(),
{
    if s.len() > 0 {
        lemma_as_map_len(s.drop_last());
        lemma_as_map_dom(s.drop_last(), s.last().0);
    }
}

/// The entries of a string-keyed list, keys seen as characters.
pub open spec fn str_entries<V>(s: Seq<(String, V)>) -> Seq<(Seq<char>, V)> {
    s.map_values(|e: (String, V)| (e.0@, e.1))
}

/// A map keyed by strings, held as a list of distinct keys with their values
/// in insertion order.
#[derive(Debug)]
pub struct StrMap<V> {
    entries: Vec<(String, V)>,
}

impl<V> View for StrMap<V> {
    type V = Map<Seq<char>, V>;

    closed spec fn view(&self) -> Map<Seq<char>, V> {
        as_map(str_entries(self.entries@))
    }
}

impl<V> StrMap<V> {
    #[verifier::type_invariant]
    closed spec fn inv(self) -> bool {
        distinct_keys(str_entries(self.entries@))
    }

    pub fn new() -> (m: Self)
        ensures
            m@ == Map::<Seq<char>, V>::empty(),
    {
        let m = StrMap { entries: Vec::new() };
        proof {
            assert(str_entries(m.entries@) =~= Seq::<(Seq<char>, V)>::empty());
        }
        m
    }

    /// The entries, keys seen as characters, in insertion order.
    pub closed spec fn pairs(&self) -> Seq<(Seq<char>, V)> {
        str_entries(self.entries@)
    }

    /// The number of entries, which have distinct keys and denote the map.
    pub fn entry_count(&self) -> (n: usize)
        ensures
            n == self.pairs().len(),
            distinct_keys(self.pairs()),
            as_map(self.pairs()) == self@,
    {
        proof {
            use_type_invariant(self);
        }
        self.entries.len()
    }

    /// The value of entry `i`.
    pub fn value_at(&self, i: usize) -> (v: &V)
        requires
            i < self.pairs().len(),
        ensures
            *v == self.pairs()[i as int].1,
    {
        &self.entries[i].1
    }

    /// The key of entry `i`.
    pub fn key_at(&self, i: usize) -> (k: &str)
        requires
            i < self.pairs().len(),
        ensures
            k@ == self.pairs()[i as int].0,
    {
        self.entries[i].0.as_str()
    }

    /// Where `key` sits, if present.
    fn index_of(&self, key: &str) -> (r: Option<usize>)
        ensures
            match r {
                Some(i) => i < self.entries@.len() && self@.contains_key(key@) && self@[key@]
                    == self.entries@[i as int].1 && self.entries@[i as int].0@ == key@,
                None => !self@.contains_key(key@),
            },
    {
        proof {
            use_type_invariant(self);
        }
        let ghost s = str_entries(self.entries@);
        let mut i: usize = 0;
        while i < self.entries.len()
            invariant
                s == str_entries(self.entries@),
                distinct_keys(s),
                i <= self.entries@.len(),
                forall|j: int| 0 <= j < i ==> s[j].0 != key@,
            decreases self.entries@.len() - i,
        {
            if crate::text::str_eq(self.entries[i].0.as_str(), key) {
                proof {
                    lemma_as_map_index(s, i as int);
                }
                return Some(i);
            }
            i += 1;
        }
        proof {
            lemma_as_map_dom(s, key@);
        }
        None
    }

    /// Insert or replace the value for `key`.
    pub fn insert(&mut self, key: String, value: V)
        ensures
            final(self)@ == old(self)@.insert(key@, value),
    {
        proof {
            use_type_invariant(&*self);
        }
        let found = self.index_of(key.as_str());
        let ghost s = str_entries(self.entries@);
        let mut entries: Vec<(String, V)> = Vec::new();
        std::mem::swap(&mut entries, &mut self.entries);
        match found {
            Some(i) => {
                proof {
                    lemma_as_map_update(s, i as int, value);
                    assert(str_entries(entries@.update(i as int, (key, value))) =~= s.update(
                        i as int,
                        (s[i as int].0, value),
                    ));
                }
                entries.set(i, (key, value));
            },
            None => {
                proof {
                    lemma_as_map_push(s, key@, value);
                    assert(str_entries(entries@.push((key, value))) =~= s.push((key@, value)));
                }
                entries.push((key, value));
            },
        }
        self.entries = entries;
    }

    /// Remove `key`, if present.
    pub fn remove(&mut self, key: &str)
        ensures
            final(self)@ == old(self)@.remove(key@),
    {
        proof {
            use_type_invariant(&*self);
        }
        let found = self.index_of(key);
        let ghost s = str_entries(self.entries@);
        match found {
            Some(i) => {
                let mut entries: Vec<(String, V)> = Vec::new();
                std::mem::swap(&mut entries, &mut self.entries);
                proof {
                    lemma_as_map_remove(s, i as int);
                    assert(str_entries(entries@.remove(i as int)) =~= s.remove(i as int));
                }
                entries.remove(i);
                self.entries = entries;
            },
            None => {
                proof {
                    assert(self@.remove(key@) =~= self@);
                }
            },
        }
    }

    /// The value for `key`.
    pub fn get(&self, key: &str) -> (r: Option<&V>)
        ensures
            match r {
                Some(v) => self@.contains_key(key@) && *v == self@[key@],
                None => !self@.contains_key(key@),
            },
    {
        match self.index_of(key) {
            Some(i) => Some(&self.entries[i].1),
            None => None,
        }
    }

    pub fn contains_key(&self, key: &str) -> (b: bool)
        ensures
            b == self@.contains_key(key@),
    {
        self.index_of(key).is_some()
    }

    /// The number of keys.
    pub fn len(&self) -> (n: usize)
        ensures
            n == self@.dom().len(),
    {
        proof {
            use_type_invariant(self);
            lemma_as_map_len(str_entries(self.entries@));
        }
        self.entries.len()
    }

    /// The values, in insertion order: one for each key.
    pub fn values(&self) -> (r: Vec<&V>)
        ensures
            r@.len() == self@.dom().len(),
            r@.len() == self.pairs().len(),
            forall|i: int| 0 <= i < r@.len() ==> *#[trigger] r@[i] == self.pairs()[i].1,
            forall|i: int| 0 <= i < r@.len() ==> self@.values().contains(*#[trigger] r@[i]),
            forall|k: Seq<char>|
                #[trigger] self@.contains_key(k) ==> exists|i: int| 0 <= i < r@.len() && *r@[i] == self@[k],
            distinct_keys(self.pairs()),
            as_map(self.pairs()) == self@,
    {
        proof {
            use_type_invariant(self);
            lemma_as_map_len(str_entries(self.entries@));
        }
        let ghost s = str_entries(self.entries@);
        let mut r: Vec<&V> = Vec::new();
        let mut i: usize = 0;
        while i < self.entries.len()
            invariant
                s == str_entries(self.entries@),
                distinct_keys(s),
                i <= self.entries@.len(),
                r@.len() == i,
                forall|j: int| 0 <= j < i ==> *#[trigger] r@[j] == s[j].1,
            decreases self.entries@.len() - i,
        {
            r.push(&self.entries[i].1);
            i += 1;
        }
        proof {
            assert forall|i: int| 0 <= i < r@.len() implies self@.values().contains(*#[trigger] r@[i]) by {
                lemma_as_map_index(s, i);
                assert(*r@[i] == s[i].1);
                assert(self@.contains_key(s[i].0) && self@[s[i].0] == *r@[i]);
            }
            assert forall|k: Seq<char>| #[trigger] self@.contains_key(k) implies exists|i: int|
                0 <= i < r@.len() && *r@[i] == self@[k] by {
                lemma_as_map_dom(s, k);
                let i = choose|i: int| 0 <= i < s.len() && s[i].0 == k;
                lemma_as_map_index(s, i);
                assert(*r@[i] == s[i].1);
                assert(*r@[i] == self@[k]);
            }
        }
        r
    }
}

/// A set of strings, held as a list without repeats.
#[derive(Debug)]
pub struct StrSet {
    items: StrMap<()>,
}

impl View for StrSet {
    type V = Set<Seq<char>>;

    closed spec fn view(&self) -> Set<Seq<char>> {
        self.items@.dom()
    }
}

impl StrSet {
    pub fn new() -> (s: Self)
        ensures
            s@ == Set::<Seq<char>>::empty(),
    {
        let s = StrSet { items: StrMap::new() };
        proof {
            assert(s.items@.dom() =~= Set::<Seq<char>>::empty());
        }
        s
    }

    /// Add `item`; whether it was new.
    pub fn insert(&mut self, item: String) -> (added: bool)
        ensures
            final(self)@ == old(self)@.insert(item@),
            added == !old(self)@.contains(item@),
    {
        let added = !self.items.contains_key(item.as_str());
        self.items.insert(item, ());
        added
    }

    pub fn contains(&self, item: &str) -> (b: bool)
        ensures
            b == self@.contains(item@),
    {
        self.items.contains_key(item)
    }

    pub fn len(&self) -> (n: usize)
        ensures
            n == self@.len(),
    {
        self.items.len()
    }
}

} // verus!
