//! A small map keyed by device identity.

use vstd::prelude::*;

verus! {

pub open spec fn keys_unique<V>(s: Seq<(String, V)>) -> bool {
    forall|i: int, j: int| 0 <= i < s.len() && 0 <= j < s.len() && i != j ==> s[i].0@ != s[j].0@
}

/// The map that an entry list represents (later entries win).
pub open spec fn map_of<V>(s: Seq<(String, V)>) -> Map<Seq<char>, V>
    decreases s.len(),
{
    if s.len() == 0 {
        Map::empty()
    } else {
        map_of(s.drop_last()).insert(s.last().0@, s.last().1)
    }
}

pub proof fn lemma_map_of_lookup<V>(s: Seq<(String, V)>, k: Seq<char>)
    requires
        keys_unique(s),
    ensures
        map_of(s).contains_key(k) <==> exists|i: int| 0 <= i < s.len() && s[i].0@ == k,
        forall|i: int| 0 <= i < s.len() && s[i].0@ == k ==> map_of(s)[k] == s[i].1,
    decreases s.len(),
{
    if s.len() > 0 {
        let t = s.drop_last();
        assert(keys_unique(t));
        lemma_map_of_lookup(t, k);
        if map_of(t).contains_key(k) {
            let i = choose|i: int| 0 <= i < t.len() && t[i].0@ == k;
            assert(s[i] == t[i]);
        }
        if exists|i: int| 0 <= i < s.len() && s[i].0@ == k {
            let i = choose|i: int| 0 <= i < s.len() && s[i].0@ == k;
            if i < s.len() - 1 {
                assert(t[i] == s[i]);
            }
        }
        assert forall|i: int| 0 <= i < s.len() && s[i].0@ == k implies map_of(s)[k] == s[i].1 by {
            if i < s.len() - 1 {
                assert(t[i] == s[i]);
                assert(s[i].0@ != s[s.len() - 1].0@);
            }
        }
    }
}

pub proof fn lemma_map_of_update<V>(s: Seq<(String, V)>, i: int, key: String, v: V)
    requires
        keys_unique(s),
        0 <= i < s.len(),
        key@ == s[i].0@,
    ensures
        keys_unique(s.update(i, (key, v))),
        map_of(s.update(i, (key, v))) == map_of(s).insert(key@, v),
    decreases s.len(),
{
    let u = s.update(i, (key, v));
    let t = s.drop_last();
    if i == s.len() - 1 {
        assert(u.drop_last() =~= t);
    } else {
        lemma_map_of_update(t, i, key, v);
        assert(u.drop_last() =~= t.update(i, (key, v)));
        assert(s.last().0@ != key@);
        assert(map_of(u) =~= map_of(s).insert(key@, v));
    }
}

pub proof fn lemma_map_of_remove<V>(s: Seq<(String, V)>, i: int)
    requires
        keys_unique(s),
        0 <= i < s.len(),
    ensures
        keys_unique(s.remove(i)),
        map_of(s.remove(i)) == map_of(s).remove(s[i].0@),
    decreases s.len(),
{
    let r = s.remove(i);
    let t = s.drop_last();
    assert(keys_unique(r)) by {
        assert forall|a: int, b: int|
            0 <= a < r.len() && 0 <= b < r.len() && a != b implies r[a].0@ != r[b].0@ by {
            let a2 = if a < i { a } else { a + 1 };
            let b2 = if b < i { b } else { b + 1 };
            assert(r[a] == s[a2]);
            assert(r[b] == s[b2]);
        }
    }
    if i == s.len() - 1 {
        assert(r =~= t);
        lemma_map_of_lookup(t, s[i].0@);
        assert(!map_of(t).contains_key(s[i].0@));
        assert(map_of(r) =~= map_of(s).remove(s[i].0@));
    } else {
        lemma_map_of_remove(t, i);
        assert(r.drop_last() =~= t.remove(i));
        assert(r.last() == s.last());
        assert(s.last().0@ != s[i].0@);
        assert(map_of(r) =~= map_of(s).remove(s[i].0@));
    }
}

/// Entries keyed by a string, each key at most once.
pub struct KeyedStore<V> {
    entries: Vec<(String, V)>,
}

impl<V> View for KeyedStore<V> {
    type V = Map<Seq<char>, V>;

    closed spec fn view(&self) -> Map<Seq<char>, V> {
        map_of(self.entries@)
    }
}

impl<V> KeyedStore<V> {
    #[verifier::type_invariant]
    closed spec fn unique(self) -> bool {
        keys_unique(self.entries@)
    }

    pub fn new() -> (r: Self)
        ensures
            r@ == Map::<Seq<char>, V>::empty(),
    {
        KeyedStore { entries: Vec::new() }
    }

    pub fn len(&self) -> (r: usize)
        ensures
            r as nat == self@.dom().len(),
    {
        proof {
            use_type_invariant(self);
            self.lemma_dom_len();
        }
        self.entries.len()
    }

    pub fn is_empty(&self) -> (r: bool)
        ensures
            r == (self@.dom().len() == 0),
    {
        self.len() == 0
    }

    proof fn lemma_dom_len(&self)
        requires
            keys_unique(self.entries@),
        ensures
            map_of(self.entries@).dom().finite(),
            map_of(self.entries@).dom().len() == self.entries@.len(),
    {
        lemma_dom_len_of(self.entries@);
    }

    fn find(&self, key: &str) -> (r: Option<usize>)
        ensures
            r matches Some(i) ==> i < self.entries@.len() && self.entries@[i as int].0@ == key@,
            r is None ==> forall|i: int|
                0 <= i < self.entries@.len() ==> self.entries@[i].0@ != key@,
    {
        let mut i: usize = 0;
        while i < self.entries.len()
            invariant
                i <= self.entries@.len(),
                forall|j: int| 0 <= j < i ==> self.entries@[j].0@ != key@,
            decreases self.entries@.len() - i,
        {
            if crate::text::str_eq(self.entries[i].0.as_str(), key) {
                return Some(i);
            }
            i += 1;
        }
        None
    }

    pub fn contains_key(&self, key: &str) -> (r: bool)
        ensures
            r == self@.contains_key(key@),
    {
        proof {
            use_type_invariant(self);
            lemma_map_of_lookup(self.entries@, key@);
        }
        self.find(key).is_some()
    }

    pub fn get(&self, key: &str) -> (r: Option<&V>)
        ensures
            r is Some == self@.contains_key(key@),
            r matches Some(v) ==> *v == self@[key@],
    {
        proof {
            use_type_invariant(self);
            lemma_map_of_lookup(self.entries@, key@);
        }
        match self.find(key) {
            Some(i) => Some(&self.entries[i].1),
            None => None,
        }
    }

    pub fn insert(&mut self, key: String, value: V)
        ensures
            final(self)@ == old(self)@.insert(key@, value),
    {
        proof {
            use_type_invariant(&*self);
        }
        match self.find(key.as_str()) {
            Some(i) => {
                let ghost s = self.entries@;
                proof {
                    lemma_map_of_update(s, i as int, key, value);
                }
                let mut entries: Vec<(String, V)> = Vec::new();
                std::mem::swap(&mut entries, &mut self.entries);
                entries.set(i, (key, value));
                self.entries = entries;
            },
            None => {
                let ghost s = self.entries@;
                let mut entries: Vec<(String, V)> = Vec::new();
                std::mem::swap(&mut entries, &mut self.entries);
                entries.push((key, value));
                proof {
                    assert(entries@.drop_last() =~= s);
                    assert forall|a: int, b: int|
                        0 <= a < entries@.len() && 0 <= b < entries@.len() && a != b implies
                        entries@[a].0@ != entries@[b].0@ by {
                        if a < s.len() && b < s.len() {
                            assert(entries@[a] == s[a] && entries@[b] == s[b]);
                        } else if a < s.len() {
                            assert(entries@[a] == s[a]);
                        } else {
                            assert(entries@[b] == s[b]);
                        }
                    }
                }
                self.entries = entries;
            },
        }
    }

    /// The keys, in the order the entries are kept.
    pub closed spec fn key_order(self) -> Seq<Seq<char>> {
        self.entries@.map_values(|e: (String, V)| e.0@)
    }

    /// The values, one for each key, in the order of `key_order`.
    pub fn values(&self) -> (r: Vec<&V>)
        ensures
            self.key_order().no_duplicates(),
            forall|k: Seq<char>| #[trigger] self@.contains_key(k) <==> self.key_order().contains(k),
            r@.len() == self.key_order().len(),
            forall|i: int| 0 <= i < r@.len() ==> *r@[i] == self@[#[trigger] self.key_order()[i]],
    {
        proof {
            use_type_invariant(self);
            assert forall|k: Seq<char>| #[trigger] self@.contains_key(k) <==> self.key_order().contains(k) by {
                lemma_map_of_lookup(self.entries@, k);
                if self@.contains_key(k) {
                    let i = choose|i: int| 0 <= i < self.entries@.len() && self.entries@[i].0@ == k;
                    assert(self.key_order()[i] == k);
                }
                if self.key_order().contains(k) {
                    let i = choose|i: int| 0 <= i < self.key_order().len() && self.key_order()[i] == k;
                    assert(self.entries@[i].0@ == k);
                }
            }
        }
        let mut r: Vec<&V> = Vec::new();
        let mut i: usize = 0;
        while i < self.entries.len()
            invariant
                i <= self.entries@.len(),
                keys_unique(self.entries@),
                r@.len() == i,
                forall|j: int| 0 <= j < i ==> *r@[j] == self.entries@[j].1,
            decreases self.entries@.len() - i,
        {
            r.push(&self.entries[i].1);
            i += 1;
        }
        proof {
            assert forall|i: int| 0 <= i < r@.len() implies *r@[i] == self@[#[trigger] self.key_order()[i]] by {
                lemma_map_of_lookup(self.entries@, self.entries@[i].0@);
            }
        }
        r
    }

    /// The keys, in the order of `key_order`.
    pub fn keys(&self) -> (r: Vec<String>)
        ensures
            crate::text::string_views(r@) == self.key_order(),
            self.key_order().no_duplicates(),
            forall|k: Seq<char>| #[trigger] self@.contains_key(k) <==> self.key_order().contains(k),
    {
        proof {
            use_type_invariant(self);
            assert forall|k: Seq<char>| #[trigger] self@.contains_key(k) <==> self.key_order().contains(k) by {
                lemma_map_of_lookup(self.entries@, k);
                if self@.contains_key(k) {
                    let i = choose|i: int| 0 <= i < self.entries@.len() && self.entries@[i].0@ == k;
                    assert(self.key_order()[i] == k);
                }
                if self.key_order().contains(k) {
                    let i = choose|i: int| 0 <= i < self.key_order().len() && self.key_order()[i] == k;
                    assert(self.entries@[i].0@ == k);
                }
            }
        }
        let mut r: Vec<String> = Vec::new();
        let mut i: usize = 0;
        while i < self.entries.len()
            invariant
                i <= self.entries@.len(),
                crate::text::string_views(r@) == self.key_order().take(i as int),
            decreases self.entries@.len() - i,
        {
            let ghost before = r@;
            r.push(crate::text::copy_string(&self.entries[i].0));
            proof {
                assert(crate::text::string_views(r@) =~= crate::text::string_views(before).push(self.entries@[i as int].0@));
            }
            i += 1;
            assert(crate::text::string_views(r@) =~= self.key_order().take(i as int));
        }
        assert(self.key_order().take(i as int) =~= self.key_order());
        r
    }

    /// Keeps the entries whose key is one of `keep`.
    pub fn retain_keys(&mut self, keep: &Vec<String>)
        ensures
            final(self)@ == old(self)@.restrict(crate::text::string_views(keep@).to_set()),
    {
        proof {
            use_type_invariant(&*self);
        }
        let ghost keys = crate::text::string_views(keep@).to_set();
        let ghost s = self.entries@;
        let mut entries: Vec<(String, V)> = Vec::new();
        std::mem::swap(&mut entries, &mut self.entries);
        let mut kept: Vec<(String, V)> = Vec::new();
        let mut i: usize = 0;
        let n = entries.len();
        assert(s.take(0) =~= Seq::<(String, V)>::empty());
        assert(map_of(Seq::<(String, V)>::empty()).restrict(keys) =~= map_of(Seq::<(String, V)>::empty()));
        while entries.len() > 0
            invariant
                i + entries@.len() == s.len(),
                n == s.len(),
                entries@ == s.skip(i as int),
                keys_unique(s),
                keys == crate::text::string_views(keep@).to_set(),
                keys_unique(kept@),
                forall|j: int| 0 <= j < kept@.len() ==> exists|t: int| 0 <= t < i && #[trigger] kept@[j].0@ == s[t].0@,
                map_of(kept@) == map_of(s.take(i as int)).restrict(keys),
            decreases entries@.len(),
        {
            let e = entries.remove(0);
            proof {
                assert(e == s[i as int]);
                assert(s.take(i + 1).drop_last() =~= s.take(i as int));
            }
            let mut found = false;
            let mut j: usize = 0;
            while j < keep.len()
                invariant
                    j <= keep@.len(),
                    found == exists|t: int| 0 <= t < j && #[trigger] keep@[t]@ == e.0@,
                decreases keep@.len() - j,
            {
                if crate::text::str_eq(keep[j].as_str(), e.0.as_str()) {
                    found = true;
                }
                j += 1;
            }
            proof {
                if found {
                    let t = choose|t: int| 0 <= t < keep@.len() && #[trigger] keep@[t]@ == e.0@;
                    assert(crate::text::string_views(keep@)[t] == e.0@);
                    assert(keys.contains(e.0@));
                } else {
                    assert forall|t: int| 0 <= t < crate::text::string_views(keep@).len() implies crate::text::string_views(keep@)[t] != e.0@ by {
                        assert(crate::text::string_views(keep@)[t] == keep@[t]@);
                    }
                    assert(!keys.contains(e.0@));
                }
            }
            if found {
                let ghost before = kept@;
                kept.push(e);
                proof {
                    assert(kept@.drop_last() =~= before);
                    assert forall|a: int, b: int| 0 <= a < kept@.len() && 0 <= b < kept@.len() && a != b implies kept@[a].0@ != kept@[b].0@ by {
                        if a < before.len() && b < before.len() {
                            assert(kept@[a] == before[a] && kept@[b] == before[b]);
                        } else if a < before.len() {
                            assert(kept@[a] == before[a]);
                            let t = choose|t: int| 0 <= t < i && #[trigger] before[a].0@ == s[t].0@;
                            assert(s[t].0@ != s[i as int].0@);
                        } else {
                            assert(kept@[b] == before[b]);
                            let t = choose|t: int| 0 <= t < i && #[trigger] before[b].0@ == s[t].0@;
                            assert(s[t].0@ != s[i as int].0@);
                        }
                    }
                    assert forall|j: int| 0 <= j < kept@.len() implies exists|t: int| 0 <= t < i + 1 && #[trigger] kept@[j].0@ == s[t].0@ by {
                        if j < before.len() {
                            assert(kept@[j] == before[j]);
                            let t = choose|t: int| 0 <= t < i && #[trigger] before[j].0@ == s[t].0@;
                            assert(kept@[j].0@ == s[t].0@);
                        } else {
                            assert(kept@[j].0@ == s[i as int].0@);
                        }
                    }
                    assert(map_of(kept@) =~= map_of(s.take(i + 1)).restrict(keys));
                }
            } else {
                proof {
                    assert forall|j: int| 0 <= j < kept@.len() implies exists|t: int| 0 <= t < i + 1 && #[trigger] kept@[j].0@ == s[t].0@ by {
                        let t = choose|t: int| 0 <= t < i && #[trigger] kept@[j].0@ == s[t].0@;
                        assert(kept@[j].0@ == s[t].0@);
                    }
                    assert(map_of(kept@) =~= map_of(s.take(i + 1)).restrict(keys));
                }
            }
            i += 1;
            proof {
                assert(entries@ =~= s.skip(i as int));
            }
        }
        assert(s.take(i as int) =~= s);
        self.entries = kept;
    }

    pub fn remove(&mut self, key: &str) -> (r: Option<V>)
        ensures
            final(self)@ == old(self)@.remove(key@),
            r is Some == old(self)@.contains_key(key@),
            r matches Some(v) ==> v == old(self)@[key@],
    {
        proof {
            use_type_invariant(&*self);
            lemma_map_of_lookup(self.entries@, key@);
        }
        match self.find(key) {
            Some(i) => {
                let ghost s = self.entries@;
                proof {
                    lemma_map_of_remove(s, i as int);
                }
                let mut entries: Vec<(String, V)> = Vec::new();
                std::mem::swap(&mut entries, &mut self.entries);
                let (_, v) = entries.remove(i);
                self.entries = entries;
                Some(v)
            },
            None => {
                proof {
                    assert(map_of(self.entries@).remove(key@) =~= map_of(self.entries@));
                }
                None
            },
        }
    }
}

pub proof fn lemma_dom_len_of<V>(s: Seq<(String, V)>)
    requires
        keys_unique(s),
    ensures
        map_of(s).dom().finite(),
        map_of(s).dom().len() == s.len(),
    decreases s.len(),
{
    if s.len() > 0 {
        let t = s.drop_last();
        assert(keys_unique(t));
        lemma_dom_len_of(t);
        lemma_map_of_lookup(t, s.last().0@);
        if map_of(t).contains_key(s.last().0@) {
            let i = choose|i: int| 0 <= i < t.len() && t[i].0@ == s.last().0@;
            assert(s[i] == t[i]);
        }
    }
}

} // verus!
