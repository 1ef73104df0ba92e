//! Sets of daemon-assigned notification IDs, each paired with the D-Bus owner
//! that assigned it.

use vstd::prelude::*;
use crate::text::str_eq;

verus! {

broadcast use vstd::seq_lib::group_seq_properties;

pub open spec fn id_view(e: (u32, String)) -> (u32, Seq<char>) {
    (e.0, e.1@)
}

pub open spec fn id_views(s: Seq<(u32, String)>) -> Seq<(u32, Seq<char>)> {
    s.map_values(|e: (u32, String)| id_view(e))
}

proof fn lemma_push_contains<A>(s: Seq<A>, a: A, x: A)
    ensures
        s.push(a).contains(x) <==> (s.contains(x) || x == a),
{
    if s.contains(x) {
        let j = choose|j: int| 0 <= j < s.len() && s[j] == x;
        assert(s.push(a)[j] == x);
    }
    if x == a {
        assert(s.push(a)[s.len() as int] == x);
    }
    if s.push(a).contains(x) {
        let j = choose|j: int| 0 <= j < s.len() + 1 && s.push(a)[j] == x;
        if j < s.len() {
            assert(s[j] == x);
        }
    }
}

/// A set of `(id, owner)` pairs.
pub struct RemoteIdSet {
    entries: Vec<(u32, String)>,
}

impl View for RemoteIdSet {
    type V = Set<(u32, Seq<char>)>;

    closed spec fn view(&self) -> Set<(u32, Seq<char>)> {
        id_views(self.entries@).to_set()
    }
}

impl RemoteIdSet {
    #[verifier::type_invariant]
    closed spec fn distinct(self) -> bool {
        id_views(self.entries@).no_duplicates()
    }

    pub fn new() -> (r: Self)
        ensures
            r@ == Set::<(u32, Seq<char>)>::empty(),
    {
        let r = RemoteIdSet { entries: Vec::new() };
        assert(r@ =~= Set::<(u32, Seq<char>)>::empty());
        r
    }

    fn find(&self, id: u32, owner: &str) -> (r: Option<usize>)
        ensures
            r matches Some(i) ==> i < self.entries@.len() && id_view(self.entries@[i as int]) == (id, owner@),
            r is None ==> !self@.contains((id, owner@)),
    {
        let mut i: usize = 0;
        while i < self.entries.len()
            invariant
                i <= self.entries@.len(),
                forall|j: int| 0 <= j < i ==> id_view(self.entries@[j]) != (id, owner@),
            decreases self.entries@.len() - i,
        {
            if self.entries[i].0 == id && str_eq(self.entries[i].1.as_str(), owner) {
                return Some(i);
            }
            i += 1;
        }
        proof {
            if self@.contains((id, owner@)) {
                let j = choose|j: int| 0 <= j < self.entries@.len() && id_views(self.entries@)[j] == (id, owner@);
                assert(id_view(self.entries@[j]) == (id, owner@));
            }
        }
        None
    }

    pub fn contains(&self, id: u32, owner: &str) -> (r: bool)
        ensures
            r == self@.contains((id, owner@)),
    {
        match self.find(id, owner) {
            Some(i) => {
                proof {
                    assert(id_views(self.entries@)[i as int] == (id, owner@));
                }
                true
            },
            None => false,
        }
    }

    pub fn insert(&mut self, id: u32, owner: String)
        ensures
            final(self)@ == old(self)@.insert((id, owner@)),
    {
        proof {
            use_type_invariant(&*self);
        }
        if self.find(id, owner.as_str()).is_some() {
            proof {
                assert(self@.insert((id, owner@)) =~= self@) by {
                    let i = choose|i: int| 0 <= i < self.entries@.len() && id_view(self.entries@[i]) == (id, owner@);
                    assert(id_views(self.entries@)[i] == (id, owner@));
                }
            }
            return;
        }
        let ghost before = self.entries@;
        let mut entries: Vec<(u32, String)> = Vec::new();
        std::mem::swap(&mut entries, &mut self.entries);
        entries.push((id, owner));
        proof {
            assert(id_views(entries@) =~= id_views(before).push((id, owner@)));
            assert(!id_views(before).contains((id, owner@)));
            assert(id_views(entries@).to_set() =~= id_views(before).to_set().insert((id, owner@)));
        }
        self.entries = entries;
    }

    pub fn len(&self) -> (r: usize)
        ensures
            r as nat == self@.len(),
            self@.finite(),
    {
        proof {
            use_type_invariant(self);
            id_views(self.entries@).unique_seq_to_set();
        }
        self.entries.len()
    }

    pub fn is_empty(&self) -> (r: bool)
        ensures
            r == (self@ == Set::<(u32, Seq<char>)>::empty()),
    {
        if self.entries.len() == 0 {
            assert(self@ =~= Set::<(u32, Seq<char>)>::empty());
            true
        } else {
            assert(self@.contains(id_views(self.entries@)[0]));
            false
        }
    }

    /// The pairs, each once.
    pub fn to_vec(&self) -> (r: Vec<(u32, String)>)
        ensures
            id_views(r@).to_set() == self@,
            id_views(r@).no_duplicates(),
    {
        proof {
            use_type_invariant(self);
        }
        let mut r: Vec<(u32, String)> = Vec::new();
        let mut i: usize = 0;
        while i < self.entries.len()
            invariant
                i <= self.entries@.len(),
                r@.len() == i,
                id_views(r@) == id_views(self.entries@).take(i as int),
            decreases self.entries@.len() - i,
        {
            let e = &self.entries[i];
            let ghost old_r = r@;
            r.push((e.0, crate::text::copy_string(&e.1)));
            proof {
                assert(r@.len() == i + 1);
                assert(r@[i as int] == (e.0, e.1));
                assert(id_view(r@[i as int]) == id_view(self.entries@[i as int]));
                assert(id_views(r@) =~= id_views(old_r).push(id_view(self.entries@[i as int])));
                assert(id_views(self.entries@).take(i + 1) =~= id_views(self.entries@).take(i as int).push(
                    id_views(self.entries@)[i as int],
                ));
            }
            i += 1;
        }
        proof {
            assert(id_views(self.entries@).take(i as int) =~= id_views(self.entries@));
        }
        r
    }

    /// Keeps the pairs that `keep` also holds.
    pub fn retain_in(&mut self, keep: &RemoteIdSet)
        ensures
            final(self)@ == old(self)@.intersect(keep@),
    {
        proof {
            use_type_invariant(&*self);
        }
        let ghost before = id_views(self.entries@);
        let mut kept: Vec<(u32, String)> = Vec::new();
        let mut i: usize = 0;
        while i < self.entries.len()
            invariant
                i <= self.entries@.len(),
                before == id_views(self.entries@),
                before.no_duplicates(),
                before.len() == self.entries@.len(),
                id_views(kept@).no_duplicates(),
                forall|x: (u32, Seq<char>)| #[trigger] id_views(kept@).contains(x) <==> (before.take(i as int).contains(x)
                    && keep@.contains(x)),
            decreases self.entries@.len() - i,
        {
            let e = &self.entries[i];
            assert(before[i as int] == (e.0, e.1@));
            let ghost old_kept = id_views(kept@);
            if keep.contains(e.0, e.1.as_str()) {
                kept.push((e.0, crate::text::copy_string(&e.1)));
                proof {
                    assert(id_views(kept@) =~= old_kept.push(before[i as int]));
                    assert(before.take(i + 1) =~= before.take(i as int).push(before[i as int]));
                    assert(!before.take(i as int).contains(before[i as int])) by {
                        if before.take(i as int).contains(before[i as int]) {
                            let j = choose|j: int| 0 <= j < i && before.take(i as int)[j] == before[i as int];
                            assert(before[j] == before[i as int]);
                        }
                    }
                    assert(!old_kept.contains(before[i as int]));
                    assert forall|x: (u32, Seq<char>)| id_views(kept@).contains(x) <==> (before.take(i + 1).contains(x)
                        && keep@.contains(x)) by {
                        assert(old_kept.contains(x) <==> (before.take(i as int).contains(x) && keep@.contains(x)));
                        lemma_push_contains(old_kept, before[i as int], x);
                        lemma_push_contains(before.take(i as int), before[i as int], x);
                    }
                    assert(id_views(kept@).no_duplicates()) by {
                        assert forall|a: int, b: int| 0 <= a < id_views(kept@).len() && 0 <= b < id_views(kept@).len() && a != b
                            implies id_views(kept@)[a] != id_views(kept@)[b] by {
                            if a < old_kept.len() && b < old_kept.len() {
                                assert(id_views(kept@)[a] == old_kept[a]);
                                assert(id_views(kept@)[b] == old_kept[b]);
                            } else if a < old_kept.len() {
                                assert(id_views(kept@)[a] == old_kept[a]);
                            } else {
                                assert(id_views(kept@)[b] == old_kept[b]);
                            }
                        }
                    }
                }
            } else {
                proof {
                    assert(before.take(i + 1) =~= before.take(i as int).push(before[i as int]));
                    assert forall|x: (u32, Seq<char>)| id_views(kept@).contains(x) <==> (before.take(i + 1).contains(x)
                        && keep@.contains(x)) by {
                        assert(old_kept.contains(x) <==> (before.take(i as int).contains(x) && keep@.contains(x)));
                        lemma_push_contains(before.take(i as int), before[i as int], x);
                    }
                }
            }
            i += 1;
        }
        proof {
            assert(before.take(i as int) =~= before);
            assert(id_views(kept@).to_set() =~= before.to_set().intersect(keep@)) by {
                assert forall|x: (u32, Seq<char>)| id_views(kept@).to_set().contains(x) <==> before.to_set().intersect(keep@).contains(x) by {
                    assert(id_views(kept@).contains(x) <==> (before.take(i as int).contains(x) && keep@.contains(x)));
                }
            }
        }
        self.entries = kept;
    }
}

} // verus!
