//! A finite map from grid points to values, kept as a list of entries.

use vstd::prelude::*;
use crate::point::Point;

verus! {

/// The entries hold a point.
pub open spec fn has_key<T>(s: Seq<(Point, T)>, p: Point) -> bool {
    exists|i: int| 0 <= i < s.len() && s[i].0 == p
}

/// Each point occurs in at most one entry.
pub open spec fn keys_unique<T>(s: Seq<(Point, T)>) -> bool {
    forall|i: int, j: int| 0 <= i < s.len() && 0 <= j < s.len() && i != j ==> s[i].0 != s[j].0
}

/// The map that a list of entries stands for.
pub open spec fn entries_map<T>(s: Seq<(Point, T)>) -> Map<Point, T> {
    Map::new(
        |p: Point| has_key(s, p),
        |p: Point| s[choose|i: int| 0 <= i < s.len() && s[i].0 == p].1,
    )
}

/// With unique points, the map gives each entry's point the entry's value.
pub proof fn lemma_entries_map<T>(s: Seq<(Point, T)>, i: int)
    requires
        keys_unique(s),
        0 <= i < s.len(),
    ensures
        entries_map(s).contains_key(s[i].0),
        entries_map(s)[s[i].0] == s[i].1,
{
    assert(has_key(s, s[i].0));
    let j = choose|j: int| 0 <= j < s.len() && s[j].0 == s[i].0;
    assert(j == i);
}

/// A finite map from grid points to values. Each point has at most one entry; entries keep the
/// order in which their points were first inserted.
pub struct PointMap<T> {
    entries: Vec<(Point, T)>,
}

impl<T> PointMap<T> {
    /// The entries stored, in order.
    pub closed spec fn entries(self) -> Seq<(Point, T)> {
        self.entries@
    }

    #[verifier::type_invariant]
    closed spec fn inv(self) -> bool {
        keys_unique(self.entries@)
    }

    /// The map from points to values.
    pub open spec fn view(self) -> Map<Point, T> {
        entries_map(self.entries())
    }

    /// The map has finitely many points.
    pub proof fn lemma_finite(self)
        ensures
            self.view().dom().finite(),
    {
        let s = self.entries();
        let keys = s.map_values(|e: (Point, T)| e.0);
        vstd::seq_lib::seq_to_set_is_finite(keys);
        assert forall|p: Point| self.view().dom().contains(p) implies #[trigger] keys.to_set().contains(p) by {
            let i = choose|i: int| 0 <= i < s.len() && s[i].0 == p;
            assert(keys[i] == p);
        }
        vstd::set_lib::lemma_len_subset(self.view().dom(), keys.to_set());
    }

    /// An empty map.
    pub fn new() -> (m: Self)
        ensures
            m.view() == Map::<Point, T>::empty(),
            m.entries().len() == 0,
    {
        let m = PointMap { entries: Vec::new() };
        assert(m.view() =~= Map::<Point, T>::empty());
        m
    }

    /// The number of points in the map.
    pub fn len(&self) -> (n: usize)
        ensures
            n == self.entries().len(),
    {
        self.entries.len()
    }

    /// The position of the entry of a point, if it has one.
    fn find(&self, p: Point) -> (r: Option<usize>)
        ensures
            match r {
                Some(i) => i < self.entries@.len() && self.entries@[i as int].0 == p,
                None => forall|i: int| 0 <= i < self.entries@.len() ==> self.entries@[i].0 != p,
            },
    {
        let mut i: usize = 0;
        while i < self.entries.len()
            invariant
                i <= self.entries@.len(),
                forall|k: int| 0 <= k < i ==> self.entries@[k].0 != p,
            decreases self.entries@.len() - i,
        {
            if self.entries[i].0 == p {
                return Some(i);
            }
            i = i + 1;
        }
        None
    }

    /// The value stored at a point, if any.
    pub fn get(&self, p: Point) -> (r: Option<&T>)
        ensures
            match r {
                Some(v) => self.view().contains_key(p) && *v == self.view()[p],
                None => !self.view().contains_key(p),
            },
    {
        proof {
            use_type_invariant(self);
        }
        match self.find(p) {
            Some(i) => {
                proof {
                    lemma_entries_map(self.entries@, i as int);
                }
                Some(&self.entries[i].1)
            },
            None => None,
        }
    }

    /// The entry at position `i` of the list.
    pub fn entry(&self, i: usize) -> (r: &(Point, T))
        requires
            i < self.entries().len(),
        ensures
            *r == self.entries()[i as int],
            self.view().contains_key(r.0),
            self.view()[r.0] == r.1,
            keys_unique(self.entries()),
    {
        proof {
            use_type_invariant(self);
            lemma_entries_map(self.entries@, i as int);
        }
        &self.entries[i]
    }

    /// Store a value at a point, replacing any value already there.
    pub fn insert(&mut self, p: Point, v: T)
        ensures
            final(self).view() == old(self).view().insert(p, v),
    {
        proof {
            use_type_invariant(&*self);
        }
        let ghost old_s = self.entries@;
        let found = self.find(p);
        let mut entries = Vec::new();
        std::mem::swap(&mut entries, &mut self.entries);
        match found {
            Some(i) => {
                entries.set(i, (p, v));
            },
            None => {
                entries.push((p, v));
            },
        }
        let ghost s = entries@;
        assert(keys_unique(s));
        assert(entries_map(s) =~= entries_map(old_s).insert(p, v)) by {
            assert forall|q: Point| #[trigger] entries_map(s).contains_key(q) <==> entries_map(old_s).insert(p, v).contains_key(q) by {
                if q != p && has_key(old_s, q) {
                    let k = choose|k: int| 0 <= k < old_s.len() && old_s[k].0 == q;
                    assert(s[k].0 == q);
                }
                if q == p {
                    match found {
                        Some(i) => { assert(s[i as int].0 == p); },
                        None => { assert(s[s.len() - 1].0 == p); },
                    }
                }
                if has_key(s, q) && q != p {
                    let k = choose|k: int| 0 <= k < s.len() && s[k].0 == q;
                    assert(old_s[k].0 == q);
                }
            }
            assert forall|q: Point| #[trigger] entries_map(s).contains_key(q) implies entries_map(s)[q] == entries_map(old_s).insert(p, v)[q] by {
                let k = choose|k: int| 0 <= k < s.len() && s[k].0 == q;
                lemma_entries_map(s, k);
                if q != p {
                    assert(old_s[k].0 == q);
                    lemma_entries_map(old_s, k);
                }
            }
        }
        self.entries = entries;
    }

    /// Remove the value at a point, returning it.
    pub fn remove(&mut self, p: Point) -> (r: Option<T>)
        ensures
            final(self).view() == old(self).view().remove(p),
            match r {
                Some(v) => old(self).view().contains_key(p) && v == old(self).view()[p],
                None => !old(self).view().contains_key(p),
            },
    {
        proof {
            use_type_invariant(&*self);
        }
        let ghost old_s = self.entries@;
        match self.find(p) {
            Some(i) => {
                proof {
                    lemma_entries_map(old_s, i as int);
                }
                let mut entries = Vec::new();
                std::mem::swap(&mut entries, &mut self.entries);
                let (_, v) = entries.remove(i);
                let ghost s = entries@;
                assert(s =~= old_s.remove(i as int));
                assert(keys_unique(s));
                assert(entries_map(s) =~= entries_map(old_s).remove(p)) by {
                    assert forall|q: Point| #[trigger] entries_map(s).contains_key(q) <==> entries_map(old_s).remove(p).contains_key(q) by {
                        if q != p && has_key(old_s, q) {
                            let k = choose|k: int| 0 <= k < old_s.len() && old_s[k].0 == q;
                            if k < i {
                                assert(s[k].0 == q);
                            } else {
                                assert(s[k - 1].0 == q);
                            }
                        }
                    }
                    assert forall|q: Point| #[trigger] entries_map(s).contains_key(q) implies entries_map(s)[q] == entries_map(old_s).remove(p)[q] by {
                        let k = choose|k: int| 0 <= k < s.len() && s[k].0 == q;
                        lemma_entries_map(s, k);
                        if k < i {
                            lemma_entries_map(old_s, k);
                        } else {
                            lemma_entries_map(old_s, k + 1);
                        }
                    }
                }
                self.entries = entries;
                Some(v)
            },
            None => {
                assert(!has_key(old_s, p));
                assert(entries_map(old_s).remove(p) =~= entries_map(old_s));
                None
            },
        }
    }
}

} // verus!
