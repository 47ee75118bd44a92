//! A small association store keyed by wide integers, viewed as a `Map`.
//!
//! The rate gates keep per-conversation and per-user state in these; the
//! store keeps one entry per key and exposes the map of its contents.

use vstd::prelude::*;

verus! {

/// One value per key.
pub struct Slots<V> {
    entries: Vec<(i128, V)>,
}

spec fn map_of<V>(s: Seq<(i128, V)>) -> Map<i128, V>
    decreases s.len(),
{
    if s.len() == 0 {
        Map::empty()
    } else {
        map_of(s.drop_last()).insert(s.last().0, s.last().1)
    }
}

spec fn unique_keys<V>(s: Seq<(i128, V)>) -> bool {
    forall|i: int, j: int| 0 <= i < j < s.len() ==> s[i].0 != s[j].0
}

proof fn lemma_map_of_dom<V>(s: Seq<(i128, V)>)
    ensures
        forall|k: i128|
            map_of(s).dom().contains(k) == exists|i: int| 0 <= i < s.len() && s[i].0 == k,
    decreases s.len(),
{
    if s.len() > 0 {
        lemma_map_of_dom(s.drop_last());
        assert forall|k: i128|
            map_of(s).dom().contains(k) == exists|i: int| 0 <= i < s.len() && s[i].0 == k by {
            if k == s.last().0 {
                assert(map_of(s).dom().contains(k));
                assert(s[s.len() - 1].0 == k);
            } else {
                assert(map_of(s).dom().contains(k) == map_of(s.drop_last()).dom().contains(k));
                if exists|i: int| 0 <= i < s.len() - 1 && s.drop_last()[i].0 == k {
                    let i = choose|i: int| 0 <= i < s.len() - 1 && s.drop_last()[i].0 == k;
                    assert(s[i].0 == k);
                }
                if exists|i: int| 0 <= i < s.len() && s[i].0 == k {
                    let i = choose|i: int| 0 <= i < s.len() && s[i].0 == k;
                    assert(i < s.len() - 1);
                    assert(s.drop_last()[i].0 == k);
                }
            }
        }
    }
}

proof fn lemma_map_of_get<V>(s: Seq<(i128, V)>, i: int)
    requires
        unique_keys(s),
        0 <= i < s.len(),
    ensures
        map_of(s).dom().contains(s[i].0),
        map_of(s)[s[i].0] == s[i].1,
    decreases s.len(),
{
    if i < s.len() - 1 {
        assert(unique_keys(s.drop_last()));
        lemma_map_of_get(s.drop_last(), i);
        assert(s.drop_last()[i] == s[i]);
        assert(s[i].0 != s.last().0);
    }
}

proof fn lemma_map_of_remove<V>(s: Seq<(i128, V)>, i: int)
    requires
        unique_keys(s),
        0 <= i < s.len(),
    ensures
        unique_keys(s.remove(i)),
        map_of(s.remove(i)) =~= map_of(s).remove(s[i].0),
    decreases s.len(),
{
    let t = s.remove(i);
    assert forall|a: int, b: int| 0 <= a < b < t.len() implies t[a].0 != t[b].0 by {
        if b < i {
            assert(t[a] == s[a] && t[b] == s[b]);
        } else if a < i {
            assert(t[a] == s[a] && t[b] == s[b + 1]);
        } else {
            assert(t[a] == s[a + 1] && t[b] == s[b + 1]);
        }
    }
    if i == s.len() - 1 {
        assert(t =~= s.drop_last());
        lemma_map_of_dom(t);
        assert(forall|j: int| 0 <= j < t.len() ==> t[j].0 != s[i].0);
        assert(!map_of(t).dom().contains(s[i].0));
        assert(map_of(t) =~= map_of(t).insert(s[i].0, s[i].1).remove(s[i].0));
    } else {
        assert(unique_keys(s.drop_last()));
        assert(s.drop_last()[i] == s[i]);
        lemma_map_of_remove(s.drop_last(), i);
        assert(t.drop_last() =~= s.drop_last().remove(i));
        assert(t.last() == s.last());
        assert(s.last().0 != s[i].0);
    }
}

impl<V> Slots<V> {
    /// The contents, as a map from key to value.
    pub closed spec fn view(self) -> Map<i128, V> {
        map_of(self.entries@)
    }

    /// Internal consistency: one entry per key.
    pub closed spec fn wf(self) -> bool {
        unique_keys(self.entries@)
    }

    /// An empty store.
    pub fn new() -> (r: Self)
        ensures
            r.wf(),
            r.view() == Map::<i128, V>::empty(),
    {
        Slots { entries: Vec::new() }
    }

    fn find_index(&self, key: i128) -> (r: Option<usize>)
        ensures
            match r {
                Some(i) => i < self.entries@.len() && self.entries@[i as int].0 == key,
                None => forall|j: int| 0 <= j < self.entries@.len() ==> self.entries@[j].0 != key,
            },
    {
        let mut i: usize = 0;
        while i < self.entries.len()
            invariant
                i <= self.entries@.len(),
                forall|j: int| 0 <= j < i ==> self.entries@[j].0 != key,
            decreases self.entries@.len() - i,
        {
            if self.entries[i].0 == key {
                return Some(i);
            }
            i = i + 1;
        }
        None
    }

    /// Removes and returns the value under `key`, when one is stored.
    pub fn take(&mut self, key: i128) -> (r: Option<V>)
        requires
            old(self).wf(),
        ensures
            final(self).wf(),
            final(self).view() == old(self).view().remove(key),
            match r {
                Some(v) => old(self).view().dom().contains(key) && v == old(self).view()[key],
                None => !old(self).view().dom().contains(key),
            },
    {
        proof {
            lemma_map_of_dom(self.entries@);
        }
        match self.find_index(key) {
            Some(i) => {
                proof {
                    lemma_map_of_get(self.entries@, i as int);
                    lemma_map_of_remove(self.entries@, i as int);
                }
                let (_, v) = self.entries.remove(i);
                Some(v)
            },
            None => {
                proof {
                    assert(old(self).view().remove(key) =~= old(self).view());
                }
                None
            },
        }
    }

    /// Stores `value` under `key`, replacing what was there.
    pub fn set(&mut self, key: i128, value: V)
        requires
            old(self).wf(),
        ensures
            final(self).wf(),
            final(self).view() == old(self).view().insert(key, value),
    {
        let _taken = self.take(key);
        let ghost mid = self.entries@;
        self.entries.push((key, value));
        proof {
            assert(self.entries@.drop_last() =~= mid);
            lemma_map_of_dom(mid);
            assert(!map_of(mid).dom().contains(key));
            assert forall|j: int| 0 <= j < mid.len() implies mid[j].0 != key by {
                if mid[j].0 == key {
                    assert(exists|i: int| 0 <= i < mid.len() && mid[i].0 == key);
                }
            }
            assert(unique_keys(self.entries@));
            assert(old(self).view().remove(key).insert(key, value) =~= old(self).view().insert(
                key,
                value,
            ));
        }
    }

    /// Reads the value under `key`, when one is stored.
    pub fn get(&self, key: i128) -> (r: Option<&V>)
        requires
            self.wf(),
        ensures
            match r {
                Some(v) => self.view().dom().contains(key) && *v == self.view()[key],
                None => !self.view().dom().contains(key),
            },
    {
        proof {
            lemma_map_of_dom(self.entries@);
        }
        match self.find_index(key) {
            Some(i) => {
                proof {
                    lemma_map_of_get(self.entries@, i as int);
                }
                Some(&self.entries[i].1)
            },
            None => None,
        }
    }
}

} // verus!
