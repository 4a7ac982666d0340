//! A small table keyed by builder state identifier.
use vstd::prelude::*;

use crate::block::BuilderStateId;

verus! {

/// The entries of `s` as a map, later entries overriding earlier ones.
pub open spec fn entries_map<V>(s: Seq<(BuilderStateId, V)>) -> Map<BuilderStateId, V>
    decreases s.len(),
{
    if s.len() == 0 {
        Map::empty()
    } else {
        entries_map(s.drop_last()).insert(s.last().0, s.last().1)
    }
}

/// No identifier occurs twice in `s`.
pub open spec fn ids_distinct<V>(s: Seq<(BuilderStateId, V)>) -> bool {
    forall|i: int, j: int| 0 <= i < j < s.len() ==> #[trigger] s[i].0 != #[trigger] s[j].0
}

/// With distinct identifiers, the map holds exactly the pairs of `s`.
pub proof fn lemma_entries_map<V>(s: Seq<(BuilderStateId, V)>)
    requires
        ids_distinct(s),
    ensures
        forall|id: BuilderStateId| #[trigger]
            entries_map(s).contains_key(id) <==> exists|i: int| 0 <= i < s.len() && s[i].0 == id,
        forall|i: int| 0 <= i < s.len() ==> #[trigger] entries_map(s).contains_key(s[i].0)
            && entries_map(s)[s[i].0] == s[i].1,
    decreases s.len(),
{
    if s.len() > 0 {
        let d = s.drop_last();
        assert(ids_distinct(d)) by {
            assert forall|i: int, j: int| 0 <= i < j < d.len() implies #[trigger] d[i].0
                != #[trigger] d[j].0 by {
                assert(d[i] == s[i] && d[j] == s[j]);
            }
        }
        lemma_entries_map(d);
        let l = s.last();
        assert(!entries_map(d).contains_key(l.0)) by {
            if entries_map(d).contains_key(l.0) {
                let i = choose|i: int| 0 <= i < d.len() && d[i].0 == l.0;
                assert(s[i].0 == s[s.len() - 1].0);
            }
        }
        assert forall|id: BuilderStateId| #[trigger]
            entries_map(s).contains_key(id) <==> exists|i: int| 0 <= i < s.len() && s[i].0 == id by {
            if entries_map(s).contains_key(id) && id != l.0 {
                let i = choose|i: int| 0 <= i < d.len() && d[i].0 == id;
                assert(s[i].0 == id);
            }
            if exists|i: int| 0 <= i < s.len() && s[i].0 == id {
                let i = choose|i: int| 0 <= i < s.len() && s[i].0 == id;
                if i < d.len() {
                    assert(d[i].0 == id);
                }
            }
        }
        assert forall|i: int| 0 <= i < s.len() implies #[trigger] entries_map(s).contains_key(
            s[i].0,
        ) && entries_map(s)[s[i].0] == s[i].1 by {
            if i < d.len() {
                assert(d[i] == s[i]);
                assert(s[i].0 != l.0);
            }
        }
    }
}

/// A table from builder state identifiers to values, each identifier at most once.
pub struct StateTable<V> {
    entries: Vec<(BuilderStateId, V)>,
}

impl<V> StateTable<V> {
    /// The table as a map.
    pub closed spec fn map(&self) -> Map<BuilderStateId, V> {
        entries_map(self.entries@)
    }

    /// No identifier occurs twice.
    pub closed spec fn wf(&self) -> bool {
        ids_distinct(self.entries@)
    }

    /// An empty table.
    pub fn new() -> (t: Self)
        ensures
            t.wf(),
            t.map() == Map::<BuilderStateId, V>::empty(),
    {
        StateTable { entries: Vec::new() }
    }

    /// The position of `key`, if present.
    fn find(&self, key: &BuilderStateId) -> (r: Option<usize>)
        ensures
            r matches Some(i) ==> i < self.entries@.len() && self.entries@[i as int].0 == *key,
            r is None ==> forall|j: int| 0 <= j < self.entries@.len() ==> self.entries@[j].0 != *key,
    {
        let mut i: usize = 0;
        while i < self.entries.len()
            invariant
                0 <= i <= self.entries@.len(),
                forall|j: int| 0 <= j < i ==> self.entries@[j].0 != *key,
            decreases self.entries@.len() - i,
        {
            if self.entries[i].0 == *key {
                return Some(i);
            }
            i = i + 1;
        }
        None
    }

    /// The value stored under `key`, if any.
    pub fn get(&self, key: &BuilderStateId) -> (r: Option<&V>)
        requires
            self.wf(),
        ensures
            r is Some <==> self.map().contains_key(*key),
            r matches Some(v) ==> *v == self.map()[*key],
    {
        proof {
            lemma_entries_map(self.entries@);
        }
        match self.find(key) {
            Some(i) => {
                proof {
                    assert(entries_map(self.entries@).contains_key(self.entries@[i as int].0));
                    assert(entries_map(self.entries@)[self.entries@[i as int].0] == self.entries@[i as int].1);
                }
                Some(&self.entries[i].1)
            },
            None => None,
        }
    }

    /// Store `value` under `key`, replacing any earlier value.
    pub fn insert(&mut self, key: BuilderStateId, value: V)
        requires
            old(self).wf(),
        ensures
            final(self).wf(),
            final(self).map() == old(self).map().insert(key, value),
    {
        let ghost s0 = self.entries@;
        let ghost v0 = value;
        proof {
            lemma_entries_map(s0);
        }
        match self.find(&key) {
            Some(i) => {
                self.entries.set(i, (key, value));
                proof {
                    let s1 = self.entries@;
                    assert(ids_distinct(s1)) by {
                        assert forall|x: int, y: int| 0 <= x < y < s1.len() implies #[trigger] s1[x].0
                            != #[trigger] s1[y].0 by {
                            assert(s1[x].0 == s0[x].0 && s1[y].0 == s0[y].0);
                        }
                    }
                    lemma_entries_map(s1);
                    assert(entries_map(s1) =~= entries_map(s0).insert(key, v0)) by {
                        assert forall|id: BuilderStateId| #[trigger]
                            entries_map(s1).contains_key(id) <==> entries_map(s0).insert(
                                key,
                                v0,
                            ).contains_key(id) by {
                            if exists|j: int| 0 <= j < s1.len() && s1[j].0 == id {
                                let j = choose|j: int| 0 <= j < s1.len() && s1[j].0 == id;
                                assert(s0[j].0 == id);
                            }
                            if exists|j: int| 0 <= j < s0.len() && s0[j].0 == id {
                                let j = choose|j: int| 0 <= j < s0.len() && s0[j].0 == id;
                                assert(s1[j].0 == id);
                            }
                        }
                        assert forall|id: BuilderStateId| #[trigger]
                            entries_map(s1).contains_key(id) implies entries_map(s1)[id]
                            == entries_map(s0).insert(key, v0)[id] by {
                            let j = choose|j: int| 0 <= j < s1.len() && s1[j].0 == id;
                            assert(entries_map(s1)[s1[j].0] == s1[j].1);
                            if j != i {
                                assert(entries_map(s0)[s0[j].0] == s0[j].1);
                            }
                        }
                    }
                }
            },
            None => {
                self.entries.push((key, value));
                proof {
                    let s1 = self.entries@;
                    assert(s1.drop_last() =~= s0);
                    assert(ids_distinct(s1)) by {
                        assert forall|x: int, y: int| 0 <= x < y < s1.len() implies #[trigger] s1[x].0
                            != #[trigger] s1[y].0 by {
                            if y == s0.len() {
                                assert(s1[x] == s0[x]);
                            }
                        }
                    }
                }
            },
        }
    }

    /// Whether some identifier with view `view` is stored.
    pub fn any_with_view(&self, view: u64) -> (r: bool)
        requires
            self.wf(),
        ensures
            r == exists|id: BuilderStateId| #[trigger]
                self.map().contains_key(id) && id.parent_view == view,
    {
        proof {
            lemma_entries_map(self.entries@);
        }
        let mut i: usize = 0;
        while i < self.entries.len()
            invariant
                0 <= i <= self.entries@.len(),
                ids_distinct(self.entries@),
                forall|j: int| 0 <= j < i ==> self.entries@[j].0.parent_view != view,
            decreases self.entries@.len() - i,
        {
            if self.entries[i].0.parent_view == view {
                proof {
                    lemma_entries_map(self.entries@);
                    assert(self.map().contains_key(self.entries@[i as int].0));
                }
                return true;
            }
            i = i + 1;
        }
        proof {
            assert forall|id: BuilderStateId| #[trigger]
                self.map().contains_key(id) implies id.parent_view != view by {
                let j = choose|j: int| 0 <= j < self.entries@.len() && self.entries@[j].0 == id;
            }
        }
        false
    }

    /// Keep only the entries whose view is at least `cutoff`.
    pub fn retain_from_view(&mut self, cutoff: u64)
        requires
            old(self).wf(),
        ensures
            final(self).wf(),
            final(self).map() == old(self).map().restrict(
                old(self).map().dom().filter(|id: BuilderStateId| id.parent_view >= cutoff),
            ),
    {
        let ghost s0 = self.entries@;
        proof {
            lemma_entries_map(s0);
        }
        let mut old_entries: Vec<(BuilderStateId, V)> = Vec::new();
        std::mem::swap(&mut old_entries, &mut self.entries);
        let mut rest = old_entries;
        let mut kept: Vec<(BuilderStateId, V)> = Vec::new();
        let ghost n = s0.len();
        while rest.len() > 0
            invariant
                rest@.len() <= n,
                n == s0.len(),
                ids_distinct(s0),
                rest@ == s0.subrange(0, rest@.len() as int),
                ids_distinct(kept@),
                forall|j: int| 0 <= j < kept@.len() ==> (#[trigger] kept@[j]).0.parent_view >= cutoff,
                forall|j: int|
                    0 <= j < kept@.len() ==> exists|m: int|
                        rest@.len() <= m < n && s0[m] == #[trigger] kept@[j],
                forall|m: int|
                    rest@.len() <= m < n && (#[trigger] s0[m]).0.parent_view >= cutoff
                        ==> kept@.contains(s0[m]),
            decreases rest.len(),
        {
            let ghost k0 = kept@;
            let ghost r0 = rest@;
            let e = rest.pop().unwrap();
            proof {
                assert(e == s0[r0.len() - 1]);
                assert(rest@ =~= s0.subrange(0, rest@.len() as int));
            }
            if e.0.parent_view >= cutoff {
                kept.push(e);
                proof {
                    let k1 = kept@;
                    let pos = r0.len() - 1;
                    assert(ids_distinct(k1)) by {
                        assert forall|x: int, y: int| 0 <= x < y < k1.len() implies #[trigger] k1[x].0
                            != #[trigger] k1[y].0 by {
                            if y == k0.len() {
                                assert(k1[x] == k0[x]);
                                let m = choose|m: int| pos < m < n && s0[m] == #[trigger] k0[x];
                                assert(s0[m].0 != s0[pos].0);
                            } else {
                                assert(k1[x] == k0[x] && k1[y] == k0[y]);
                            }
                        }
                    }
                    assert forall|j: int| 0 <= j < k1.len() implies exists|m: int|
                        rest@.len() <= m < n && s0[m] == #[trigger] k1[j] by {
                        if j < k0.len() {
                            assert(k1[j] == k0[j]);
                            let m = choose|m: int| pos < m < n && s0[m] == #[trigger] k0[j];
                            assert(s0[m] == k1[j]);
                        } else {
                            assert(s0[pos] == k1[j]);
                        }
                    }
                    assert forall|m: int|
                        rest@.len() <= m < n && (#[trigger] s0[m]).0.parent_view >= cutoff
                            implies k1.contains(s0[m]) by {
                        if m > pos {
                            assert(k0.contains(s0[m]));
                            let j = choose|j: int| 0 <= j < k0.len() && k0[j] == s0[m];
                            assert(k1[j] == s0[m]);
                        } else {
                            assert(k1[k1.len() - 1] == s0[m]);
                        }
                    }
                }
            }
        }
        self.entries = kept;
        proof {
            let k = self.entries@;
            lemma_entries_map(k);
            let target = entries_map(s0).restrict(
                entries_map(s0).dom().filter(|id: BuilderStateId| id.parent_view >= cutoff),
            );
            assert(entries_map(k) =~= target) by {
                assert forall|id: BuilderStateId| #[trigger]
                    entries_map(k).contains_key(id) <==> target.contains_key(id) by {
                    if entries_map(k).contains_key(id) {
                        let j = choose|j: int| 0 <= j < k.len() && k[j].0 == id;
                        let m = choose|m: int| 0 <= m < n && s0[m] == #[trigger] k[j];
                        assert(entries_map(s0).contains_key(s0[m].0));
                    }
                    if target.contains_key(id) {
                        let m = choose|m: int| 0 <= m < s0.len() && s0[m].0 == id;
                        assert(k.contains(s0[m]));
                        let j = choose|j: int| 0 <= j < k.len() && k[j] == s0[m];
                        assert(k[j].0 == id);
                    }
                }
                assert forall|id: BuilderStateId| #[trigger]
                    entries_map(k).contains_key(id) implies entries_map(k)[id] == target[id] by {
                    let j = choose|j: int| 0 <= j < k.len() && k[j].0 == id;
                    let m = choose|m: int| 0 <= m < n && s0[m] == #[trigger] k[j];
                    assert(entries_map(k)[k[j].0] == k[j].1);
                    assert(entries_map(s0)[s0[m].0] == s0[m].1);
                }
            }
        }
    }
}

} // verus!
