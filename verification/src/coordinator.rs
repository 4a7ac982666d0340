//! A map from builder state identifiers to builder states, tiered by view
//! number so that old views are cheap to prune.
use std::collections::BTreeMap;

use vstd::prelude::*;

use crate::block::BuilderStateId;
use crate::block::VidCommitment;
use vstd::std_specs::cmp::OrdSpec;
use vstd::std_specs::iter::IteratorSpec;

verus! {

/// `BTreeMap::last_key_value`: the entry with the greatest key, if any.
#[verifier::external_body]
fn last_entry<V>(m: &BTreeMap<u64, V>) -> (r: Option<(&u64, &V)>)
    ensures
        r is None <==> m@.dom().is_empty(),
        r matches Some((k, v)) ==> m@.contains_key(*k) && m@[*k] == *v && forall|x: u64|
            #[trigger] m@.contains_key(x) ==> x <= *k,
{
    m.last_key_value()
}

/// `BTreeMap::first_key_value`: the entry with the least key, if any.
#[verifier::external_body]
fn first_entry<V>(m: &BTreeMap<u64, V>) -> (r: Option<(&u64, &V)>)
    ensures
        r is None <==> m@.dom().is_empty(),
        r matches Some((k, v)) ==> m@.contains_key(*k) && m@[*k] == *v && forall|x: u64|
            #[trigger] m@.contains_key(x) ==> *k <= x,
{
    m.first_key_value()
}

/// `BTreeMap::split_off`: moves every entry whose key is at least `at`
/// into the returned map, leaving the others.
#[verifier::external_body]
fn split_off_at<V>(m: &mut BTreeMap<u64, V>, at: u64) -> (high: BTreeMap<u64, V>)
    ensures
        final(m)@ == old(m)@.restrict(old(m)@.dom().filter(|k: u64| k < at)),
        high@ == old(m)@.restrict(old(m)@.dom().filter(|k: u64| k >= at)),
{
    m.split_off(&at)
}

/// The entries of a bucket as a map from VID commitment to value.
pub open spec fn bucket_map<V>(b: Seq<(VidCommitment, V)>) -> Map<VidCommitment, V>
    decreases b.len(),
{
    if b.len() == 0 {
        Map::empty()
    } else {
        bucket_map(b.drop_last()).insert(b.last().0, b.last().1)
    }
}

/// No VID commitment occurs twice in a bucket.
pub open spec fn bucket_keys_distinct<V>(b: Seq<(VidCommitment, V)>) -> bool {
    forall|i: int, j: int| 0 <= i < j < b.len() ==> #[trigger] b[i].0 != #[trigger] b[j].0
}

/// In a bucket with distinct keys, the map holds exactly the bucket's pairs.
pub proof fn lemma_bucket_map_entries<V>(b: Seq<(VidCommitment, V)>)
    requires
        bucket_keys_distinct(b),
    ensures
        forall|c: VidCommitment| #[trigger]
            bucket_map(b).contains_key(c) <==> exists|i: int| 0 <= i < b.len() && b[i].0 == c,
        forall|i: int| 0 <= i < b.len() ==> #[trigger] bucket_map(b).contains_key(b[i].0)
            && bucket_map(b)[b[i].0] == b[i].1,
        bucket_map(b).dom().finite(),
        bucket_map(b).dom().len() == b.len(),
    decreases b.len(),
{
    if b.len() > 0 {
        let d = b.drop_last();
        assert(bucket_keys_distinct(d)) by {
            assert forall|i: int, j: int| 0 <= i < j < d.len() implies #[trigger] d[i].0
                != #[trigger] d[j].0 by {
                assert(d[i] == b[i] && d[j] == b[j]);
            }
        }
        lemma_bucket_map_entries(d);
        let l = b.last();
        assert(!bucket_map(d).contains_key(l.0)) by {
            if bucket_map(d).contains_key(l.0) {
                let i = choose|i: int| 0 <= i < d.len() && d[i].0 == l.0;
                assert(b[i].0 == b[b.len() - 1].0);
            }
        }
        assert forall|c: VidCommitment| #[trigger]
            bucket_map(b).contains_key(c) <==> exists|i: int| 0 <= i < b.len() && b[i].0 == c by {
            if bucket_map(b).contains_key(c) && c != l.0 {
                let i = choose|i: int| 0 <= i < d.len() && d[i].0 == c;
                assert(b[i].0 == c);
            }
            if exists|i: int| 0 <= i < b.len() && b[i].0 == c {
                let i = choose|i: int| 0 <= i < b.len() && b[i].0 == c;
                if i < d.len() {
                    assert(d[i].0 == c);
                }
            }
        }
        assert forall|i: int| 0 <= i < b.len() implies #[trigger] bucket_map(b).contains_key(
            b[i].0,
        ) && bucket_map(b)[b[i].0] == b[i].1 by {
            if i < d.len() {
                assert(d[i] == b[i]);
                assert(b[i].0 != l.0);
            }
        }
    }
}

/// Replacing the value at a position of a bucket with distinct keys updates the map there.
pub proof fn lemma_bucket_map_update<V>(b: Seq<(VidCommitment, V)>, i: int, v: V)
    requires
        bucket_keys_distinct(b),
        0 <= i < b.len(),
    ensures
        bucket_keys_distinct(b.update(i, (b[i].0, v))),
        bucket_map(b.update(i, (b[i].0, v))) == bucket_map(b).insert(b[i].0, v),
{
    let u = b.update(i, (b[i].0, v));
    assert(bucket_keys_distinct(u)) by {
        assert forall|x: int, y: int| 0 <= x < y < u.len() implies #[trigger] u[x].0
            != #[trigger] u[y].0 by {
            assert(u[x].0 == b[x].0 && u[y].0 == b[y].0);
        }
    }
    lemma_bucket_map_entries(b);
    lemma_bucket_map_entries(u);
    assert(bucket_map(u) =~= bucket_map(b).insert(b[i].0, v)) by {
        assert forall|c: VidCommitment| #[trigger] bucket_map(u).contains_key(c) <==> bucket_map(
            b,
        ).insert(b[i].0, v).contains_key(c) by {
            if exists|j: int| 0 <= j < u.len() && u[j].0 == c {
                let j = choose|j: int| 0 <= j < u.len() && u[j].0 == c;
                assert(b[j].0 == c);
            }
            if exists|j: int| 0 <= j < b.len() && b[j].0 == c {
                let j = choose|j: int| 0 <= j < b.len() && b[j].0 == c;
                assert(u[j].0 == c);
            }
        }
        assert forall|c: VidCommitment| #[trigger] bucket_map(u).contains_key(c) implies bucket_map(
            u,
        )[c] == bucket_map(b).insert(b[i].0, v)[c] by {
            let j = choose|j: int| 0 <= j < u.len() && u[j].0 == c;
            assert(bucket_map(u)[u[j].0] == u[j].1);
            if j != i {
                assert(bucket_map(b)[b[j].0] == b[j].1);
            }
        }
    }
}

/// The position in `b` of the pair with commitment `c`, if any.
fn find_in_bucket<V>(b: &Vec<(VidCommitment, V)>, c: &VidCommitment) -> (r: Option<usize>)
    ensures
        r matches Some(i) ==> i < b@.len() && b@[i as int].0 == *c,
        r is None ==> forall|j: int| 0 <= j < b@.len() ==> b@[j].0 != *c,
{
    let mut i: usize = 0;
    while i < b.len()
        invariant
            0 <= i <= b.len(),
            forall|j: int| 0 <= j < i ==> b@[j].0 != *c,
        decreases b.len() - i,
    {
        if b[i].0 == *c {
            return Some(i);
        }
        i = i + 1;
    }
    None
}

/// The keys of a sequence of map entries.
pub open spec fn keys_of<K, W>(s: Seq<(&K, &W)>) -> Seq<K> {
    s.map_values(|kv: (&K, &W)| *kv.0)
}

/// The values behind a sequence of references.
pub open spec fn derefs<V>(s: Seq<&V>) -> Seq<V> {
    s.map_values(|x: &V| *x)
}

/// The values of a bucket, in order.
pub open spec fn values_of<V>(b: Seq<(VidCommitment, V)>) -> Seq<V> {
    b.map_values(|p: (VidCommitment, V)| p.1)
}

/// The values of nested vectors of references.
pub open spec fn nested_values<V>(r: Seq<Vec<&V>>) -> Seq<Seq<V>> {
    r.map_values(|inner: Vec<&V>| derefs(inner@))
}

/// Bounds on the view numbers visited by [`BuilderStateMap::range`].
#[derive(Debug)]
pub enum ViewBound {
    Included(u64),
    Excluded(u64),
    Unbounded,
}

/// Whether `view` lies within the bounds `start` and `end`.
pub open spec fn within(view: u64, start: ViewBound, end: ViewBound) -> bool {
    &&& match start {
        ViewBound::Included(s) => s <= view,
        ViewBound::Excluded(s) => s < view,
        ViewBound::Unbounded => true,
    }
    &&& match end {
        ViewBound::Included(e) => view <= e,
        ViewBound::Excluded(e) => view < e,
        ViewBound::Unbounded => true,
    }
}

/// A map from [`BuilderStateId`] to builder states, implemented as a tiered map
/// with the first tier being [`BTreeMap`] keyed by view number of [`BuilderStateId`]
/// and the second a non-empty bucket keyed by VID commitment of [`BuilderStateId`].
///
/// Usage of [`BTreeMap`] means that the map has an convenient property of always being
/// sorted by view number, which makes common operations such as pruning old views more efficient.
///
/// Buckets are never empty, so there are no phantom entries in the first tier.
/// A bucket is a vector of (commitment, state) pairs in first-insertion
/// order, searched by comparing commitments byte by byte, so that what it
/// holds is stated and proved without relying on a hash of the commitment.
pub struct BuilderStateMap<V>(BTreeMap<u64, Vec<(VidCommitment, V)>>);

/// The sequences of `groups`, one after the other. (Opaque: `reveal` it to
/// use its definition.)
#[verifier::opaque]
pub open spec fn joined<V>(groups: Seq<Seq<V>>) -> Seq<V>
    decreases groups.len(),
{
    if groups.len() == 0 {
        Seq::empty()
    } else {
        joined(groups.drop_last()) + groups.last()
    }
}

/// Joining one more group appends it.
pub proof fn lemma_joined_take<V>(groups: Seq<Seq<V>>, g: int)
    requires
        0 <= g < groups.len(),
    ensures
        joined(groups.take(g + 1)) == joined(groups.take(g)) + groups[g],
        joined(groups.take(0)) == Seq::<V>::empty(),
{
    reveal(joined);
    assert(groups.take(g + 1).drop_last() =~= groups.take(g));
    assert(groups.take(0) =~= Seq::<Seq<V>>::empty());
}

/// `x` is a member of one of `groups`.
pub open spec fn in_some_group<V>(groups: Seq<Seq<V>>, x: V) -> bool {
    exists|a: int, t: int| 0 <= a < groups.len() && 0 <= t < groups[a].len() && #[trigger] groups[a][t] == x
}

/// The members of joined groups are the members of the groups.
pub proof fn lemma_joined_members<V>(groups: Seq<Seq<V>>)
    ensures
        forall|a: int, t: int|
            0 <= a < groups.len() && 0 <= t < groups[a].len() ==> joined(groups).contains(
                #[trigger] groups[a][t],
            ),
        forall|i: int|
            0 <= i < joined(groups).len() ==> in_some_group(groups, #[trigger] joined(groups)[i]),
    decreases groups.len(),
{
    reveal(joined);
    if groups.len() > 0 {
        let d = groups.drop_last();
        lemma_joined_members(d);
        let l = groups.last();
        let jd = joined(d);
        assert(joined(groups) == jd + l);
        assert forall|a: int, t: int|
            0 <= a < groups.len() && 0 <= t < groups[a].len() implies joined(groups).contains(
            #[trigger] groups[a][t],
        ) by {
            if a < d.len() {
                assert(d[a] == groups[a]);
                assert(jd.contains(d[a][t]));
                let q = choose|q: int| 0 <= q < jd.len() && jd[q] == d[a][t];
                assert(joined(groups)[q] == jd[q]);
            } else {
                assert(joined(groups)[jd.len() + t] == l[t]);
            }
        }
        assert forall|i: int| 0 <= i < joined(groups).len() implies in_some_group(
            groups,
            #[trigger] joined(groups)[i],
        ) by {
            assert(joined(groups).len() == jd.len() + l.len());
            if i < jd.len() {
                assert(joined(groups)[i] == jd[i]);
                assert(in_some_group(d, jd[i]));
                let (a, t) = choose|a: int, t: int|
                    0 <= a < d.len() && 0 <= t < d[a].len() && #[trigger] d[a][t] == jd[i];
                assert(groups[a] == d[a]);
                assert(groups[a][t] == joined(groups)[i]);
            } else {
                let t = i - jd.len();
                assert(joined(groups)[i] == l[t]);
                assert(groups[groups.len() - 1] == l);
                assert(groups[groups.len() - 1][t] == joined(groups)[i]);
            }
        }
    } else {
        assert(joined(groups) =~= Seq::<V>::empty());
    }
}

/// The references of `groups`, one group after the other.
fn join_groups<'a, V>(groups: &Vec<Vec<&'a V>>) -> (r: Vec<&'a V>)
    ensures
        derefs(r@) == joined(nested_values(groups@)),
{
    let ghost nv = nested_values(groups@);
    let mut r: Vec<&V> = Vec::new();
    let mut g: usize = 0;
    proof {
        assert(nv.take(0) =~= Seq::<Seq<V>>::empty());
        assert(joined(nv.take(0)) == Seq::<V>::empty()) by {
            reveal(joined);
        }
        assert(derefs(r@) =~= Seq::<V>::empty());
    }
    while g < groups.len()
        invariant
            0 <= g <= groups.len(),
            nv == nested_values(groups@),
            derefs(r@) == joined(nv.take(g as int)),
        decreases groups.len() - g,
    {
        let inner = &groups[g];
        let ghost before = derefs(r@);
        let mut j: usize = 0;
        proof {
            assert(derefs(inner@).take(0) =~= Seq::<V>::empty());
        }
        while j < inner.len()
            invariant
                0 <= j <= inner.len(),
                derefs(r@) == before + derefs(inner@).take(j as int),
            decreases inner.len() - j,
        {
            let ghost prev = derefs(r@);
            r.push(inner[j]);
            proof {
                let x = *inner@[j as int];
                assert(derefs(r@) =~= prev.push(x));
                assert(derefs(inner@).take(j + 1) =~= derefs(inner@).take(j as int).push(x));
                assert(prev.push(x) =~= before + derefs(inner@).take(j + 1));
            }
            j = j + 1;
        }
        proof {
            assert(derefs(inner@).take(inner@.len() as int) =~= derefs(inner@));
            assert(nv[g as int] == derefs(groups@[g as int]@));
            lemma_joined_take(nv, g as int);
        }
        g = g + 1;
    }
    proof {
        assert(nv.take(nv.len() as int) =~= nv);
    }
    r
}

impl<V> Default for BuilderStateMap<V> {
    fn default() -> (m: Self)
        ensures
            m.wf(),
            m.views() == Set::<u64>::empty(),
            forall|id: BuilderStateId| !m.has(id),
    {
        Self::new()
    }
}

impl<V> BuilderStateMap<V> {
    /// The buckets, by view number.
    pub closed spec fn buckets(&self) -> Map<u64, Seq<(VidCommitment, V)>> {
        self.0@.map_values(|b: Vec<(VidCommitment, V)>| b@)
    }

    /// Every bucket is non-empty and holds each VID commitment at most once.
    pub closed spec fn wf(&self) -> bool {
        forall|v: u64| #[trigger]
            self.0@.contains_key(v) ==> self.0@[v]@.len() > 0 && bucket_keys_distinct(self.0@[v]@)
    }

    /// The VID commitments under which states are stored for view `v`, in
    /// the order they were first inserted.
    pub closed spec fn commitments_at(&self, v: u64) -> Seq<VidCommitment> {
        if self.0@.contains_key(v) {
            self.0@[v]@.map_values(|p: (VidCommitment, V)| p.0)
        } else {
            Seq::empty()
        }
    }

    /// Whether a state is stored under `id`.
    pub open spec fn has(&self, id: BuilderStateId) -> bool {
        self.buckets().contains_key(id.parent_view) && bucket_map(
            self.buckets()[id.parent_view],
        ).contains_key(id.parent_commitment)
    }

    /// The state stored under `id`, where [`Self::has`] holds.
    pub open spec fn at(&self, id: BuilderStateId) -> V {
        bucket_map(self.buckets()[id.parent_view])[id.parent_commitment]
    }

    /// Some state stored for view `view` is `v`.
    pub open spec fn stored_at(&self, view: u64, v: V) -> bool {
        exists|c: VidCommitment|
            #![trigger self.has(BuilderStateId { parent_view: view, parent_commitment: c })]
            self.has(BuilderStateId { parent_view: view, parent_commitment: c }) && self.at(
                BuilderStateId { parent_view: view, parent_commitment: c },
            ) == v
    }

    /// `v` is one of the stored states.
    pub open spec fn stored(&self, v: V) -> bool {
        exists|id: BuilderStateId| #[trigger]
            self.states().contains_key(id) && self.states()[id] == v
    }

    /// The view numbers for which some state is stored.
    pub open spec fn views(&self) -> Set<u64> {
        self.buckets().dom()
    }

    /// The stored states, by identifier.
    pub open spec fn states(&self) -> Map<BuilderStateId, V> {
        Map::new(|id: BuilderStateId| self.has(id), |id: BuilderStateId| self.at(id))
    }

    /// The views of a map are exactly the views of the states it holds, so
    /// the highest and lowest views are those of stored states.
    pub proof fn law_views_are_state_views(&self)
        requires
            self.wf(),
        ensures
            forall|v: u64| #[trigger]
                self.views().contains(v) <==> exists|id: BuilderStateId| #[trigger]
                    self.states().contains_key(id) && id.parent_view == v,
    {
        assert forall|v: u64| #[trigger]
            self.views().contains(v) implies exists|id: BuilderStateId| #[trigger]
                self.states().contains_key(id) && id.parent_view == v by {
            let b = self.buckets()[v];
            lemma_bucket_map_entries(b);
            let id = BuilderStateId { parent_view: v, parent_commitment: b[0].0 };
            assert(self.has(id));
            assert(self.states().contains_key(id));
        }
    }

    /// A state inserted under `id` is the one got back under `id`, and its
    /// view is one of the map's views.
    pub proof fn law_insert_then_get(before: Self, after: Self, id: BuilderStateId, v: V)
        requires
            after.states() == before.states().insert(id, v),
            after.views() == before.views().insert(id.parent_view),
        ensures
            after.states().contains_key(id),
            after.states()[id] == v,
            after.views().contains(id.parent_view),
    {
    }

    /// Pruning at `cutoff_view` splits a map in two: every stored state is
    /// kept in exactly one part, under the same identifier, the part below
    /// the cutoff holding the lower views.
    pub proof fn law_prune_partitions(before: Self, kept: Self, low: Self, cutoff_view: u64)
        requires
            forall|id: BuilderStateId| #[trigger]
                kept.states().contains_key(id) <==> before.states().contains_key(id)
                    && id.parent_view >= cutoff_view,
            forall|id: BuilderStateId| #[trigger]
                low.states().contains_key(id) <==> before.states().contains_key(id)
                    && id.parent_view < cutoff_view,
            forall|id: BuilderStateId| #[trigger]
                kept.states().contains_key(id) ==> kept.states()[id] == before.states()[id],
            forall|id: BuilderStateId| #[trigger]
                low.states().contains_key(id) ==> low.states()[id] == before.states()[id],
        ensures
            kept.states().union_prefer_right(low.states()) == before.states(),
            kept.states().dom().disjoint(low.states().dom()),
    {
        assert(kept.states().union_prefer_right(low.states()) =~= before.states());
    }

    /// Create a new empty map
    pub fn new() -> (m: Self)
        ensures
            m.wf(),
            m.views() == Set::<u64>::empty(),
            forall|id: BuilderStateId| !m.has(id),
    {
        let m = BuilderStateMap(BTreeMap::new());
        proof {
            assert(m.buckets() =~= Map::<u64, Seq<(VidCommitment, V)>>::empty());
        }
        m
    }

    /// Returns whether this map is empty
    pub fn is_empty(&self) -> (r: bool)
        requires
            self.wf(),
        ensures
            r == (self.views() == Set::<u64>::empty()),
            r == (self.states() == Map::<BuilderStateId, V>::empty()),
    {
        proof {
            if !self.0@.dom().is_empty() {
                let v = self.0@.dom().choose();
                assert(self.views().contains(v));
                let b = self.buckets()[v];
                lemma_bucket_map_entries(b);
                let id = BuilderStateId { parent_view: v, parent_commitment: b[0].0 };
                assert(self.has(id));
                assert(self.states().contains_key(id));
            } else {
                assert(self.views() =~= Set::<u64>::empty());
                assert(self.states() =~= Map::<BuilderStateId, V>::empty());
            }
        }
        self.0.len() == 0
    }

    /// Get builder state by ID
    pub fn get(&self, key: &BuilderStateId) -> (r: Option<&V>)
        requires
            self.wf(),
        ensures
            r is Some <==> self.states().contains_key(*key),
            r matches Some(v) ==> *v == self.states()[*key],
    {
        match self.0.get(&key.parent_view) {
            None => None,
            Some(bucket) => {
                proof {
                    assert(self.0@.contains_key(key.parent_view));
                    assert(self.buckets()[key.parent_view] == bucket@);
                    lemma_bucket_map_entries(bucket@);
                }
                match find_in_bucket(bucket, &key.parent_commitment) {
                    Some(i) => {
                        proof {
                            assert(bucket_map(bucket@).contains_key(bucket@[i as int].0));
                            assert(self.has(*key));
                            assert(self.at(*key) == bucket@[i as int].1);
                        }
                        Some(&bucket[i].1)
                    },
                    None => None,
                }
            },
        }
    }

    /// Insert a new builder state
    pub fn insert(&mut self, key: BuilderStateId, value: V)
        requires
            old(self).wf(),
        ensures
            final(self).wf(),
            final(self).states() == old(self).states().insert(key, value),
            final(self).views() == old(self).views().insert(key.parent_view),
            final(self).commitments_at(key.parent_view) == (if old(self).states().contains_key(key) {
                old(self).commitments_at(key.parent_view)
            } else {
                old(self).commitments_at(key.parent_view).push(key.parent_commitment)
            }),
            forall|v: u64|
                v != key.parent_view ==> #[trigger] final(self).commitments_at(v) == old(
                    self,
                ).commitments_at(v),
    {
        let ghost old_buckets = self.buckets();
        let ghost v0 = value;
        let bucket = match self.0.remove(&key.parent_view) {
            None => {
                let mut b: Vec<(VidCommitment, V)> = Vec::new();
                b.push((key.parent_commitment, value));
                proof {
                    assert(b@.drop_last() =~= Seq::<(VidCommitment, V)>::empty());
                    assert(bucket_map(b@.drop_last()) == Map::<VidCommitment, V>::empty());
                    assert(bucket_map(b@) =~= Map::<VidCommitment, V>::empty().insert(
                        key.parent_commitment,
                        v0,
                    ));
                }
                b
            },
            Some(b) => {
                let mut b = b;
                let ghost b0 = b@;
                proof {
                    assert(old_buckets[key.parent_view] == b0);
                    lemma_bucket_map_entries(b0);
                }
                match find_in_bucket(&b, &key.parent_commitment) {
                    Some(i) => {
                        proof {
                            lemma_bucket_map_update(b0, i as int, v0);
                        }
                        b.set(i, (key.parent_commitment, value));
                    },
                    None => {
                        b.push((key.parent_commitment, value));
                        proof {
                            assert(b@.drop_last() =~= b0);
                            assert(bucket_keys_distinct(b@)) by {
                                assert forall|x: int, y: int| 0 <= x < y < b@.len() implies #[trigger] b@[x].0
                                    != #[trigger] b@[y].0 by {
                                    if y == b0.len() {
                                        assert(b@[x] == b0[x]);
                                    }
                                }
                            }
                        }
                    },
                }
                b
            },
        };
        self.0.insert(key.parent_view, bucket);
        proof {
            let nb = self.buckets();
            assert(nb =~= old_buckets.insert(key.parent_view, bucket@));
            assert(bucket_map(bucket@) == (if old_buckets.contains_key(key.parent_view) {
                bucket_map(old_buckets[key.parent_view])
            } else {
                Map::<VidCommitment, V>::empty()
            }).insert(key.parent_commitment, v0));
            assert(self.views() =~= old(self).views().insert(key.parent_view));
            assert(self.states() =~= old(self).states().insert(key, v0)) by {
                assert forall|id: BuilderStateId| #[trigger]
                    self.states().contains_key(id) <==> old(self).states().insert(
                        key,
                        v0,
                    ).contains_key(id) by {}
                assert forall|id: BuilderStateId| #[trigger]
                    self.states().contains_key(id) implies self.states()[id] == old(
                    self,
                ).states().insert(key, v0)[id] by {}
            }
        }
    }

    /// Returns highest view number for which we have a builder state
    pub fn highest_view(&self) -> (r: Option<u64>)
        ensures
            r is None <==> self.views() == Set::<u64>::empty(),
            r matches Some(v) ==> self.views().contains(v) && forall|x: u64|
                #[trigger] self.views().contains(x) ==> x <= v,
    {
        proof {
            assert(self.views() =~= self.0@.dom());
        }
        match last_entry(&self.0) {
            None => None,
            Some((k, _)) => Some(*k),
        }
    }

    /// Returns lowest view number for which we have a builder state
    pub fn lowest_view(&self) -> (r: Option<u64>)
        ensures
            r is None <==> self.views() == Set::<u64>::empty(),
            r matches Some(v) ==> self.views().contains(v) && forall|x: u64|
                #[trigger] self.views().contains(x) ==> v <= x,
    {
        proof {
            assert(self.views() =~= self.0@.dom());
        }
        match first_entry(&self.0) {
            None => None,
            Some((k, _)) => Some(*k),
        }
    }

    /// Get highest view builder state: the first one stored for the highest view.
    ///
    /// Returns `None` if the map is empty
    pub fn highest_view_builder(&self) -> (r: Option<&V>)
        requires
            self.wf(),
        ensures
            r is None <==> self.views() == Set::<u64>::empty(),
            r matches Some(v) ==> exists|id: BuilderStateId|
                #![trigger self.states()[id]]
                self.states().contains_key(id) && self.states()[id] == *v && forall|x: u64|
                    #[trigger] self.views().contains(x) ==> x <= id.parent_view,
            r matches Some(v) ==> exists|h: u64|
                #![trigger self.commitments_at(h)]
                self.views().contains(h) && (forall|x: u64|
                    #[trigger] self.views().contains(x) ==> x <= h) && self.commitments_at(h).len()
                    > 0 && *v == self.states()[BuilderStateId {
                    parent_view: h,
                    parent_commitment: self.commitments_at(h)[0],
                }],
    {
        proof {
            assert(self.views() =~= self.0@.dom());
        }
        match last_entry(&self.0) {
            None => None,
            Some((k, bucket)) => {
                proof {
                    lemma_bucket_map_entries(bucket@);
                    let id = BuilderStateId { parent_view: *k, parent_commitment: bucket@[0].0 };
                    assert(self.has(id));
                    assert(self.states()[id] == bucket@[0].1);
                    assert(self.commitments_at(*k)[0] == bucket@[0].0);
                }
                Some(&bucket[0].1)
            },
        }
    }

    /// Removes every view lower than to `cutoff_view` (exclusive) from self and returns all removed views.
    pub fn prune(&mut self, cutoff_view: u64) -> (low: Self)
        requires
            old(self).wf(),
        ensures
            final(self).wf(),
            low.wf(),
            final(self).views() == old(self).views().filter(|v: u64| v >= cutoff_view),
            low.views() == old(self).views().filter(|v: u64| v < cutoff_view),
            forall|id: BuilderStateId| #[trigger]
                final(self).states().contains_key(id) <==> old(self).states().contains_key(id)
                    && id.parent_view >= cutoff_view,
            forall|id: BuilderStateId| #[trigger]
                low.states().contains_key(id) <==> old(self).states().contains_key(id)
                    && id.parent_view < cutoff_view,
            forall|id: BuilderStateId| #[trigger]
                final(self).states().contains_key(id) ==> final(self).states()[id] == old(
                    self,
                ).states()[id],
            forall|id: BuilderStateId| #[trigger]
                low.states().contains_key(id) ==> low.states()[id] == old(self).states()[id],
            forall|v: u64|
                v >= cutoff_view ==> #[trigger] final(self).commitments_at(v) == old(
                    self,
                ).commitments_at(v),
            forall|v: u64|
                v < cutoff_view ==> #[trigger] low.commitments_at(v) == old(self).commitments_at(
                    v,
                ),
    {
        let mut rest = split_off_at(&mut self.0, cutoff_view);
        std::mem::swap(&mut rest, &mut self.0);
        let low = BuilderStateMap(rest);
        proof {
            assert(self.views() =~= old(self).views().filter(|v: u64| v >= cutoff_view));
            assert(low.views() =~= old(self).views().filter(|v: u64| v < cutoff_view));
        }
        low
    }

    /// Returns all [`BuilderState`]s for given view number, each once, in
    /// the order their commitments were first inserted.
    pub fn bucket(&self, view_number: &u64) -> (r: Vec<&V>)
        requires
            self.wf(),
        ensures
            forall|i: int| 0 <= i < r@.len() ==> self.stored_at(*view_number, *#[trigger] r@[i]),
            forall|c: VidCommitment| #[trigger]
                self.has(BuilderStateId { parent_view: *view_number, parent_commitment: c })
                    ==> r@.contains(
                    &self.at(BuilderStateId { parent_view: *view_number, parent_commitment: c }),
                ),
            r@.len() == 0 <==> !self.views().contains(*view_number),
            self.listed_with(*view_number, derefs(r@), self.commitments_at(*view_number)),
    {
        let mut r: Vec<&V> = Vec::new();
        match self.0.get(view_number) {
            None => {
                proof {
                    reveal(BuilderStateMap::listed_with);
                    self.law_commitments_list_states(*view_number);
                    assert(self.commitments_at(*view_number) =~= Seq::<VidCommitment>::empty());
                    assert(derefs(r@) =~= Seq::<V>::empty());
                }
            },
            Some(bucket) => {
                proof {
                    assert(self.0@.contains_key(*view_number));
                    assert(self.buckets()[*view_number] == bucket@);
                    lemma_bucket_map_entries(bucket@);
                }
                let mut i: usize = 0;
                while i < bucket.len()
                    invariant
                        0 <= i <= bucket.len(),
                        bucket@ == self.buckets()[*view_number],
                        bucket_keys_distinct(bucket@),
                        self.views().contains(*view_number),
                        r@.len() == i,
                        forall|j: int| 0 <= j < i ==> *r@[j] == bucket@[j].1,
                    decreases bucket.len() - i,
                {
                    r.push(&bucket[i].1);
                    i = i + 1;
                }
                proof {
                    lemma_bucket_map_entries(bucket@);
                    assert forall|i: int| 0 <= i < r@.len() implies self.stored_at(*view_number, *#[trigger] r@[i]) by {
                        let c = bucket@[i].0;
                        let id = BuilderStateId { parent_view: *view_number, parent_commitment: c };
                        assert(bucket_map(bucket@).contains_key(bucket@[i].0));
                        assert(self.has(id));
                        assert(self.at(id) == bucket@[i].1);
                        assert(*r@[i] == bucket@[i].1);
                        assert(self.has(id) && self.at(id) == *r@[i]);
                    }
                    assert forall|c: VidCommitment| #[trigger]
                        self.has(BuilderStateId { parent_view: *view_number, parent_commitment: c })
                            implies r@.contains(
                            &self.at(BuilderStateId { parent_view: *view_number, parent_commitment: c }),
                        ) by {
                        let j = choose|j: int| 0 <= j < bucket@.len() && bucket@[j].0 == c;
                        assert(r@[j] == &self.at(
                            BuilderStateId { parent_view: *view_number, parent_commitment: c },
                        ));
                    }
                    self.lemma_bucket_listing(*view_number);
                    assert(derefs(r@) =~= self.bucket_values(*view_number));
                }
            },
        }
        r
    }

    /// The values of the bucket for `view`, in bucket order.
    pub closed spec fn bucket_values(&self, view: u64) -> Seq<V> {
        values_of(self.buckets()[view])
    }

    /// `s` lists the states stored for view `v`, one per identifier, the
    /// i-th being the one stored under the VID commitment `cs[i]`. (Opaque:
    /// `reveal` it to use its definition.)
    #[verifier::opaque]
    pub open spec fn listed_with(&self, v: u64, s: Seq<V>, cs: Seq<VidCommitment>) -> bool {
        &&& cs.len() == s.len()
        &&& cs.no_duplicates()
        &&& forall|i: int|
            0 <= i < cs.len() ==> self.states().contains_key(
                BuilderStateId { parent_view: v, parent_commitment: #[trigger] cs[i] },
            ) && self.states()[BuilderStateId { parent_view: v, parent_commitment: cs[i] }]
                == s[i]
        &&& forall|id: BuilderStateId| #[trigger]
            self.states().contains_key(id) && id.parent_view == v ==> cs.contains(
                id.parent_commitment,
            )
    }

    /// A bucket lists the states stored for its view.
    proof fn lemma_bucket_listing(&self, v: u64)
        requires
            self.wf(),
            self.views().contains(v),
        ensures
            self.listed_with(v, self.bucket_values(v), self.commitments_at(v)),
    {
        let b = self.buckets()[v];
        assert(self.0@.contains_key(v));
        lemma_bucket_map_entries(b);
        reveal(BuilderStateMap::listed_with);
        let cs = b.map_values(|p: (VidCommitment, V)| p.0);
        let s = self.bucket_values(v);
        assert forall|i: int|
            0 <= i < cs.len() implies self.states().contains_key(
            BuilderStateId { parent_view: v, parent_commitment: #[trigger] cs[i] },
        ) && self.states()[BuilderStateId { parent_view: v, parent_commitment: cs[i] }]
            == s[i] by {
            let id = BuilderStateId { parent_view: v, parent_commitment: cs[i] };
            assert(bucket_map(b).contains_key(b[i].0));
            assert(self.has(id));
        }
        assert(cs.no_duplicates()) by {
            assert forall|i: int, j: int|
                0 <= i < cs.len() && 0 <= j < cs.len() && i != j implies cs[i] != cs[j] by {
                if i < j {
                    assert(b[i].0 != b[j].0);
                } else {
                    assert(b[j].0 != b[i].0);
                }
            }
        }
        assert forall|id: BuilderStateId| #[trigger]
            self.states().contains_key(id) && id.parent_view == v implies cs.contains(
            id.parent_commitment,
        ) by {
            assert(self.has(id));
            let i = choose|i: int| 0 <= i < b.len() && b[i].0 == id.parent_commitment;
            assert(cs[i] == id.parent_commitment);
        }
        assert(self.listed_with(v, s, cs));
        assert(cs == self.commitments_at(v));
    }

    /// The commitments of a view name exactly the states stored for it,
    /// each once.
    pub proof fn law_commitments_list_states(&self, v: u64)
        requires
            self.wf(),
        ensures
            self.commitments_at(v).no_duplicates(),
            forall|i: int|
                0 <= i < self.commitments_at(v).len() ==> self.states().contains_key(
                    BuilderStateId { parent_view: v, parent_commitment: #[trigger] self.commitments_at(v)[i] },
                ),
            forall|id: BuilderStateId| #[trigger]
                self.states().contains_key(id) && id.parent_view == v ==> self.commitments_at(
                    v,
                ).contains(id.parent_commitment),
    {
        reveal(BuilderStateMap::listed_with);
        if self.views().contains(v) {
            self.lemma_bucket_listing(v);
            assert(self.listed_with(v, self.bucket_values(v), self.commitments_at(v)));
        } else {
            assert(self.commitments_at(v) =~= Seq::<VidCommitment>::empty());
            assert forall|id: BuilderStateId| #[trigger]
                self.states().contains_key(id) && id.parent_view == v implies self.commitments_at(
                v,
            ).contains(id.parent_commitment) by {
                assert(self.has(id));
            }
        }
    }

    /// `r` lists, for the views `vs` (increasing, exactly the stored views
    /// within the bounds), the states of each view in bucket order.
    pub open spec fn is_range(
        &self,
        start: ViewBound,
        end: ViewBound,
        vs: Seq<u64>,
        r: Seq<Seq<V>>,
    ) -> bool {
        &&& vs.len() == r.len()
        &&& forall|a: int, b: int| 0 <= a < b < vs.len() ==> vs[a] < vs[b]
        &&& forall|a: int|
            0 <= a < vs.len() ==> within(vs[a], start, end) && self.views().contains(vs[a]) && r[a]
                == self.bucket_values(#[trigger] vs[a])
        &&& forall|v: u64| #[trigger]
            self.views().contains(v) && within(v, start, end) ==> vs.contains(v)
        &&& forall|a: int|
            0 <= a < vs.len() ==> self.listed_with(vs[a], #[trigger] r[a], self.commitments_at(vs[a]))
    }

    /// Returns, for each view number within the bounds in increasing order,
    /// the builder states stored for it.
    pub fn range(&self, start: ViewBound, end: ViewBound) -> (r: Vec<Vec<&V>>)
        requires
            self.wf(),
        ensures
            exists|vs: Seq<u64>|
                #[trigger] self.is_range(
                    start,
                    end,
                    vs,
                    nested_values(r@),
                ),
    {
        let mut r: Vec<Vec<&V>> = Vec::new();
        let ghost mut vs: Seq<u64> = Seq::empty();
        let ghost mut pos: Seq<int> = Seq::empty();
        let ghost m = self.0@;
        let ghost sq = vstd::std_specs::btree::spec_btree_map_iter(&self.0).remaining();
        let ghost mut idx: int = 0;
        for entry in it: self.0.iter()
            invariant
                sq == it.seq(),
                idx == it.index(),
                m == self.0@,
                self.wf(),
                sq.len() == m.dom().len(),
                forall|j: int|
                    0 <= j < sq.len() ==> m.contains_key(*#[trigger] sq[j].0)
                        && m[*sq[j].0] == *sq[j].1,
                forall|k: u64| #[trigger] m.contains_key(k) ==> sq.contains((&k, &m[k])),
                vstd::std_specs::btree::increasing_seq(
                    sq.map_values(|kv: (&u64, &Vec<(VidCommitment, V)>)| *kv.0),
                ),
                vs.len() == r@.len(),
                pos.len() == vs.len(),
                forall|a: int|
                    0 <= a < pos.len() ==> 0 <= #[trigger] pos[a] < idx && *sq[pos[a]].0
                        == vs[a],
                forall|a: int, b: int| 0 <= a < b < pos.len() ==> #[trigger] pos[a] < #[trigger] pos[b],
                forall|j: int|
                    0 <= j < idx && within(*#[trigger] sq[j].0, start, end) ==> exists|a: int|
                        0 <= a < pos.len() && pos[a] == j,
                forall|a: int| 0 <= a < vs.len() ==> within(#[trigger] vs[a], start, end),
                forall|a: int| 0 <= a < vs.len() ==> m.contains_key(#[trigger] vs[a]),
                forall|a: int|
                    0 <= a < vs.len() ==> derefs((#[trigger] r@[a])@) == values_of(m[vs[a]]@),
        {
            let (k, b) = entry;
            let ghost pos0 = pos;
            let ghost r0 = r@;
            let ghost vs0 = vs;
            proof {
                assert(entry == sq[idx]);
                assert(m.contains_key(*k) && m[*k] == *b);
            }
            let inside = match start {
                ViewBound::Included(s) => s <= *k,
                ViewBound::Excluded(s) => s < *k,
                ViewBound::Unbounded => true,
            } && match end {
                ViewBound::Included(e) => *k <= e,
                ViewBound::Excluded(e) => *k < e,
                ViewBound::Unbounded => true,
            };
            proof {
                assert(inside == within(*k, start, end));
            }
            if inside {
                let mut inner: Vec<&V> = Vec::new();
                let mut i: usize = 0;
                while i < b.len()
                    invariant
                        0 <= i <= b.len(),
                        inner@.len() == i,
                        forall|j: int| 0 <= j < i ==> *inner@[j] == b@[j].1,
                    decreases b.len() - i,
                {
                    inner.push(&b[i].1);
                    i = i + 1;
                }
                proof {
                    assert(derefs(inner@) =~= values_of(b@));
                    vs = vs.push(*k);
                    pos = pos.push(idx);
                }
                let ghost iv = derefs(inner@);
                r.push(inner);
                proof {
                    assert(derefs(r@[r@.len() - 1]@) == iv);
                }
            }
            proof {
                assert forall|j: int|
                    0 <= j < idx + 1 && within(*#[trigger] sq[j].0, start, end) implies exists|a: int|
                        0 <= a < pos.len() && pos[a] == j by {
                    if j < idx {
                        let a = choose|a: int| 0 <= a < pos0.len() && pos0[a] == j;
                        assert(pos[a] == j);
                    } else {
                        assert(pos[pos.len() - 1] == j);
                    }
                }
                assert forall|a: int|
                    0 <= a < vs.len() implies within(vs[a], start, end) && m.contains_key(vs[a])
                        && derefs((#[trigger] r@[a])@) == values_of(m[vs[a]]@) by {
                    if a < r0.len() {
                        assert(r@[a] == r0[a]);
                        assert(vs[a] == vs0[a]);
                    } else {
                        assert(inside);
                        assert(vs[a] == *k);
                        assert(derefs(r@[a]@) == values_of(b@));
                        assert(m[*k]@ == b@);
                    }
                }
                idx = idx + 1;
            }
        }
        proof {
            assert(idx == sq.len());
            let ks = sq.map_values(|kv: (&u64, &Vec<(VidCommitment, V)>)| *kv.0);
            assert(vstd::laws_cmp::obeys_cmp::<u64>());
            assert(vstd::std_specs::btree::increasing_seq(ks));
            assert forall|i: int, j: int| 0 <= i < j < sq.len() implies *#[trigger] sq[i].0
                < *#[trigger] sq[j].0 by {
                assert(ks[i] == *sq[i].0 && ks[j] == *sq[j].0);
                assert(ks[i].cmp_spec(&ks[j]) is Less);
            }
            let rv = nested_values(r@);
            assert(self.views() =~= m.dom());
            assert forall|a: int, b: int| 0 <= a < b < vs.len() implies vs[a] < vs[b] by {
                assert(pos[a] < pos[b]);
                assert(*sq[pos[a]].0 < *sq[pos[b]].0);
            }
            assert forall|a: int| 0 <= a < vs.len() implies within(vs[a], start, end)
                && self.views().contains(vs[a]) && rv[a] == self.bucket_values(
                #[trigger] vs[a],
            ) by {
                assert(rv[a] == derefs(r@[a]@));
            }
            assert forall|v: u64| #[trigger]
                self.views().contains(v) && within(v, start, end) implies vs.contains(v) by {
                assert(m.contains_key(v));
                assert(sq.contains((&v, &m[v])));
                let j = choose|j: int| 0 <= j < sq.len() && sq[j] == (&v, &m[v]);
                assert(*sq[j].0 == v);
                let a = choose|a: int| 0 <= a < pos.len() && pos[a] == j;
                assert(vs[a] == v);
            }
            assert forall|a: int| 0 <= a < vs.len() implies self.listed_with(
                vs[a],
                #[trigger] rv[a],
                self.commitments_at(vs[a]),
            ) by {
                assert(rv[a] == self.bucket_values(vs[a]));
                self.lemma_bucket_listing(vs[a]);
            }
            assert(self.is_range(start, end, vs, rv));
        }
        r
    }

    /// The identifiers of the states stored for the views in `w`.
    pub open spec fn ids_in(&self, w: Set<u64>) -> Set<BuilderStateId> {
        self.states().dom().filter(|id: BuilderStateId| w.contains(id.parent_view))
    }

    /// The states stored for one view are as many as its bucket holds.
    proof fn lemma_ids_at_view(&self, v: u64)
        requires
            self.wf(),
            self.views().contains(v),
        ensures
            self.ids_in(set![v]).finite(),
            self.ids_in(set![v]).len() == self.buckets()[v].len(),
    {
        let b = self.buckets()[v];
        assert(self.0@.contains_key(v));
        lemma_bucket_map_entries(b);
        let f = |c: VidCommitment| BuilderStateId { parent_view: v, parent_commitment: c };
        let x = bucket_map(b).dom();
        let y = self.ids_in(set![v]);
        assert(x.map(f) =~= y) by {
            assert forall|id: BuilderStateId| x.map(f).contains(id) implies y.contains(id) by {
                let c = choose|c: VidCommitment| x.contains(c) && f(c) == id;
                assert(self.has(id));
            }
            assert forall|id: BuilderStateId| y.contains(id) implies x.map(f).contains(id) by {
                assert(id.parent_view == v);
                assert(x.contains(id.parent_commitment));
                assert(f(id.parent_commitment) == id);
            }
        }
        assert(vstd::relations::injective_on(f, x));
        vstd::set_lib::lemma_map_size(x, y, f);
    }

    /// Adding a view to `w` adds exactly the states of that view.
    proof fn lemma_ids_in_insert(&self, w: Set<u64>, v: u64)
        requires
            !w.contains(v),
        ensures
            self.ids_in(w.insert(v)) == self.ids_in(w) + self.ids_in(set![v]),
            self.ids_in(w).disjoint(self.ids_in(set![v])),
    {
        assert(self.ids_in(w.insert(v)) =~= self.ids_in(w) + self.ids_in(set![v]));
    }

    /// Returns the number of builder states stored (at most `usize::MAX`).
    pub fn len(&self) -> (n: usize)
        requires
            self.wf(),
        ensures
            self.states().dom().finite(),
            n == (if self.states().dom().len() <= usize::MAX {
                self.states().dom().len()
            } else {
                usize::MAX as nat
            }),
    {
        let ghost sq = vstd::std_specs::btree::spec_btree_map_iter(&self.0).remaining();
        let ghost mut idx: int = 0;
        let ghost mut seen: Set<u64> = Set::empty();
        let ghost m = self.0@;
        let mut total: usize = 0;
        proof {
            assert(self.ids_in(seen) =~= Set::<BuilderStateId>::empty());
        }
        for entry in it: self.0.iter()
            invariant
                sq == it.seq(),
                idx == it.index(),
                m == self.0@,
                self.wf(),
                it.seq().len() == m.dom().len(),
                sq.no_duplicates(),
                forall|j: int|
                    0 <= j < sq.len() ==> m.contains_key(*#[trigger] sq[j].0) && m[*sq[j].0]
                        == *sq[j].1,
                forall|k: u64| #[trigger] m.contains_key(k) ==> sq.contains((&k, &m[k])),
                seen == keys_of(sq.take(idx)).to_set(),
                self.ids_in(seen).finite(),
                total == (if self.ids_in(seen).len() <= usize::MAX {
                    self.ids_in(seen).len()
                } else {
                    usize::MAX as nat
                }),
        {
            let (k, b) = entry;
            proof {
                assert(entry == sq[idx]);
                assert(self.views().contains(*k));
                assert(self.buckets()[*k].len() == b@.len());
                let ks = sq.map_values(|kv: (&u64, &Vec<(VidCommitment, V)>)| *kv.0);
                assert(!seen.contains(*k)) by {
                    if seen.contains(*k) {
                        let j = choose|j: int| 0 <= j < idx && #[trigger] keys_of(sq.take(idx))[j] == *k;
                        assert(*sq[j].0 == *k);
                        assert(sq[j] == (&*k, &m[*k]));
                        assert(sq[idx] == (&*k, &m[*k]));
                    }
                }
                self.lemma_ids_at_view(*k);
                self.lemma_ids_in_insert(seen, *k);
                assert(keys_of(sq.take(idx + 1)) =~= keys_of(sq.take(idx)).push(*k));
                keys_of(sq.take(idx)).lemma_push_to_set_commute(*k);
                vstd::set_lib::lemma_set_disjoint_lens(self.ids_in(seen), self.ids_in(set![*k]));
                seen = seen.insert(*k);
                idx = idx + 1;
            }
            total = total.saturating_add(b.len());
        }
        proof {
            assert(idx == sq.len());
            assert(sq.take(idx) =~= sq);
            assert(seen =~= m.dom()) by {
                assert forall|v: u64| m.contains_key(v) implies seen.contains(v) by {
                    assert(sq.contains((&v, &m[v])));
                    let j = choose|j: int| 0 <= j < sq.len() && sq[j] == (&v, &m[v]);
                    assert(keys_of(sq)[j] == v);
                }
            }
            assert(self.ids_in(seen) =~= self.states().dom());
        }
        total
    }

    /// Returns all stored builder states, each once: view by view in
    /// increasing order, and within a view in first-insertion order.
    #[verifier::spinoff_prover]
    #[verifier::rlimit(40)]
    pub fn values(&self) -> (r: Vec<&V>)
        requires
            self.wf(),
        ensures
            forall|i: int| 0 <= i < r@.len() ==> self.stored(*#[trigger] r@[i]),
            forall|id: BuilderStateId| #[trigger]
                self.states().contains_key(id) ==> derefs(r@).contains(self.states()[id]),
            exists|vs: Seq<u64>, groups: Seq<Seq<V>>|
                #![trigger self.is_range(ViewBound::Unbounded, ViewBound::Unbounded, vs, groups)]
                self.is_range(ViewBound::Unbounded, ViewBound::Unbounded, vs, groups) && derefs(r@)
                    == joined(groups),
    {
        let groups = self.range(ViewBound::Unbounded, ViewBound::Unbounded);
        let ghost vs = choose|vs: Seq<u64>|
            #[trigger] self.is_range(ViewBound::Unbounded, ViewBound::Unbounded, vs, nested_values(groups@));
        let ghost nv = nested_values(groups@);
        let r = join_groups(&groups);
        proof {
            assert(self.is_range(ViewBound::Unbounded, ViewBound::Unbounded, vs, nv));
            lemma_joined_members(nv);
            assert forall|i: int| 0 <= i < r@.len() implies self.stored(*#[trigger] r@[i]) by {
                assert(derefs(r@)[i] == *r@[i]);
                assert(in_some_group(nv, joined(nv)[i]));
                let (a, t) = choose|a: int, t: int|
                    0 <= a < nv.len() && 0 <= t < nv[a].len() && #[trigger] nv[a][t] == joined(nv)[i];
                let v = vs[a];
                assert(nv[a] == self.bucket_values(v));
                let b = self.buckets()[v];
                assert(self.0@.contains_key(v));
                lemma_bucket_map_entries(b);
                let id = BuilderStateId { parent_view: v, parent_commitment: b[t].0 };
                assert(self.has(id));
                assert(self.states()[id] == b[t].1);
                assert(nv[a][t] == b[t].1);
                assert(self.states().contains_key(id));
            }
            assert forall|id: BuilderStateId| #[trigger]
                self.states().contains_key(id) implies derefs(r@).contains(self.states()[id]) by {
                let v = id.parent_view;
                assert(self.views().contains(v));
                assert(within(v, ViewBound::Unbounded, ViewBound::Unbounded));
                let a = choose|a: int| 0 <= a < vs.len() && vs[a] == v;
                let b = self.buckets()[v];
                assert(self.0@.contains_key(v));
                lemma_bucket_map_entries(b);
                let t = choose|t: int| 0 <= t < b.len() && b[t].0 == id.parent_commitment;
                assert(nv[a] == self.bucket_values(vs[a]));
                assert(nv[a][t] == b[t].1);
                assert(self.states()[id] == b[t].1);
                assert(joined(nv).contains(nv[a][t]));
            }
        }
        r
    }
}

} // verus!
