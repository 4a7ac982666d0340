//! Time-rotated sets and counters used for deduplicating recently seen items.
use std::collections::HashSet;
use std::hash::Hash;
use std::time::Duration;
use std::time::Instant;

use vstd::prelude::*;
use vstd::std_specs::hash::builds_valid_hashers;
use vstd::std_specs::hash::obeys_key_model;

use crate::clock::instant_now;
use crate::clock::period_has_elapsed;

verus! {

/// Keys of type `K` behave as the hash-set model of vstd expects
/// (deterministic hashing, `==` is identity, `clone` copies).
pub open spec fn obeys_hash_model<K>() -> bool {
    obeys_key_model::<K>() && builds_valid_hashers::<std::hash::RandomState>()
}

/// `std::collections::HashSet::clone`: the copy holds the same keys.
#[verifier::external_body]
pub(crate) fn clone_hash_set<T: Clone>(s: &HashSet<T>) -> (r: HashSet<T>)
    ensures
        obeys_hash_model::<T>() ==> r@ == s@,
{
    s.clone()
}

/// A set that allows for time-based garbage collection,
/// implemented as three sets that are periodically shifted right.
/// Garbage collection is triggered by calling [`Self::rotate`].
#[derive(Debug)]
pub struct RotatingSet<T> where T: PartialEq + Eq + Hash + Clone {
    fresh: HashSet<T>,
    stale: HashSet<T>,
    expiring: HashSet<T>,
    last_rotation: Instant,
    period: Duration,
}

impl<T> RotatingSet<T> where T: PartialEq + Eq + Hash + Clone {
    /// The generation of keys inserted since the last rotation.
    pub closed spec fn fresh_keys(&self) -> Set<T> {
        self.fresh@
    }

    /// The keys that were fresh before the last rotation.
    pub closed spec fn stale_keys(&self) -> Set<T> {
        self.stale@
    }

    /// The keys that were fresh two rotations ago; the next rotation drops them.
    pub closed spec fn expiring_keys(&self) -> Set<T> {
        self.expiring@
    }

    /// The garbage-collection period this set was made with.
    pub closed spec fn spec_period(&self) -> Duration {
        self.period
    }

    /// The clock reading at the last rotation (or at creation).
    pub closed spec fn spec_last_rotation(&self) -> Instant {
        self.last_rotation
    }

    /// All keys the set currently holds.
    pub open spec fn keys(&self) -> Set<T> {
        self.fresh_keys().union(self.stale_keys()).union(self.expiring_keys())
    }

    /// The three generations after one rotation of `self`.
    pub open spec fn rotated_from(&self, before: &Self) -> bool {
        &&& self.fresh_keys() == Set::<T>::empty()
        &&& self.stale_keys() == before.fresh_keys()
        &&& self.expiring_keys() == before.stale_keys()
        &&& self.spec_period() == before.spec_period()
    }

    /// Construct a new `RotatingSet`
    pub fn new(period: Duration) -> (s: Self)
        ensures
            s.fresh_keys() == Set::<T>::empty(),
            s.stale_keys() == Set::<T>::empty(),
            s.expiring_keys() == Set::<T>::empty(),
            s.spec_period() == period,
    {
        RotatingSet {
            fresh: HashSet::new(),
            stale: HashSet::new(),
            expiring: HashSet::new(),
            last_rotation: instant_now(),
            period,
        }
    }

    /// Returns `true` if the key is contained in the set
    pub fn contains(&self, key: &T) -> (r: bool)
        ensures
            obeys_hash_model::<T>() ==> r == self.keys().contains(*key),
    {
        self.fresh.contains(key) || self.stale.contains(key) || self.expiring.contains(key)
    }

    /// Insert a `key` into the set. Doesn't trigger garbage collection
    pub fn insert(&mut self, value: T)
        ensures
            obeys_hash_model::<T>() ==> final(self).fresh_keys() == old(self).fresh_keys().insert(
                value,
            ),
            final(self).stale_keys() == old(self).stale_keys(),
            final(self).expiring_keys() == old(self).expiring_keys(),
            final(self).spec_period() == old(self).spec_period(),
            final(self).spec_last_rotation() == old(self).spec_last_rotation(),
    {
        self.fresh.insert(value);
    }

    /// Insert every item of `items` into the fresh generation.
    pub fn extend(&mut self, items: Vec<T>)
        ensures
            obeys_hash_model::<T>() ==> final(self).fresh_keys() == old(self).fresh_keys().union(
                items@.to_set(),
            ),
            final(self).stale_keys() == old(self).stale_keys(),
            final(self).expiring_keys() == old(self).expiring_keys(),
            final(self).spec_period() == old(self).spec_period(),
            final(self).spec_last_rotation() == old(self).spec_last_rotation(),
    {
        let mut rest = items;
        let ghost target = self.fresh@.union(items@.to_set());
        while rest.len() > 0
            invariant
                obeys_hash_model::<T>() ==> self.fresh@.union(rest@.to_set()) == target,
                self.stale@ == old(self).stale@,
                self.expiring@ == old(self).expiring@,
                self.period == old(self).period,
                self.last_rotation == old(self).last_rotation,
            decreases rest.len(),
        {
            let ghost before = rest@;
            let item = rest.pop().unwrap();
            proof {
                assert(before =~= rest@.push(item));
                assert(before.to_set() =~= rest@.to_set().insert(item)) by {
                    assert forall|x: T| before.to_set().contains(x) <==> rest@.to_set().insert(
                        item,
                    ).contains(x) by {
                        if before.contains(x) {
                            let i = choose|i: int| 0 <= i < before.len() && before[i] == x;
                            if i < rest@.len() {
                                assert(rest@[i] == x);
                            }
                        }
                        if rest@.contains(x) {
                            let i = choose|i: int| 0 <= i < rest@.len() && rest@[i] == x;
                            assert(before[i] == x);
                        }
                        assert(before[before.len() - 1] == item);
                    }
                }
            }
            self.fresh.insert(item);
            proof {
                if obeys_hash_model::<T>() {
                    assert(self.fresh@.union(rest@.to_set()) =~= target);
                }
            }
        }
        proof {
            if obeys_hash_model::<T>() {
                assert(rest@.to_set() =~= Set::<T>::empty());
                assert(self.fresh@ =~= self.fresh@.union(rest@.to_set()));
            }
        }
    }

    /// Force garbage collection at the clock reading `now`: the fresh keys
    /// become stale, the stale ones expiring, the expiring ones are dropped,
    /// and `now` becomes the time of the last rotation.
    pub fn force_rotate_at(&mut self, now: Instant)
        ensures
            final(self).rotated_from(old(self)),
            final(self).spec_last_rotation() == now,
    {
        let mut now_stale = HashSet::new();
        std::mem::swap(&mut now_stale, &mut self.fresh);
        let mut now_expiring = now_stale;
        std::mem::swap(&mut now_expiring, &mut self.stale);
        self.expiring = now_expiring;
        self.last_rotation = now;
    }

    /// Force garbage collection, even if the time elapsed since
    ///  the last garbage collection is less than `self.period`; the time of
    /// the last rotation becomes the clock's current reading.
    pub fn force_rotate(&mut self)
        ensures
            final(self).rotated_from(old(self)),
    {
        let now = instant_now();
        self.force_rotate_at(now);
    }

    /// Rotate when `period_elapsed` says that the garbage-collection period
    /// has passed since the last rotation; otherwise leave the set as it is.
    /// Returns whether a rotation happened.
    pub fn rotate_when(&mut self, period_elapsed: bool) -> (rotated: bool)
        ensures
            rotated == period_elapsed,
            rotated ==> final(self).rotated_from(old(self)),
            !rotated ==> *final(self) == *old(self),
    {
        if period_elapsed {
            self.force_rotate();
            true
        } else {
            false
        }
    }

    /// Trigger garbage collection.
    ///
    /// Whether the period has passed is read from the clock; the result says
    /// which of the two outcomes happened.
    pub fn rotate(&mut self) -> (rotated: bool)
        ensures
            rotated ==> final(self).rotated_from(old(self)),
            !rotated ==> *final(self) == *old(self),
    {
        let elapsed = period_has_elapsed(&self.last_rotation, self.period);
        self.rotate_when(elapsed)
    }

    /// The time of the last rotation.
    pub fn last_rotation(&self) -> (r: &Instant)
        ensures
            *r == self.spec_last_rotation(),
    {
        &self.last_rotation
    }

    /// The garbage-collection period.
    pub fn period(&self) -> (p: Duration)
        ensures
            p == self.spec_period(),
    {
        self.period
    }

    /// A copy of the set: the same three generations and period.
    pub fn duplicate(&self) -> (r: Self)
        ensures
            obeys_hash_model::<T>() ==> r.fresh_keys() == self.fresh_keys(),
            obeys_hash_model::<T>() ==> r.stale_keys() == self.stale_keys(),
            obeys_hash_model::<T>() ==> r.expiring_keys() == self.expiring_keys(),
            r.spec_period() == self.spec_period(),
            r.spec_last_rotation() == self.spec_last_rotation(),
    {
        RotatingSet {
            fresh: clone_hash_set(&self.fresh),
            stale: clone_hash_set(&self.stale),
            expiring: clone_hash_set(&self.expiring),
            last_rotation: self.last_rotation,
            period: self.period,
        }
    }
}

} // verus!

verus! {

/// A value kept in four generations that shift by one on every cycle.
#[derive(Debug)]
pub struct RotatingData<T> {
    pub current: T,
    pub fresh: T,
    pub stale: T,
    pub expiring: T,
}

impl<T: Copy> Clone for RotatingData<T> {
    fn clone(&self) -> (r: Self)
        ensures
            r == *self,
    {
        *self
    }
}

impl<T: Copy> Copy for RotatingData<T> {

}

impl<T: Default> Default for RotatingData<T> {
    fn default() -> (r: Self)
        ensures
            call_ensures(T::default, (), r.current),
            call_ensures(T::default, (), r.fresh),
            call_ensures(T::default, (), r.stale),
            call_ensures(T::default, (), r.expiring),
    {
        RotatingData {
            current: T::default(),
            fresh: T::default(),
            stale: T::default(),
            expiring: T::default(),
        }
    }
}

impl<T> RotatingData<T> where T: PartialEq + Eq + Hash + Clone + Default {
    /// All four generations hold `T`'s default value.
    pub fn new() -> (r: Self)
        ensures
            call_ensures(T::default, (), r.current),
            call_ensures(T::default, (), r.fresh),
            call_ensures(T::default, (), r.stale),
            call_ensures(T::default, (), r.expiring),
    {
        RotatingData {
            current: T::default(),
            fresh: T::default(),
            stale: T::default(),
            expiring: T::default(),
        }
    }

    /// Shift every generation by one, starting a new default `current`
    /// and dropping the expiring one.
    pub fn cycle_clone(&self) -> (r: Self)
        ensures
            call_ensures(T::default, (), r.current),
            cloned::<T>(self.current, r.fresh),
            cloned::<T>(self.fresh, r.stale),
            cloned::<T>(self.stale, r.expiring),
    {
        RotatingData {
            current: T::default(),
            fresh: self.current.clone(),
            stale: self.fresh.clone(),
            expiring: self.stale.clone(),
        }
    }

    /// `current` holds a copy of `value`, the other generations the default.
    pub fn with_initial_value(value: T) -> (r: Self)
        ensures
            cloned::<T>(value, r.current),
            call_ensures(T::default, (), r.fresh),
            call_ensures(T::default, (), r.stale),
            call_ensures(T::default, (), r.expiring),
    {
        RotatingData {
            current: value.clone(),
            fresh: T::default(),
            stale: T::default(),
            expiring: T::default(),
        }
    }
}

impl RotatingData<usize> {
    /// Whether every generation is zero.
    pub fn is_zero(&self) -> (r: bool)
        ensures
            r == (self.current == 0 && self.fresh == 0 && self.stale == 0 && self.expiring == 0),
    {
        self.current == 0 && self.fresh == 0 && self.stale == 0 && self.expiring == 0
    }
}

} // verus!
