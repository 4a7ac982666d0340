//! Properties that hold across the operations of the builder: what a
//! sequence of calls leaves behind, and what every call keeps.
use std::hash::Hash;
use std::sync::Arc;

use vstd::prelude::*;

use crate::block::BuilderStateId;
use crate::block::ReceivedTransaction;
use crate::building::included_count;
use crate::rotating::obeys_hash_model;
use crate::service::collected_view;
use crate::service::decide_cutoff;
use crate::service::higher_id;
use crate::rotating::RotatingData;
use crate::rotating::RotatingSet;
use crate::channel::TryRecvOutcome;
use crate::service::GlobalState;
use crate::state::collect_step;
use crate::state::commits_of;
use crate::state::queue_admits;
use crate::state::CollectStep;
use crate::state::BuilderState;
use crate::state::inserted;
use crate::state::without_commits;

verus! {

/// A key inserted into a rotating set is contained in it, next to every
/// key it held before.
pub proof fn law_inserted_key_is_contained<T>(before: RotatingSet<T>, after: RotatingSet<T>, v: T)
    where T: PartialEq + Eq + Hash + Clone
    requires
        obeys_hash_model::<T>(),
        after.fresh_keys() == before.fresh_keys().insert(v),
        after.stale_keys() == before.stale_keys(),
        after.expiring_keys() == before.expiring_keys(),
    ensures
        after.keys().contains(v),
        after.keys() == before.keys().insert(v),
{
    assert(after.keys() =~= before.keys().insert(v));
}

/// A rotation drops exactly the expiring generation: afterwards the set
/// holds the keys that were fresh or stale before.
pub proof fn law_rotation_drops_expiring<T>(before: RotatingSet<T>, after: RotatingSet<T>)
    where T: PartialEq + Eq + Hash + Clone
    requires
        after.rotated_from(&before),
    ensures
        after.keys() == before.fresh_keys().union(before.stale_keys()),
{
    assert(after.keys() =~= before.fresh_keys().union(before.stale_keys()));
}

/// A key inserted since the last rotation is still held after two more
/// rotations, and three rotations with no insertion in between leave the
/// set empty.
pub proof fn law_rotation_lifetime<T>(
    s0: RotatingSet<T>,
    s1: RotatingSet<T>,
    s2: RotatingSet<T>,
    s3: RotatingSet<T>,
    v: T,
)
    where T: PartialEq + Eq + Hash + Clone
    requires
        s0.fresh_keys().contains(v),
        s1.rotated_from(&s0),
        s2.rotated_from(&s1),
        s3.rotated_from(&s2),
    ensures
        s1.keys().contains(v),
        s2.keys().contains(v),
        s3.keys() == Set::<T>::empty(),
{
    assert(s3.keys() =~= Set::<T>::empty());
}

/// Offering a transaction to a queue twice leaves it as offering it once:
/// no commitment is queued twice.
pub proof fn law_queue_insert_idempotent<Tx, C: Copy>(
    s: Seq<Arc<ReceivedTransaction<Tx, C>>>,
    t: Arc<ReceivedTransaction<Tx, C>>,
)
    ensures
        inserted(inserted(s, t), t) == inserted(s, t),
        commits_of(inserted(s, t)).contains(t.commit),
{
    if !commits_of(s).contains(t.commit) {
        let s1 = s.push(t);
        assert(commits_of(s1)[s.len() as int] == t.commit);
    }
}

/// Pruning a queue keeps, in their order, exactly the transactions whose
/// commitment was not pruned.
pub proof fn law_prune_keeps_exactly_the_others<Tx, C>(
    s: Seq<Arc<ReceivedTransaction<Tx, C>>>,
    removed: Set<C>,
)
    ensures
        forall|i: int|
            0 <= i < without_commits(s, removed).len() ==> !removed.contains(
                #[trigger] without_commits(s, removed)[i].commit,
            ) && s.contains(without_commits(s, removed)[i]),
        forall|i: int|
            0 <= i < s.len() && !removed.contains(#[trigger] s[i].commit) ==> without_commits(
                s,
                removed,
            ).contains(s[i]),
{
    broadcast use vstd::seq_lib::group_filter_ensures;

    let pred = |t: Arc<ReceivedTransaction<Tx, C>>| !removed.contains(t.commit);
    let f = without_commits(s, removed);
    assert(f == s.filter(pred));
    assert forall|i: int| 0 <= i < f.len() implies !removed.contains(#[trigger] f[i].commit)
        && s.contains(f[i]) by {
        assert(pred(f[i]));
        assert(f.contains(f[i]));
        s.lemma_filter_contains_rev(pred, f[i]);
    }
    assert forall|i: int| 0 <= i < s.len() && !removed.contains(#[trigger] s[i].commit) implies f.contains(
        s[i],
    ) by {
        assert(pred(s[i]));
    }
}

/// The sum of the sizes `s`.
pub open spec fn size_sum(s: Seq<u64>) -> int
    decreases s.len(),
{
    if s.len() == 0 {
        0
    } else {
        s[0] + size_sum(s.drop_first())
    }
}

proof fn lemma_size_sum_take(s: Seq<u64>, k: int)
    requires
        0 < k <= s.len(),
    ensures
        size_sum(s.take(k)) == s[0] + size_sum(s.drop_first().take(k - 1)),
{
    assert(s.take(k).drop_first() =~= s.drop_first().take(k - 1));
}

proof fn lemma_size_sum_nonneg(s: Seq<u64>)
    ensures
        size_sum(s) >= 0,
    decreases s.len(),
{
    if s.len() > 0 {
        lemma_size_sum_nonneg(s.drop_first());
    }
}

/// [`law_block_fills_target`], from a block already holding `total`.
proof fn lemma_included_count(sizes: Seq<u64>, max_block_size: int, total: int)
    requires
        total >= 0,
    ensures
        ({
            let n = included_count(sizes, max_block_size, total) as int;
            &&& n <= sizes.len()
            &&& forall|j: int|
                0 < j <= n ==> total + size_sum(#[trigger] sizes.take(j)) < max_block_size || total
                    + size_sum(sizes.take(j - 1)) == 0
            &&& n < sizes.len() ==> total + size_sum(sizes.take(n + 1)) >= max_block_size && total
                + size_sum(sizes.take(n)) != 0
        }),
    decreases sizes.len(),
{
    if sizes.len() == 0 {
    } else if total + sizes[0] >= max_block_size && total != 0 {
        assert(sizes.take(0) =~= Seq::<u64>::empty());
        lemma_size_sum_take(sizes, 1);
        assert(sizes.drop_first().take(0) =~= Seq::<u64>::empty());
    } else {
        let rest = sizes.drop_first();
        let t1 = total + sizes[0];
        lemma_included_count(rest, max_block_size, t1);
        let n = included_count(sizes, max_block_size, total) as int;
        assert(n == 1 + included_count(rest, max_block_size, t1));
        assert forall|j: int|
            0 < j <= n implies total + size_sum(#[trigger] sizes.take(j)) < max_block_size || total
            + size_sum(sizes.take(j - 1)) == 0 by {
            lemma_size_sum_take(sizes, j);
            if j == 1 {
                assert(rest.take(0) =~= Seq::<u64>::empty());
                assert(sizes.take(0) =~= Seq::<u64>::empty());
            } else {
                let i = j - 1;
                let ri = rest.take(i);
                assert(t1 + size_sum(ri) < max_block_size || t1 + size_sum(rest.take(i - 1)) == 0);
                lemma_size_sum_take(sizes, i);
                lemma_size_sum_nonneg(rest.take(i - 1));
            }
        }
        if n < sizes.len() {
            lemma_size_sum_take(sizes, n + 1);
            lemma_size_sum_take(sizes, n);
        }
    }
}

/// The transactions chosen for a block keep it under its target size,
/// but for those taken while the block is still empty, which go in whatever
/// their size; and no more fit: when some are left behind, the next one
/// would have reached the target. A non-empty queue thus always gives a
/// block at least one transaction.
pub proof fn law_block_fills_target(sizes: Seq<u64>, max_block_size: u64)
    ensures
        ({
            let n = included_count(sizes, max_block_size as int, 0) as int;
            &&& n <= sizes.len()
            &&& sizes.len() > 0 ==> n >= 1
            &&& forall|j: int|
                0 < j <= n ==> size_sum(#[trigger] sizes.take(j)) < max_block_size || size_sum(
                    sizes.take(j - 1),
                ) == 0
            &&& n < sizes.len() ==> size_sum(sizes.take(n + 1)) >= max_block_size
        }),
{
    lemma_included_count(sizes, max_block_size as int, 0);
    let n = included_count(sizes, max_block_size as int, 0) as int;
    if sizes.len() > 0 && n == 0 {
        assert(sizes.take(0) =~= Seq::<u64>::empty());
        assert(size_sum(sizes.take(0)) == 0);
    }
}

/// Registering builder states never lowers the highest registered view, and
/// the highest-view builder state is one of those registered.
pub proof fn law_register_raises_highest(highest: BuilderStateId, id: BuilderStateId)
    ensures
        higher_id(highest, id).parent_view >= highest.parent_view,
        higher_id(highest, id).parent_view >= id.parent_view,
        higher_id(highest, id) == highest || higher_id(highest, id) == id,
{
}

/// A decide never drops the highest-view builder state, nor any state at or
/// above the decided view; what it keeps is at or above its cutoff, which is
/// at most the decided view.
pub proof fn law_decide_keeps_highest<S>(
    states: Map<BuilderStateId, S>,
    highest: BuilderStateId,
    on_decide_view: u64,
)
    ensures
        ({
            let cutoff = decide_cutoff(highest.parent_view, on_decide_view);
            let kept = states.restrict(states.dom().filter(|id: BuilderStateId| id.parent_view >= cutoff));
            &&& cutoff <= on_decide_view
            &&& cutoff <= highest.parent_view
            &&& states.contains_key(highest) ==> kept.contains_key(highest) && kept[highest]
                == states[highest]
            &&& forall|id: BuilderStateId|
                #[trigger] states.contains_key(id) && id.parent_view >= on_decide_view
                    ==> kept.contains_key(id)
            &&& forall|id: BuilderStateId| #[trigger]
                kept.contains_key(id) ==> states.contains_key(id) && id.parent_view >= cutoff
        }),
{
}

/// Once a decide has collected some view (its cutoff is above zero), the
/// highest registered view is above the last collected one, and stays so
/// whatever is registered next: the two are equal only at bootstrap.
pub proof fn law_decide_ends_bootstrap(highest: BuilderStateId, on_decide_view: u64, next: BuilderStateId)
    requires
        decide_cutoff(highest.parent_view, on_decide_view) > 0,
    ensures
        collected_view(decide_cutoff(highest.parent_view, on_decide_view)) < highest.parent_view,
        collected_view(decide_cutoff(highest.parent_view, on_decide_view)) < higher_id(
            highest,
            next,
        ).parent_view,
{
}

/// The generations of a counter after one cycle of `before`.
pub open spec fn cycled(before: RotatingData<usize>, after: RotatingData<usize>) -> bool {
    &&& call_ensures(usize::default, (), after.current)
    &&& cloned::<usize>(before.current, after.fresh)
    &&& cloned::<usize>(before.fresh, after.stale)
    &&& cloned::<usize>(before.stale, after.expiring)
}

/// A new counter is zero in every generation.
pub proof fn law_new_counter_is_zero(d: RotatingData<usize>)
    requires
        call_ensures(usize::default, (), d.current),
        call_ensures(usize::default, (), d.fresh),
        call_ensures(usize::default, (), d.stale),
        call_ensures(usize::default, (), d.expiring),
    ensures
        d.current == 0 && d.fresh == 0 && d.stale == 0 && d.expiring == 0,
{
}

/// A counted value moves one generation per cycle: it is expiring after
/// three cycles and gone after four, when a counter that was not counted
/// into since is zero again.
pub proof fn law_counter_cycles_out(
    d0: RotatingData<usize>,
    d1: RotatingData<usize>,
    d2: RotatingData<usize>,
    d3: RotatingData<usize>,
    d4: RotatingData<usize>,
)
    requires
        cycled(d0, d1),
        cycled(d1, d2),
        cycled(d2, d3),
        cycled(d3, d4),
    ensures
        d1.fresh == d0.current,
        d2.stale == d0.current,
        d3.expiring == d0.current,
        d4.current == 0 && d4.fresh == 0 && d4.stale == 0 && d4.expiring == 0,
{
}

/// A builder state registered under `id` is the one found under `id`
/// afterwards (by a bundle request or a channel lookup), whatever was
/// registered before; other registrations are untouched.
pub proof fn law_registered_state_is_found<S>(
    before: Map<BuilderStateId, S>,
    after: Map<BuilderStateId, S>,
    id: BuilderStateId,
    s: S,
)
    requires
        after == before.insert(id, s),
    ensures
        after.contains_key(id),
        after[id] == s,
        forall|other: BuilderStateId|
            other != id && #[trigger] before.contains_key(other) ==> after.contains_key(other)
                && after[other] == before[other],
{
}

/// The transactions of a block a child builder state is spawned for leave
/// its queue, and are recorded as included, so that the child does not
/// queue them again (whether or not the history rotated).
pub proof fn law_included_transactions_stay_out<Tx, C>(
    parent: BuilderState<Tx, C>,
    child: BuilderState<Tx, C>,
    txn_commitments: Seq<C>,
)
    where C: Copy + Eq + Hash
    requires
        child.txn_queue.txns() == without_commits(
            parent.txn_queue.txns(),
            txn_commitments.to_set(),
        ),
        child.included_txns.fresh_keys() == txn_commitments.to_set()
            || child.included_txns.fresh_keys() == parent.included_txns.fresh_keys().union(
            txn_commitments.to_set(),
        ),
    ensures
        forall|c: C|
            txn_commitments.contains(c) ==> #[trigger] child.included_txns.keys().contains(c)
                && !commits_of(child.txn_queue.txns()).contains(c),
{
    broadcast use vstd::seq_lib::group_filter_ensures;

    let removed = txn_commitments.to_set();
    let s = parent.txn_queue.txns();
    let pred = |t: Arc<ReceivedTransaction<Tx, C>>| !removed.contains(t.commit);
    let f = child.txn_queue.txns();
    assert(f == s.filter(pred));
    assert forall|c: C| txn_commitments.contains(c) implies #[trigger] child.included_txns.keys().contains(c)
        && !commits_of(f).contains(c) by {
        assert(removed.contains(c));
        if commits_of(f).contains(c) {
            let i = choose|i: int| 0 <= i < commits_of(f).len() && commits_of(f)[i] == c;
            assert(pred(f[i]));
        }
    }
}

/// Pruning the commitments of the first `n` queued transactions from the
/// first `k` leaves those of them past the first `n`.
proof fn lemma_prune_head<Tx, C>(s: Seq<Arc<ReceivedTransaction<Tx, C>>>, n: int, k: int)
    requires
        commits_of(s).no_duplicates(),
        0 <= n <= s.len(),
        0 <= k <= s.len(),
    ensures
        without_commits(s.take(k), commits_of(s.take(n)).to_set()) == (if k <= n {
            Seq::<Arc<ReceivedTransaction<Tx, C>>>::empty()
        } else {
            s.subrange(n, k)
        }),
    decreases k,
{
    let removed = commits_of(s.take(n)).to_set();
    let pred = |t: Arc<ReceivedTransaction<Tx, C>>| !removed.contains(t.commit);
    if k == 0 {
        assert(s.take(0) =~= Seq::<Arc<ReceivedTransaction<Tx, C>>>::empty());
        reveal(Seq::filter);
    } else {
        lemma_prune_head(s, n, k - 1);
        assert(s.take(k) =~= s.take(k - 1).push(s[k - 1]));
        s.take(k - 1).lemma_filter_push(s[k - 1], pred);
        if k - 1 < n {
            assert(commits_of(s.take(n))[k - 1] == s[k - 1].commit);
            assert(removed.contains(s[k - 1].commit));
        } else {
            assert(!removed.contains(s[k - 1].commit)) by {
                if removed.contains(s[k - 1].commit) {
                    let j = choose|j: int|
                        0 <= j < commits_of(s.take(n)).len() && commits_of(s.take(n))[j] == s[k
                            - 1].commit;
                    assert(commits_of(s)[j] == commits_of(s)[k - 1]);
                }
            }
            if k - 1 == n {
                assert(s.subrange(n, k) =~= seq![s[k - 1]]);
            } else {
                assert(s.subrange(n, k) =~= s.subrange(n, k - 1).push(s[k - 1]));
            }
        }
    }
}

/// Blocks serve the queue first in first out: a block takes its
/// transactions from the head of the queue (see `transactions_to_include`),
/// and once they are included, pruning their commitments leaves exactly
/// the rest of the queue, in order, so the next block starts where this one
/// ended and no transaction is served twice.
pub proof fn law_blocks_serve_queue_in_order<Tx, C>(s: Seq<Arc<ReceivedTransaction<Tx, C>>>, n: int)
    requires
        commits_of(s).no_duplicates(),
        0 <= n <= s.len(),
    ensures
        without_commits(s, commits_of(s.take(n)).to_set()) == s.skip(n),
        s.take(n) + s.skip(n) == s,
{
    lemma_prune_head(s, n, s.len() as int);
    assert(s.take(s.len() as int) =~= s);
    assert(s.subrange(n, s.len() as int) =~= s.skip(n));
    if n == s.len() {
        assert(s.skip(n) =~= Seq::<Arc<ReceivedTransaction<Tx, C>>>::empty());
    }
    assert(s.take(n) + s.skip(n) =~= s);
}

/// A collection step never queues a transaction whose commitment is in the
/// builder state's included-transaction history, whatever the channel gave:
/// a transaction included in a recent block is dropped, and the queue and
/// the carried emptiness flag stay as they were.
pub proof fn law_collect_keeps_included_out<Tx, C: Copy + Eq + Hash>(
    before: BuilderState<Tx, C>,
    after: BuilderState<Tx, C>,
    outcome: TryRecvOutcome<Arc<ReceivedTransaction<Tx, C>>>,
    queue_empty: bool,
    r: (CollectStep, bool),
)
    requires
        collect_step(before, after, outcome, queue_empty, r),
    ensures
        queue_admits(before.txn_queue.txns(), after.txn_queue.txns(), before.included_txns.keys()),
        outcome matches TryRecvOutcome::Received(t) && before.included_txns.keys().contains(t.commit)
            ==> after.txn_queue.txns() == before.txn_queue.txns() && r.1 == queue_empty,
{
    let s0 = before.txn_queue.txns();
    let s1 = after.txn_queue.txns();
    if let TryRecvOutcome::Received(t) = outcome {
        if !before.included_txns.keys().contains(t.commit) && !commits_of(s0).contains(t.commit) {
            assert forall|i: int| 0 <= i < s1.len() implies s0.contains(#[trigger] s1[i]) || !before.included_txns.keys().contains(s1[i].commit) by {
                if i < s0.len() {
                    assert(s1[i] == s0[i]);
                }
            }
        }
    }
}

/// A bundle request is refused as being for a decided view only when the
/// view is at or below the last garbage-collected one and the service is
/// past bootstrap; a later view may still get its builder state.
pub proof fn law_bundle_refused_only_for_collected_views<S, M, Tx: Clone, C: Copy + Clone>(
    gs: GlobalState<S, M, Tx, C>,
    parent_view: u64,
)
    ensures
        gs.decided_for_bundle(parent_view) ==> parent_view <= gs.last_garbage_collected_view_num,
        parent_view > gs.last_garbage_collected_view_num ==> !gs.decided_for_bundle(parent_view),
        gs.highest_view_num_builder_id.parent_view == gs.last_garbage_collected_view_num
            ==> !gs.decided_for_bundle(parent_view),
{
}

} // verus!
