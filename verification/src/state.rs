//! The transaction queue of a builder state.
use std::collections::HashSet;
use std::collections::VecDeque;
use std::hash::Hash;
use std::sync::Arc;

use vstd::prelude::*;

use async_broadcast::Receiver;
use std::time::Duration;

use crate::block::BuilderStateId;
use crate::block::ParentBlockReferences;
use crate::block::ReceivedTransaction;
use crate::channel::clone_receiver;
use crate::channel::try_receive;
use crate::channel::TryRecvOutcome;
use crate::clock::period_has_elapsed;
use crate::rotating::RotatingSet;
use crate::rotating::clone_hash_set;
use crate::rotating::obeys_hash_model;

verus! {

/// `std::sync::Arc::clone`: another pointer to the same value.
#[verifier::external_body]
fn arc_clone<T>(a: &Arc<T>) -> (r: Arc<T>)
    ensures
        r == *a,
{
    Arc::clone(a)
}

/// The commitments of a sequence of received transactions, in order.
pub open spec fn commits_of<Tx, C>(s: Seq<Arc<ReceivedTransaction<Tx, C>>>) -> Seq<C> {
    s.map_values(|t: Arc<ReceivedTransaction<Tx, C>>| t.commit)
}

/// The transactions of `s` whose commitment is not in `removed`, in order.
pub open spec fn without_commits<Tx, C>(
    s: Seq<Arc<ReceivedTransaction<Tx, C>>>,
    removed: Set<C>,
) -> Seq<Arc<ReceivedTransaction<Tx, C>>> {
    s.filter(|t: Arc<ReceivedTransaction<Tx, C>>| !removed.contains(t.commit))
}

/// The queue `s` after offering it `t`: `t` joins at the back unless a
/// transaction with the same commitment is queued already.
/// Every transaction in `after` was already in `before`, or its commitment
/// is not in `included`: a transaction included in a recent block never
/// enters the queue again.
pub open spec fn queue_admits<Tx, C>(
    before: Seq<Arc<ReceivedTransaction<Tx, C>>>,
    after: Seq<Arc<ReceivedTransaction<Tx, C>>>,
    included: Set<C>,
) -> bool {
    forall|i: int|
        0 <= i < after.len() ==> before.contains(#[trigger] after[i]) || !included.contains(
            after[i].commit,
        )
}

pub open spec fn inserted<Tx, C>(
    s: Seq<Arc<ReceivedTransaction<Tx, C>>>,
    t: Arc<ReceivedTransaction<Tx, C>>,
) -> Seq<Arc<ReceivedTransaction<Tx, C>>> {
    if commits_of(s).contains(t.commit) {
        s
    } else {
        s.push(t)
    }
}

/// A first-in first-out queue of transactions in which no commitment occurs twice.
pub struct TransactionQueue<Tx, C> where C: Copy + Eq + Hash {
    /// txn commits currently in the `tx_queue`.  This is used as a quick
    /// check for whether a transaction is already in the `tx_queue` or
    /// not.
    ///
    /// This should be kept up-to-date with the `tx_queue` as it acts as an
    /// accessory to the `tx_queue`.
    pub commits: HashSet<C>,
    /// filtered queue of available transactions, taken from `tx_receiver`
    pub transactions: VecDeque<Arc<ReceivedTransaction<Tx, C>>>,
}

impl<Tx, C> Default for TransactionQueue<Tx, C> where C: Copy + Eq + Hash {
    fn default() -> (q: Self)
        ensures
            obeys_hash_model::<C>() ==> q.wf(),
            q.txns() == Seq::<Arc<ReceivedTransaction<Tx, C>>>::empty(),
    {
        let q = TransactionQueue { commits: HashSet::new(), transactions: VecDeque::new() };
        proof {
            assert(commits_of(q.txns()) =~= Seq::<C>::empty());
            assert(commits_of(q.txns()).to_set() =~= Set::<C>::empty());
        }
        q
    }
}

impl<Tx, C> TransactionQueue<Tx, C> where C: Copy + Eq + Hash {
    /// The queued transactions, oldest first.
    pub open spec fn txns(&self) -> Seq<Arc<ReceivedTransaction<Tx, C>>> {
        self.transactions@
    }

    /// The commit set mirrors the queue exactly, and no commitment is queued twice.
    pub open spec fn wf(&self) -> bool {
        &&& obeys_hash_model::<C>()
        &&& self.commits@ == commits_of(self.txns()).to_set()
        &&& commits_of(self.txns()).no_duplicates()
    }

    /// An empty queue.
    pub fn new() -> (q: Self)
        ensures
            obeys_hash_model::<C>() ==> q.wf(),
            q.txns() == Seq::<Arc<ReceivedTransaction<Tx, C>>>::empty(),
    {
        let q = TransactionQueue { commits: HashSet::new(), transactions: VecDeque::new() };
        proof {
            assert(commits_of(q.txns()) =~= Seq::<C>::empty());
            assert(commits_of(q.txns()).to_set() =~= Set::<C>::empty());
        }
        q
    }

    /// Queue `transaction` at the back unless a transaction with the same
    /// commitment is already queued. Returns whether it was queued.
    pub fn insert(&mut self, transaction: Arc<ReceivedTransaction<Tx, C>>) -> (added: bool)
        requires
            old(self).wf(),
        ensures
            final(self).wf(),
            added == !commits_of(old(self).txns()).contains(transaction.commit),
            final(self).txns() == inserted(old(self).txns(), transaction),
    {
        let ghost s0 = self.txns();
        proof {
            assert(commits_of(s0).to_set().contains(transaction.commit) <==> commits_of(
                s0,
            ).contains(transaction.commit));
        }
        if !self.commits.contains(&transaction.commit) {
            self.commits.insert(transaction.commit);
            self.transactions.push_back(transaction);
            proof {
                let s1 = self.txns();
                assert(commits_of(s1) =~= commits_of(s0).push(transaction.commit));
                assert(commits_of(s1).to_set() =~= commits_of(s0).to_set().insert(
                    transaction.commit,
                )) by {
                    commits_of(s0).lemma_push_to_set_commute(transaction.commit);
                }
                assert(commits_of(s1).no_duplicates()) by {
                    assert forall|i: int, j: int|
                        0 <= i < commits_of(s1).len() && 0 <= j < commits_of(s1).len() && i
                            != j implies commits_of(s1)[i] != commits_of(s1)[j] by {
                        if i < commits_of(s0).len() && j == commits_of(s0).len() {
                            assert(commits_of(s0).contains(commits_of(s1)[i]));
                        }
                        if j < commits_of(s0).len() && i == commits_of(s0).len() {
                            assert(commits_of(s0).contains(commits_of(s1)[j]));
                        }
                    }
                }
            }
            true
        } else {
            false
        }
    }

    /// Remove every queued transaction whose commitment is in `commits`,
    /// keeping the order of the others.
    pub fn prune(&mut self, commits: &Vec<C>)
        requires
            old(self).wf(),
        ensures
            final(self).wf(),
            final(self).txns() == without_commits(old(self).txns(), commits@.to_set()),
    {
        let ghost s0 = self.txns();
        let ghost removed = commits@.to_set();
        let mut k: usize = 0;
        while k < commits.len()
            invariant
                0 <= k <= commits.len(),
                obeys_hash_model::<C>(),
                self.transactions@ == s0,
                self.commits@ == commits_of(s0).to_set().difference(
                    commits@.subrange(0, k as int).to_set(),
                ),
            decreases commits.len() - k,
        {
            let c = commits[k];
            self.commits.remove(&c);
            proof {
                assert(commits@.subrange(0, k + 1) =~= commits@.subrange(0, k as int).push(c));
                assert(commits@.subrange(0, k + 1).to_set() =~= commits@.subrange(
                    0,
                    k as int,
                ).to_set().insert(c)) by {
                    commits@.subrange(0, k as int).lemma_push_to_set_commute(c);
                }
                assert(self.commits@ =~= commits_of(s0).to_set().difference(
                    commits@.subrange(0, k + 1).to_set(),
                ));
            }
            k = k + 1;
        }
        proof {
            assert(commits@.subrange(0, commits.len() as int) =~= commits@);
        }
        let ghost pred = |t: Arc<ReceivedTransaction<Tx, C>>| !removed.contains(t.commit);
        let mut kept: VecDeque<Arc<ReceivedTransaction<Tx, C>>> = VecDeque::new();
        let mut i: usize = 0;
        let n = self.transactions.len();
        while i < n
            invariant
                0 <= i <= n,
                n == s0.len(),
                obeys_hash_model::<C>(),
                self.transactions@ == s0,
                self.commits@ == commits_of(s0).to_set().difference(removed),
                kept@ == without_commits(s0.subrange(0, i as int), removed),
            decreases n - i,
        {
            let t = arc_clone(&self.transactions[i]);
            proof {
                assert(commits_of(s0)[i as int] == t.commit);
                assert(commits_of(s0).to_set().contains(t.commit));
                let sub = s0.subrange(0, i + 1);
                assert(sub.drop_last() =~= s0.subrange(0, i as int));
                assert(sub.last() == t);
                reveal(Seq::filter);
            }
            if self.commits.contains(&t.commit) {
                kept.push_back(t);
            }
            i = i + 1;
        }
        proof {
            assert(s0.subrange(0, n as int) =~= s0);
        }
        self.transactions = kept;
        proof {
            let s1 = self.txns();
            let c0 = commits_of(s0);
            let c1 = commits_of(s1);
            broadcast use vstd::seq_lib::group_filter_ensures;
            assert forall|j: int| #![trigger s1[j]] 0 <= j < s1.len() implies exists|m: int|
                0 <= m < s0.len() && #[trigger] s0[m] == s1[j] by {
                lemma_filter_subsequence(s0, pred, j);
            }
            assert(c1.to_set() =~= c0.to_set().difference(removed)) by {
                assert forall|x: C| c1.to_set().contains(x) implies c0.to_set().difference(
                    removed,
                ).contains(x) by {
                    let j = choose|j: int| 0 <= j < c1.len() && c1[j] == x;
                    let m = choose|m: int| 0 <= m < s0.len() && s0[m] == s1[j];
                    assert(c0[m] == x);
                    assert(pred(s1[j]));
                }
                assert forall|x: C| c0.to_set().difference(removed).contains(x) implies c1.to_set().contains(
                    x,
                ) by {
                    let m = choose|m: int| 0 <= m < c0.len() && c0[m] == x;
                    assert(pred(s0[m]));
                    assert(s1.contains(s0[m]));
                    let j = choose|j: int| 0 <= j < s1.len() && s1[j] == s0[m];
                    assert(c1[j] == x);
                }
            }
            lemma_filter_keeps_distinct(s0, pred);
        }
    }

    /// The number of queued transactions.
    pub fn len(&self) -> (n: usize)
        ensures
            n == self.txns().len(),
    {
        self.transactions.len()
    }

    /// Take the oldest queued transaction out of the queue.
    pub fn pop_front(&mut self) -> (first: Option<Arc<ReceivedTransaction<Tx, C>>>)
        requires
            old(self).wf(),
        ensures
            final(self).wf(),
            old(self).txns().len() == 0 ==> first is None && final(self).txns() == old(self).txns(),
            old(self).txns().len() > 0 ==> first == Some(old(self).txns()[0])
                && final(self).txns() == old(self).txns().drop_first(),
    {
        let ghost s0 = self.txns();
        match self.transactions.pop_front() {
            None => None,
            Some(t) => {
                self.commits.remove(&t.commit);
                proof {
                    let c0 = commits_of(s0);
                    let c1 = commits_of(self.txns());
                    assert(c1 =~= c0.drop_first());
                    assert(c0[0] == t.commit);
                    assert(c1.to_set() =~= c0.to_set().remove(t.commit)) by {
                        assert forall|x: C| c1.to_set().contains(x) implies c0.to_set().remove(
                            t.commit,
                        ).contains(x) by {
                            let j = choose|j: int| 0 <= j < c1.len() && c1[j] == x;
                            assert(c0[j + 1] == x);
                        }
                        assert forall|x: C| c0.to_set().remove(t.commit).contains(x) implies c1.to_set().contains(
                            x,
                        ) by {
                            let j = choose|j: int| 0 <= j < c0.len() && c0[j] == x;
                            assert(j != 0);
                            assert(c1[j - 1] == x);
                        }
                    }
                }
                Some(t)
            },
        }
    }

    /// A copy of the queue holding the same transactions.
    pub fn duplicate(&self) -> (r: Self)
        requires
            self.wf(),
        ensures
            r.wf(),
            r.txns() == self.txns(),
    {
        let mut transactions: VecDeque<Arc<ReceivedTransaction<Tx, C>>> = VecDeque::new();
        let n = self.transactions.len();
        let mut i: usize = 0;
        while i < n
            invariant
                0 <= i <= n,
                n == self.txns().len(),
                transactions@ == self.txns().subrange(0, i as int),
            decreases n - i,
        {
            transactions.push_back(arc_clone(&self.transactions[i]));
            proof {
                assert(self.txns().subrange(0, i + 1) =~= self.txns().subrange(0, i as int).push(
                    self.txns()[i as int],
                ));
            }
            i = i + 1;
        }
        proof {
            assert(self.txns().subrange(0, n as int) =~= self.txns());
        }
        TransactionQueue { commits: clone_hash_set(&self.commits), transactions }
    }

    /// Whether no transaction is queued.
    pub fn is_empty(&self) -> (r: bool)
        requires
            self.wf(),
        ensures
            r == (self.txns().len() == 0),
            r == (self.commits@ == Set::<C>::empty()),
    {
        proof {
            if self.txns().len() > 0 {
                assert(commits_of(self.txns()).to_set().contains(commits_of(self.txns())[0]));
            } else {
                assert(commits_of(self.txns()).to_set() =~= Set::<C>::empty());
            }
        }
        self.commits.is_empty()
    }
}

/// Every element of a filtered sequence is an element of the sequence filtered.
proof fn lemma_filter_subsequence<A>(s: Seq<A>, pred: spec_fn(A) -> bool, j: int)
    requires
        0 <= j < s.filter(pred).len(),
    ensures
        exists|m: int| 0 <= m < s.len() && s[m] == s.filter(pred)[j],
    decreases s.len(),
{
    reveal(Seq::filter);
    let sub = s.drop_last().filter(pred);
    if pred(s.last()) && j == sub.len() {
        assert(s[s.len() - 1] == s.filter(pred)[j]);
    } else {
        assert(s.filter(pred)[j] == sub[j]);
        lemma_filter_subsequence(s.drop_last(), pred, j);
        let m = choose|m: int| 0 <= m < s.drop_last().len() && s.drop_last()[m] == sub[j];
        assert(s[m] == s.filter(pred)[j]);
    }
}

/// Filtering a sequence of transactions with distinct commitments keeps them distinct.
proof fn lemma_filter_keeps_distinct<Tx, C>(
    s: Seq<Arc<ReceivedTransaction<Tx, C>>>,
    pred: spec_fn(Arc<ReceivedTransaction<Tx, C>>) -> bool,
)
    requires
        commits_of(s).no_duplicates(),
    ensures
        commits_of(s.filter(pred)).no_duplicates(),
        forall|j: int|
            0 <= j < s.filter(pred).len() ==> commits_of(s).contains(
                #[trigger] s.filter(pred)[j].commit,
            ),
    decreases s.len(),
{
    reveal(Seq::filter);
    if s.len() > 0 {
        let d = s.drop_last();
        assert(commits_of(d) =~= commits_of(s).drop_last());
        lemma_filter_keeps_distinct(d, pred);
        let f = s.filter(pred);
        let fd = d.filter(pred);
        assert forall|j: int| 0 <= j < f.len() implies commits_of(s).contains(
            #[trigger] f[j].commit,
        ) by {
            if j < fd.len() {
                assert(f[j] == fd[j]);
                assert(commits_of(d).contains(fd[j].commit));
                let m = choose|m: int| 0 <= m < commits_of(d).len() && commits_of(d)[m] == fd[j].commit;
                assert(commits_of(s)[m] == fd[j].commit);
            } else {
                assert(commits_of(s)[s.len() - 1] == f[j].commit);
            }
        }
        if pred(s.last()) {
            assert forall|i: int, j: int|
                0 <= i < commits_of(f).len() && 0 <= j < commits_of(f).len() && i
                    != j implies commits_of(f)[i] != commits_of(f)[j] by {
                if i < fd.len() && j < fd.len() {
                    assert(commits_of(fd)[i] == commits_of(f)[i]);
                    assert(commits_of(fd)[j] == commits_of(f)[j]);
                } else if i < fd.len() {
                    assert(commits_of(d).contains(fd[i].commit));
                    let m = choose|m: int| 0 <= m < commits_of(d).len() && commits_of(d)[m] == fd[i].commit;
                    assert(commits_of(s)[m] == commits_of(f)[i]);
                    assert(commits_of(s)[s.len() - 1] == commits_of(f)[j]);
                } else if j < fd.len() {
                    assert(commits_of(d).contains(fd[j].commit));
                    let m = choose|m: int| 0 <= m < commits_of(d).len() && commits_of(d)[m] == fd[j].commit;
                    assert(commits_of(s)[m] == commits_of(f)[j]);
                    assert(commits_of(s)[s.len() - 1] == commits_of(f)[i]);
                }
            }
        } else {
            assert(commits_of(f) =~= commits_of(fd));
        }
    }
}

/// A builder state: the parent block it extends, the transactions it has
/// recently seen included, and the transactions it may include next.
#[verifier::reject_recursive_types(Tx)]
#[verifier::reject_recursive_types(C)]
pub struct BuilderState<Tx, C> where C: Copy + Eq + Hash {
    /// Spawned-from references to the parent block.
    pub parent_block_references: ParentBlockReferences,
    /// txns that have been included in recent blocks that have
    /// been built.  This is used to try and guarantee that a transaction
    /// isn't duplicated.
    /// Keeps a history of the last 3 proposals.
    pub included_txns: RotatingSet<C>,
    /// transaction queue
    pub txn_queue: TransactionQueue<Tx, C>,
    /// where new transactions arrive
    pub txn_receiver: Receiver<Arc<ReceivedTransaction<Tx, C>>>,
}

/// What the transaction collection loop of a builder state does next.
#[derive(Debug)]
pub enum CollectStep {
    /// Try to take another transaction.
    Continue,
    /// The channel is empty or closed: stop collecting.
    Stop,
}

/// One collection step, from `before` to `after`, on what the channel gave
/// (`outcome`), with `queue_empty` carried in and `r` answered: what
/// [`BuilderState::collect_txn`] does.
pub open spec fn collect_step<Tx, C: Copy + Eq + Hash>(
    before: BuilderState<Tx, C>,
    after: BuilderState<Tx, C>,
    outcome: TryRecvOutcome<Arc<ReceivedTransaction<Tx, C>>>,
    queue_empty: bool,
    r: (CollectStep, bool),
) -> bool {
    match outcome {
        TryRecvOutcome::Received(t) => {
            &&& r.0 is Continue
            &&& if before.included_txns.keys().contains(t.commit) {
                r.1 == queue_empty && after.txn_queue.txns() == before.txn_queue.txns()
            } else {
                &&& r.1 == false
                &&& after.txn_queue.txns() == inserted(before.txn_queue.txns(), t)
            }
        },
        TryRecvOutcome::Overflowed(_) => {
            &&& r.0 is Continue
            &&& r.1 == queue_empty
            &&& after.txn_queue.txns() == before.txn_queue.txns()
        },
        _ => {
            &&& r.0 is Stop
            &&& r.1 == queue_empty
            &&& after.txn_queue.txns() == before.txn_queue.txns()
        },
    }
}

impl<Tx, C> BuilderState<Tx, C> where C: Copy + Eq + Hash {
    pub open spec fn wf(&self) -> bool {
        self.txn_queue.wf()
    }

    /// A builder state extending `parent`, with nothing queued or included yet.
    pub fn new(
        parent: ParentBlockReferences,
        txn_garbage_collect_duration: Duration,
        txn_receiver: Receiver<Arc<ReceivedTransaction<Tx, C>>>,
    ) -> (r: Arc<Self>)
        ensures
            obeys_hash_model::<C>() ==> r.wf(),
            r.parent_block_references == parent,
            r.included_txns.keys() == Set::<C>::empty(),
            r.included_txns.spec_period() == txn_garbage_collect_duration,
            r.txn_queue.txns().len() == 0,
            r.txn_receiver == txn_receiver,
    {
        let included_txns = RotatingSet::new(txn_garbage_collect_duration);
        proof {
            assert(included_txns.keys() =~= Set::<C>::empty());
        }
        Arc::new(
            BuilderState {
                parent_block_references: parent,
                included_txns,
                txn_queue: TransactionQueue::new(),
                txn_receiver,
            },
        )
    }

    /// The identifier of this builder state: the view and VID commitment of its parent.
    pub fn id(&self) -> (id: BuilderStateId)
        ensures
            id.parent_view == self.parent_block_references.view_number,
            id.parent_commitment == self.parent_block_references.vid_commitment,
    {
        BuilderStateId {
            parent_view: self.parent_block_references.view_number,
            parent_commitment: self.parent_block_references.vid_commitment,
        }
    }

    /// The builder state for the block that extends this state's parent with
    /// the transactions `txn_commitments`, identified by `parent_block_references`.
    ///
    /// The included-transaction history is rotated when `period_elapsed`
    /// says its period has passed, then records `txn_commitments`; those
    /// transactions leave the queue.
    pub fn new_child_when(
        &self,
        parent_block_references: ParentBlockReferences,
        txn_commitments: Vec<C>,
        period_elapsed: bool,
    ) -> (child: Arc<Self>)
        requires
            self.wf(),
        ensures
            child.wf(),
            child.parent_block_references == parent_block_references,
            child.txn_queue.txns() == without_commits(
                self.txn_queue.txns(),
                txn_commitments@.to_set(),
            ),
            period_elapsed ==> child.included_txns.fresh_keys() == txn_commitments@.to_set(),
            period_elapsed ==> child.included_txns.stale_keys() == self.included_txns.fresh_keys(),
            period_elapsed ==> child.included_txns.expiring_keys()
                == self.included_txns.stale_keys(),
            !period_elapsed ==> child.included_txns.fresh_keys()
                == self.included_txns.fresh_keys().union(txn_commitments@.to_set()),
            !period_elapsed ==> child.included_txns.stale_keys() == self.included_txns.stale_keys(),
            !period_elapsed ==> child.included_txns.expiring_keys()
                == self.included_txns.expiring_keys(),
            child.included_txns.spec_period() == self.included_txns.spec_period(),
    {
        let mut included_txns = self.included_txns.duplicate();
        included_txns.rotate_when(period_elapsed);
        let mut txn_queue = self.txn_queue.duplicate();
        txn_queue.prune(&txn_commitments);
        included_txns.extend(txn_commitments);
        proof {
            if period_elapsed {
                assert(included_txns.fresh_keys() =~= txn_commitments@.to_set());
            }
        }
        Arc::new(
            BuilderState {
                parent_block_references,
                included_txns,
                txn_queue,
                txn_receiver: clone_receiver(&self.txn_receiver),
            },
        )
    }

    /// [`Self::new_child_when`], with the rotation decided by the clock.
    pub fn new_child(
        &self,
        parent_block_references: ParentBlockReferences,
        txn_commitments: Vec<C>,
    ) -> (child: Arc<Self>)
        requires
            self.wf(),
        ensures
            child.wf(),
            child.parent_block_references == parent_block_references,
            child.txn_queue.txns() == without_commits(
                self.txn_queue.txns(),
                txn_commitments@.to_set(),
            ),
            ({
                ||| child.included_txns.fresh_keys() == txn_commitments@.to_set()
                    && child.included_txns.stale_keys() == self.included_txns.fresh_keys()
                    && child.included_txns.expiring_keys() == self.included_txns.stale_keys()
                ||| child.included_txns.fresh_keys() == self.included_txns.fresh_keys().union(
                    txn_commitments@.to_set(),
                ) && child.included_txns.stale_keys() == self.included_txns.stale_keys()
                    && child.included_txns.expiring_keys() == self.included_txns.expiring_keys()
            }),
    {
        let elapsed = period_has_elapsed(
            self.included_txns.last_rotation(),
            self.included_txns.period(),
        );
        self.new_child_when(parent_block_references, txn_commitments, elapsed)
    }

    /// One step of transaction collection, given what the channel gave.
    ///
    /// A received transaction that was included in a recent block is
    /// dropped; any other is offered to the queue, which then counts as
    /// non-empty. An empty or closed channel ends the collection; a lost
    /// backlog is skipped over. `queue_empty` is carried from step to step.
    pub fn collect_txn(
        &mut self,
        outcome: TryRecvOutcome<Arc<ReceivedTransaction<Tx, C>>>,
        queue_empty: bool,
    ) -> (r: (CollectStep, bool))
        requires
            old(self).wf(),
        ensures
            final(self).wf(),
            final(self).parent_block_references == old(self).parent_block_references,
            final(self).included_txns == old(self).included_txns,
            match outcome {
                TryRecvOutcome::Received(t) => {
                    &&& r.0 is Continue
                    &&& if old(self).included_txns.keys().contains(t.commit) {
                        r.1 == queue_empty && final(self).txn_queue.txns()
                            == old(self).txn_queue.txns()
                    } else {
                        &&& r.1 == false
                        &&& final(self).txn_queue.txns() == inserted(old(self).txn_queue.txns(), t)
                    }
                },
                TryRecvOutcome::Overflowed(_) => {
                    &&& r.0 is Continue
                    &&& r.1 == queue_empty
                    &&& final(self).txn_queue.txns() == old(self).txn_queue.txns()
                },
                _ => {
                    &&& r.0 is Stop
                    &&& r.1 == queue_empty
                    &&& final(self).txn_queue.txns() == old(self).txn_queue.txns()
                },
            },
            queue_admits(old(self).txn_queue.txns(), final(self).txn_queue.txns(), old(self).included_txns.keys()),
            r.1 != queue_empty ==> final(self).txn_queue.txns().len() > 0,
    {
        match outcome {
            TryRecvOutcome::Received(txn) => {
                if self.included_txns.contains(&txn.commit) {
                    (CollectStep::Continue, queue_empty)
                } else {
                    self.txn_queue.insert(txn);
                    (CollectStep::Continue, false)
                }
            },
            TryRecvOutcome::Overflowed(_) => (CollectStep::Continue, queue_empty),
            _ => (CollectStep::Stop, queue_empty),
        }
    }

    /// Take the next transaction from the channel, if any, and collect it
    /// as [`Self::collect_txn`] does. What the channel holds is not known
    /// here, so the result is what `collect_txn` gives for some outcome the
    /// channel can give; whatever it gave, a transaction included in a
    /// recent block does not enter the queue.
    pub fn collect_next_txn(&mut self, queue_empty: bool) -> (r: (CollectStep, bool))
        requires
            old(self).wf(),
        ensures
            final(self).wf(),
            final(self).parent_block_references == old(self).parent_block_references,
            final(self).included_txns == old(self).included_txns,
            r.1 == queue_empty || r.1 == false,
            r.0 is Stop ==> r.1 == queue_empty && final(self).txn_queue.txns() == old(self).txn_queue.txns(),
            final(self).txn_queue.txns() == old(self).txn_queue.txns() || final(self).txn_queue.txns().drop_last() == old(self).txn_queue.txns(),
            exists|outcome: TryRecvOutcome<Arc<ReceivedTransaction<Tx, C>>>|
                collect_step(*old(self), *final(self), outcome, queue_empty, r),
            queue_admits(old(self).txn_queue.txns(), final(self).txn_queue.txns(), old(self).included_txns.keys()),
            r.1 != queue_empty ==> final(self).txn_queue.txns().len() > 0,
    {
        let outcome = try_receive(&mut self.txn_receiver);
        let ghost received = outcome;
        let r = self.collect_txn(outcome, queue_empty);
        proof {
            assert(collect_step(*old(self), *self, received, queue_empty, r));
        }
        r
    }
}

} // verus!
