//! Building a block from the transaction queue of a builder state: whether
//! to build one at all, which queued transactions go in, and what the block
//! offers once its payload is known.
use std::hash::Hash;
use std::sync::Arc;

use vstd::prelude::*;

use crate::block::ReceivedTransaction;
use crate::state::TransactionQueue;

verus! {

/// The number of views after a block with transactions during which empty
/// blocks may still be built, so that the transactions are finalized sooner.
pub const ALLOW_EMPTY_BLOCK_PERIOD: u64 = 3;

/// Whether a builder state builds a block even without transactions: its
/// parent block had transactions and fewer than [`ALLOW_EMPTY_BLOCK_PERIOD`]
/// views have passed since the last block with transactions.
pub fn should_prioritize_finalization(tx_number: usize, views_since_nonempty_block: Option<u64>) -> (r:
    bool)
    ensures
        r == (tx_number != 0 && match views_since_nonempty_block {
            Some(v) => v < ALLOW_EMPTY_BLOCK_PERIOD,
            None => false,
        }),
{
    tx_number != 0 && match views_since_nonempty_block {
        Some(v) => v < ALLOW_EMPTY_BLOCK_PERIOD,
        None => false,
    }
}

/// How many of the transactions, of sizes `sizes` in queue order, go into a
/// block of target size `max_block_size`, when `total` is the size of those
/// already taken. A transaction is taken while the total stays under the
/// target; the first one is taken whatever its size, so that a transaction
/// larger than the target cannot stay stuck at the head of the queue.
pub open spec fn included_count(sizes: Seq<u64>, max_block_size: int, total: int) -> nat
    decreases sizes.len(),
{
    if sizes.len() == 0 {
        0
    } else if total + sizes[0] >= max_block_size && total != 0 {
        0
    } else {
        1 + included_count(sizes.drop_first(), max_block_size, total + sizes[0])
    }
}

/// The sizes of queued transactions, in order.
pub open spec fn sizes_of<Tx, C>(s: Seq<Arc<ReceivedTransaction<Tx, C>>>) -> Seq<u64> {
    s.map_values(|t: Arc<ReceivedTransaction<Tx, C>>| t.min_block_size)
}

/// The transactions that go into the next block, from the head of `queue`:
/// as many as [`included_count`] says for a block of target size
/// `max_block_size`, each a clone of the queued transaction.
pub fn transactions_to_include<Tx: Clone, C>(
    queue: &TransactionQueue<Tx, C>,
    max_block_size: u64,
) -> (r: Vec<Tx>) where C: Copy + Eq + Hash
    ensures
        r@.len() == included_count(sizes_of(queue.txns()), max_block_size as int, 0),
        forall|i: int|
            0 <= i < r@.len() ==> cloned(queue.txns()[i].transaction, #[trigger] r@[i]),
{
    let ghost all = queue.txns();
    let ghost sizes = sizes_of(all);
    let n = queue.transactions.len();
    let mut r: Vec<Tx> = Vec::new();
    let mut i: usize = 0;
    let mut total: u64 = 0;
    let ghost mut exact: int = 0;
    let mut stopped = false;
    proof {
        assert(sizes.subrange(0, n as int) =~= sizes);
    }
    while i < n && !stopped
        invariant
            n == all.len(),
            all == queue.txns(),
            sizes == sizes_of(all),
            i <= n,
            r@.len() == i,
            exact >= 0,
            !stopped ==> total as int == (if exact > u64::MAX { u64::MAX as int } else { exact }),
            forall|k: int| 0 <= k < i ==> cloned(all[k].transaction, #[trigger] r@[k]),
            !stopped ==> included_count(sizes, max_block_size as int, 0) == i + included_count(
                sizes.subrange(i as int, n as int),
                max_block_size as int,
                exact,
            ),
            stopped ==> included_count(sizes, max_block_size as int, 0) == i,
        decreases n - i + (if stopped { 0int } else { 1int }),
    {
        let t = &queue.transactions[i];
        let size = t.min_block_size;
        let prev = total;
        total = total.saturating_add(size);
        let ghost rest = sizes.subrange(i as int, n as int);
        proof {
            assert(rest[0] == size);
            assert(rest.drop_first() =~= sizes.subrange(i + 1, n as int));
        }
        if total >= max_block_size && prev != 0 {
            stopped = true;
        } else {
            let tx = t.transaction.clone();
            r.push(tx);
            proof {
                exact = exact + size;
            }
            i = i + 1;
        }
    }
    proof {
        if !stopped {
            assert(sizes.subrange(n as int, n as int) =~= Seq::<u64>::empty());
        }
    }
    r
}

/// What a built block offers: its size, the fee offered for it, and whether
/// the queue's first transaction was dropped as too large for any block.
#[derive(Debug)]
pub struct BlockTerms {
    pub block_size: u64,
    pub offered_fee: u64,
    pub truncated: bool,
}

/// Whether a block is built for a builder state at all: not when its queue
/// is empty, unless finalization is prioritized.
pub fn should_build_block<Tx, C>(queue: &TransactionQueue<Tx, C>, prioritize_finalization: bool) -> (r:
    bool) where C: Copy + Eq + Hash
    requires
        queue.wf(),
    ensures
        r == (queue.txns().len() > 0 || prioritize_finalization),
{
    !queue.is_empty() || prioritize_finalization
}

/// The rest of building a block once its payload is known, with
/// `actual_txn_count` transactions and `encoded_len` bytes once encoded.
///
/// A payload with no transactions although some were handed to it means
/// that the first queued transaction is too large for any block: it leaves
/// the queue, and no block is built unless finalization is prioritized.
/// The fee offered is `base_fee` per byte of the block.
pub fn finish_block<Tx, C>(
    queue: &mut TransactionQueue<Tx, C>,
    prioritize_finalization: bool,
    actual_txn_count: usize,
    encoded_len: usize,
    base_fee: u64,
) -> (r: Option<BlockTerms>) where C: Copy + Eq + Hash
    requires
        old(queue).wf(),
        base_fee * encoded_len <= u64::MAX,
    ensures
        final(queue).wf(),
        actual_txn_count == 0 && old(queue).txns().len() > 0 ==> final(queue).txns() == old(
            queue,
        ).txns().drop_first(),
        actual_txn_count != 0 || old(queue).txns().len() == 0 ==> final(queue).txns() == old(
            queue,
        ).txns(),
        r is None <==> (actual_txn_count == 0 && !prioritize_finalization),
        r matches Some(t) ==> t.block_size == encoded_len && t.offered_fee == base_fee
            * encoded_len && t.truncated == (actual_txn_count == 0),
{
    let truncated = actual_txn_count == 0;
    if truncated {
        let _ = queue.pop_front();
        if !prioritize_finalization {
            return None;
        }
    }
    let block_size: u64 = encoded_len as u64;
    proof {
        assert(base_fee * block_size <= u64::MAX);
    }
    let offered_fee: u64 = base_fee * block_size;
    Some(BlockTerms { block_size, offered_fee, truncated })
}

/// A claim of a block header input that is answered while more than a
/// tenth of the allotted time is left counts as answered early.
pub const VID_RESPONSE_TARGET_MARGIN_DIVISOR: u32 = 10;

/// Whether a claim of a block header input was answered early, so that the
/// builder may try larger blocks: of the `max_api_waiting_nanos` allotted,
/// more than a [`VID_RESPONSE_TARGET_MARGIN_DIVISOR`]th was left after
/// `elapsed_nanos` (times in nanoseconds).
pub fn answered_early(max_api_waiting_nanos: u128, elapsed_nanos: u128) -> (r: bool)
    ensures
        r == ((if elapsed_nanos < max_api_waiting_nanos {
            max_api_waiting_nanos - elapsed_nanos
        } else {
            0
        }) > max_api_waiting_nanos / (VID_RESPONSE_TARGET_MARGIN_DIVISOR as u128)),
{
    max_api_waiting_nanos.saturating_sub(elapsed_nanos) > max_api_waiting_nanos / (
    VID_RESPONSE_TARGET_MARGIN_DIVISOR as u128)
}

/// Whether the wait for transactions before building a block stops: the
/// queue was found populated, or, `elapsed_nanos` into the
/// `capture_timeout_nanos` allotted, there is no time left for another
/// wait of `sleep_interval_nanos` (times in nanoseconds).
pub fn collection_done(
    queue_populated: bool,
    elapsed_nanos: u128,
    sleep_interval_nanos: u128,
    capture_timeout_nanos: u128,
) -> (r: bool)
    ensures
        r == (queue_populated || elapsed_nanos + sleep_interval_nanos > capture_timeout_nanos),
{
    queue_populated || elapsed_nanos > capture_timeout_nanos || sleep_interval_nanos > capture_timeout_nanos
        - elapsed_nanos
}

} // verus!
