use std::sync::Arc;
use std::time::Duration;

use async_broadcast::broadcast;
use marketplace_builder::block::BuilderCommitment;
use marketplace_builder::block::LeafCommitment;
use marketplace_builder::block::ParentBlockReferences;
use marketplace_builder::block::ReceivedTransaction;
use marketplace_builder::block::TransactionSource;
use marketplace_builder::block::VidCommitment;
use marketplace_builder::channel::TryRecvOutcome;
use marketplace_builder::state::BuilderState;
use marketplace_builder::state::CollectStep;
use marketplace_builder::state::TransactionQueue;

type Txn = Arc<ReceivedTransaction<Vec<u8>, u64>>;

fn txn(commit: u64, size: u64) -> Txn {
    Arc::new(ReceivedTransaction::new(vec![commit as u8], commit, size, TransactionSource::Public))
}

fn references(view_number: u64) -> ParentBlockReferences {
    ParentBlockReferences {
        view_number,
        vid_commitment: VidCommitment { bytes: [view_number as u8; 32] },
        leaf_commit: LeafCommitment { bytes: [1u8; 32] },
        builder_commitment: BuilderCommitment { bytes: [2u8; 32] },
    }
}

fn commits(q: &TransactionQueue<Vec<u8>, u64>) -> Vec<u64> {
    q.transactions.iter().map(|t| t.commit).collect()
}

#[test]
fn received_transaction_keeps_what_it_was_given() {
    let t = ReceivedTransaction::new(vec![1, 2], 42u64, 17, TransactionSource::Private);
    assert_eq!(t.transaction, vec![1, 2]);
    assert_eq!(t.commit, 42);
    assert_eq!(t.min_block_size, 17);
    assert_eq!(t.source, TransactionSource::Private);
}

#[test]
fn queue_insert_is_idempotent() {
    let mut q: TransactionQueue<Vec<u8>, u64> = TransactionQueue::new();
    assert!(q.is_empty());
    assert!(q.insert(txn(1, 10)));
    assert!(!q.insert(txn(1, 10)));
    assert!(q.insert(txn(2, 10)));
    assert_eq!(q.len(), 2);
    assert_eq!(commits(&q), vec![1, 2]);
    assert!(!q.is_empty());
}

#[test]
fn queue_prune_removes_exactly_the_given_commits() {
    let mut q: TransactionQueue<Vec<u8>, u64> = TransactionQueue::default();
    for c in 1..=5 {
        q.insert(txn(c, 1));
    }
    q.prune(&vec![2, 4, 9]);
    assert_eq!(commits(&q), vec![1, 3, 5]);
    assert!(q.commits.contains(&3));
    assert!(!q.commits.contains(&2));
    // a pruned commitment can be queued again
    assert!(q.insert(txn(2, 1)));
    assert_eq!(commits(&q), vec![1, 3, 5, 2]);
}

#[test]
fn queue_pop_front_takes_the_oldest() {
    let mut q: TransactionQueue<Vec<u8>, u64> = TransactionQueue::new();
    assert!(q.pop_front().is_none());
    q.insert(txn(7, 1));
    q.insert(txn(8, 1));
    let first = q.pop_front().unwrap();
    assert_eq!(first.commit, 7);
    assert_eq!(commits(&q), vec![8]);
    assert!(!q.commits.contains(&7));
    let copy = q.duplicate();
    assert_eq!(commits(&copy), vec![8]);
}

#[test]
fn builder_state_id_is_its_parent() {
    let (_, receiver) = broadcast::<Txn>(4);
    let state = BuilderState::new(references(12), Duration::from_secs(1), receiver);
    let id = state.id();
    assert_eq!(id.parent_view, 12);
    assert_eq!(id.parent_commitment, VidCommitment { bytes: [12u8; 32] });
    assert!(state.txn_queue.is_empty());
}

#[test]
fn collect_txn_queues_new_and_skips_included() {
    let (_, receiver) = broadcast::<Txn>(4);
    let state = BuilderState::new(references(1), Duration::from_secs(60), receiver);
    let mut state = Arc::try_unwrap(state).ok().unwrap();
    state.included_txns.insert(5);

    let (step, empty) = state.collect_txn(TryRecvOutcome::Received(txn(5, 1)), true);
    assert!(matches!(step, CollectStep::Continue));
    assert!(empty);
    assert_eq!(state.txn_queue.len(), 0);

    let (step, empty) = state.collect_txn(TryRecvOutcome::Received(txn(6, 1)), true);
    assert!(matches!(step, CollectStep::Continue));
    assert!(!empty);
    assert_eq!(commits(&state.txn_queue), vec![6]);

    let (step, empty) = state.collect_txn(TryRecvOutcome::Overflowed(3), false);
    assert!(matches!(step, CollectStep::Continue));
    assert!(!empty);

    let (step, empty) = state.collect_txn(TryRecvOutcome::Empty, true);
    assert!(matches!(step, CollectStep::Stop));
    assert!(empty);
    let (step, _) = state.collect_txn(TryRecvOutcome::Closed, true);
    assert!(matches!(step, CollectStep::Stop));
}

#[test]
fn collect_next_txn_reads_the_channel() {
    let (sender, receiver) = broadcast::<Txn>(4);
    let state = BuilderState::new(references(1), Duration::from_secs(60), receiver);
    let mut state = Arc::try_unwrap(state).ok().unwrap();
    sender.try_broadcast(txn(9, 1)).unwrap();
    let (step, empty) = state.collect_next_txn(true);
    assert!(matches!(step, CollectStep::Continue));
    assert!(!empty);
    let (step, empty) = state.collect_next_txn(empty);
    assert!(matches!(step, CollectStep::Stop));
    assert!(!empty);
    assert_eq!(commits(&state.txn_queue), vec![9]);
}

#[test]
fn new_child_prunes_included_transactions() {
    let (_, receiver) = broadcast::<Txn>(4);
    let state = BuilderState::new(references(1), Duration::from_secs(60), receiver);
    let mut state = Arc::try_unwrap(state).ok().unwrap();
    for c in [1u64, 2, 3] {
        state.txn_queue.insert(txn(c, 1));
    }
    state.included_txns.insert(100);

    let child = state.new_child_when(references(2), vec![2, 3], false);
    assert_eq!(child.parent_block_references.view_number, 2);
    assert_eq!(commits(&child.txn_queue), vec![1]);
    assert!(child.included_txns.contains(&2));
    assert!(child.included_txns.contains(&100));

    let rotated = child.new_child_when(references(3), vec![1], true);
    assert_eq!(rotated.txn_queue.len(), 0);
    assert!(rotated.included_txns.contains(&1));
    assert!(rotated.included_txns.contains(&100));

    let later = state.new_child(references(4), vec![1]);
    assert_eq!(commits(&later.txn_queue), vec![2, 3]);
    assert!(later.included_txns.contains(&1));
}

#[test]
fn included_transaction_is_not_queued_again_by_the_child() {
    let (_, receiver) = broadcast::<Txn>(4);
    let state = BuilderState::new(references(1), Duration::from_secs(60), receiver);
    let mut state = Arc::try_unwrap(state).ok().unwrap();
    state.txn_queue.insert(txn(1, 1));
    state.txn_queue.insert(txn(2, 1));
    let child = state.new_child_when(references(2), vec![1], true);
    let mut child = Arc::try_unwrap(child).ok().unwrap();
    assert_eq!(commits(&child.txn_queue), vec![2]);
    let (_, empty) = child.collect_txn(TryRecvOutcome::Received(txn(1, 1)), false);
    assert!(!empty);
    assert_eq!(commits(&child.txn_queue), vec![2]);
}
