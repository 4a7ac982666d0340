use std::sync::Arc;
use std::time::Duration;

use async_broadcast::broadcast;
use marketplace_builder::block::BuilderCommitment;
use marketplace_builder::block::BuilderStateId;
use marketplace_builder::block::LeafCommitment;
use marketplace_builder::block::ParentBlockReferences;
use marketplace_builder::block::ReceivedTransaction;
use marketplace_builder::block::VidCommitment;
use marketplace_builder::coordinator::BuilderStateMap;
use marketplace_builder::coordinator::ViewBound;
use marketplace_builder::state::BuilderState;

type State = BuilderState<Vec<u8>, u64>;
type StateMap = BuilderStateMap<Arc<State>>;

fn references_with_view(view_number: u64) -> ParentBlockReferences {
    let mut vid = [0u8; 32];
    vid[0] = (view_number % 251) as u8;
    vid[1] = 7;
    let mut leaf = [0u8; 32];
    leaf[0] = (view_number % 13) as u8;
    let mut builder = [0u8; 32];
    builder[31] = (view_number % 17) as u8;
    ParentBlockReferences {
        view_number,
        vid_commitment: VidCommitment { bytes: vid },
        leaf_commit: LeafCommitment { bytes: leaf },
        builder_commitment: BuilderCommitment { bytes: builder },
    }
}

fn create_mock_builder_state(view: u64) -> Arc<State> {
    let references = references_with_view(view);
    let (_, receiver) = broadcast::<Arc<ReceivedTransaction<Vec<u8>, u64>>>(1);
    BuilderState::new(references, Duration::from_secs(1), receiver)
}

fn state_id(view: u64) -> BuilderStateId {
    BuilderStateId { parent_view: view, parent_commitment: VidCommitment::zero() }
}

#[test]
fn test_new_map() {
    let map = StateMap::new();
    assert!(map.is_empty());
    assert_eq!(map.len(), 0);
}

#[test]
fn test_insert_and_get() {
    let mut map = StateMap::new();
    let id = state_id(1);
    let builder_state = create_mock_builder_state(1);

    map.insert(id, builder_state.clone());

    assert!(!map.is_empty());
    assert_eq!(map.len(), 1);
    assert!(Arc::ptr_eq(map.get(&id).unwrap(), &builder_state));
}

#[test]
fn test_range_iteration() {
    let mut map = StateMap::new();
    for i in 0..5 {
        map.insert(state_id(i), create_mock_builder_state(i));
    }

    let collected: Vec<_> = map
        .range(ViewBound::Included(1), ViewBound::Excluded(3))
        .into_iter()
        .flatten()
        .collect();

    assert_eq!(collected.len(), 2);
    assert_eq!(collected[0].parent_block_references.view_number, 1);
    assert_eq!(collected[1].parent_block_references.view_number, 2);
}

#[test]
fn builder_state_map_test_pruning() {
    let mut map = StateMap::new();
    for i in 0..10 {
        map.insert(state_id(i), create_mock_builder_state(i));
    }

    let pruned_map = map.prune(5);
    assert_eq!(pruned_map.len(), 5);
    assert_eq!(map.len(), 5);

    assert!(!pruned_map.bucket(&4).is_empty());
    assert!(!map.bucket(&5).is_empty());

    assert!(pruned_map.bucket(&5).is_empty());
    assert!(map.bucket(&4).is_empty());
}

#[test]
fn test_highest_and_lowest_view() {
    let mut map = StateMap::new();
    assert_eq!(map.highest_view(), None);
    assert_eq!(map.lowest_view(), None);

    for i in 1..10 {
        map.insert(state_id(i), create_mock_builder_state(i));
    }

    assert_eq!(map.highest_view().unwrap(), 9);
    assert_eq!(map.lowest_view().unwrap(), 1);
}

#[test]
fn test_highest_view_builder() {
    let mut map = StateMap::new();
    assert!(map.highest_view_builder().is_none());

    let builder_state = create_mock_builder_state(10);
    map.insert(state_id(10), builder_state.clone());

    assert!(Arc::ptr_eq(map.highest_view_builder().unwrap(), &builder_state));
}

#[test]
fn map_insert_replaces_state_with_same_id() {
    let mut map = StateMap::new();
    let first = create_mock_builder_state(3);
    let second = create_mock_builder_state(3);
    map.insert(state_id(3), first);
    map.insert(state_id(3), second.clone());
    assert_eq!(map.len(), 1);
    assert!(Arc::ptr_eq(map.get(&state_id(3)).unwrap(), &second));
}

#[test]
fn map_keeps_states_with_distinct_commitments_in_one_view() {
    let mut map = StateMap::new();
    let a = BuilderStateId { parent_view: 4, parent_commitment: VidCommitment { bytes: [1u8; 32] } };
    let b = BuilderStateId { parent_view: 4, parent_commitment: VidCommitment { bytes: [2u8; 32] } };
    map.insert(a, create_mock_builder_state(4));
    map.insert(b, create_mock_builder_state(4));
    assert_eq!(map.len(), 2);
    assert_eq!(map.bucket(&4).len(), 2);
    assert_eq!(map.values().len(), 2);
    assert!(map.get(&state_id(4)).is_none());
}

#[test]
fn map_range_unbounded_and_inclusive() {
    let mut map = StateMap::new();
    for i in [2u64, 5, 7, 9] {
        map.insert(state_id(i), create_mock_builder_state(i));
    }
    let all = map.range(ViewBound::Unbounded, ViewBound::Unbounded);
    let views: Vec<u64> = all.iter().map(|b| b[0].parent_block_references.view_number).collect();
    assert_eq!(views, vec![2, 5, 7, 9]);
    let some = map.range(ViewBound::Excluded(2), ViewBound::Included(7));
    let views: Vec<u64> = some.iter().map(|b| b[0].parent_block_references.view_number).collect();
    assert_eq!(views, vec![5, 7]);
}

#[test]
fn map_prune_partitions_the_states() {
    let mut map = StateMap::default();
    for i in 0..6 {
        map.insert(state_id(i), create_mock_builder_state(i));
    }
    let low = map.prune(3);
    assert_eq!(low.lowest_view(), Some(0));
    assert_eq!(low.highest_view(), Some(2));
    assert_eq!(map.lowest_view(), Some(3));
    assert_eq!(map.highest_view(), Some(5));
    assert_eq!(low.len() + map.len(), 6);
}

#[test]
fn highest_view_builder_is_the_first_inserted_at_the_highest_view() {
    let mut map = StateMap::new();
    let first = create_mock_builder_state(10);
    let second = create_mock_builder_state(10);
    map.insert(
        BuilderStateId { parent_view: 10, parent_commitment: VidCommitment { bytes: [9u8; 32] } },
        first.clone(),
    );
    map.insert(
        BuilderStateId { parent_view: 10, parent_commitment: VidCommitment { bytes: [1u8; 32] } },
        second,
    );
    map.insert(state_id(3), create_mock_builder_state(3));
    assert!(Arc::ptr_eq(map.highest_view_builder().unwrap(), &first));
    let low = map.prune(5);
    assert_eq!(low.len(), 1);
    assert!(Arc::ptr_eq(map.highest_view_builder().unwrap(), &first));
}

#[test]
fn values_and_buckets_come_in_view_then_insertion_order() {
    let mut map = StateMap::new();
    let a = create_mock_builder_state(7);
    let b = create_mock_builder_state(7);
    let c = create_mock_builder_state(2);
    map.insert(BuilderStateId { parent_view: 7, parent_commitment: VidCommitment { bytes: [5u8; 32] } }, a.clone());
    map.insert(BuilderStateId { parent_view: 7, parent_commitment: VidCommitment { bytes: [1u8; 32] } }, b.clone());
    map.insert(state_id(2), c.clone());
    let values = map.values();
    assert_eq!(values.len(), 3);
    assert!(Arc::ptr_eq(values[0], &c));
    assert!(Arc::ptr_eq(values[1], &a));
    assert!(Arc::ptr_eq(values[2], &b));
    let bucket = map.bucket(&7);
    assert_eq!(bucket.len(), 2);
    assert!(Arc::ptr_eq(bucket[0], &a));
    assert!(Arc::ptr_eq(bucket[1], &b));
}
