use std::sync::Arc;

use async_broadcast::broadcast;
use marketplace_builder::block::BlockId;
use marketplace_builder::block::BuilderCommitment;
use marketplace_builder::block::BuilderStateId;
use marketplace_builder::block::ReceivedTransaction;
use marketplace_builder::block::VidCommitment;
use marketplace_builder::blocks::available_blocks_step;
use marketplace_builder::blocks::AvailableBlock;
use marketplace_builder::blocks::AvailableBlocksStep;
use marketplace_builder::blocks::header_input_answer;
use marketplace_builder::blocks::BuilderStateLookup;
use marketplace_builder::service::BuildError;
use marketplace_builder::service::GlobalState;

type Txn = Arc<ReceivedTransaction<Vec<u8>, u64>>;
type State = GlobalState<&'static str, String, Vec<u8>, u64>;

fn global() -> State {
    let (tx_sender, _rx) = broadcast::<Txn>(2);
    GlobalState::new("bootstrap", tx_sender, VidCommitment::zero(), 0, 0, 0)
}

fn state_id(view: u64) -> BuilderStateId {
    BuilderStateId { parent_view: view, parent_commitment: VidCommitment { bytes: [view as u8; 32] } }
}

fn block(hash: u8, response: &str) -> AvailableBlock<String> {
    AvailableBlock {
        builder_commitment: BuilderCommitment { bytes: [hash; 32] },
        block_payload: vec![hash, 1],
        metadata: vec![hash, 2],
        offered_fee: hash as u64 * 10,
        truncated: hash % 2 == 1,
        response: response.to_string(),
    }
}

#[test]
fn matching_builder_state_builds() {
    let r = available_blocks_step(Some(BuilderStateLookup::Found(1u8)), Some(2u8), true);
    assert!(matches!(r, AvailableBlocksStep::Build(1)));
}

#[test]
fn decided_view_is_not_found() {
    let r = available_blocks_step(Some(BuilderStateLookup::<u8>::Decided), Some(2u8), true);
    assert!(matches!(r, AvailableBlocksStep::Fail(BuildError::NotFound)));
}

#[test]
fn timeout_falls_back_on_the_highest_then_the_cache() {
    assert!(matches!(available_blocks_step(None, Some(2u8), true), AvailableBlocksStep::Build(2)));
    assert!(matches!(available_blocks_step::<u8>(None, None, true), AvailableBlocksStep::ServeCached));
    assert!(matches!(
        available_blocks_step::<u8>(None, None, false),
        AvailableBlocksStep::Fail(BuildError::NotFound)
    ));
}

#[test]
fn no_built_block_answers_an_empty_list() {
    let mut gs = global();
    let r = gs.available_blocks_answer(state_id(3), None);
    assert!(r.is_empty());
    assert_eq!(gs.blocks.len(), 0);
    assert!(gs.builder_state_to_last_built_block.get(&state_id(3)).is_none());
}

#[test]
fn built_block_is_answered_and_kept() {
    let mut gs = global();
    let r = gs.available_blocks_answer(state_id(3), Some(block(7, "offer")));
    assert_eq!(r, vec!["offer".to_string()]);
    let id = BlockId { hash: BuilderCommitment { bytes: [7; 32] }, view: 3 };
    let info = gs.claimed_block(&id).unwrap();
    assert_eq!(info.block_payload, vec![7, 1]);
    assert_eq!(info.metadata, vec![7, 2]);
    assert_eq!(info.offered_fee, 70);
    assert!(info.truncated);
    assert_eq!(gs.builder_state_to_last_built_block.get(&state_id(3)).unwrap(), "offer");
}

#[test]
fn claim_of_an_unknown_block_is_not_found() {
    let mut gs = global();
    gs.available_blocks_answer(state_id(3), Some(block(7, "offer")));
    let other_view = BlockId { hash: BuilderCommitment { bytes: [7; 32] }, view: 4 };
    assert!(matches!(gs.claimed_block(&other_view), Err(BuildError::NotFound)));
}

#[test]
fn header_input_reports_the_cached_block() {
    let mut gs = global();
    gs.available_blocks_answer(state_id(3), Some(block(7, "odd")));
    gs.available_blocks_answer(state_id(4), Some(block(8, "even")));
    let odd = BlockId { hash: BuilderCommitment { bytes: [7; 32] }, view: 3 };
    let even = BlockId { hash: BuilderCommitment { bytes: [8; 32] }, view: 4 };
    let terms = gs.claimed_header_terms(&odd).unwrap();
    assert_eq!(terms.metadata, vec![7, 2]);
    assert_eq!(terms.offered_fee, 70);
    assert!(terms.truncated);
    let (truncated, input) = header_input_answer(&terms, [1u8; 4], 9u32, "fee", "vid", "key");
    assert!(truncated);
    assert_eq!(input.vid_commitment, [1u8; 4]);
    assert_eq!(input.vid_precompute_data, 9);
    assert_eq!(input.fee_signature, "fee");
    assert_eq!(input.message_signature, "vid");
    assert_eq!(input.sender, "key");
    let terms = gs.claimed_header_terms(&even).unwrap();
    assert!(!terms.truncated);
    assert_eq!(terms.offered_fee, 80);
    let (truncated, _) = header_input_answer(&terms, 0u8, 0u8, 0u8, 0u8, 0u8);
    assert!(!truncated);
}

#[test]
fn header_input_of_an_unknown_block_is_not_found() {
    let gs = global();
    let id = BlockId { hash: BuilderCommitment { bytes: [7; 32] }, view: 3 };
    assert!(matches!(gs.claimed_header_terms(&id), Err(BuildError::NotFound)));
}
