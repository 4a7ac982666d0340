use std::sync::Arc;

use async_broadcast::broadcast;
use async_broadcast::Receiver;
use marketplace_builder::block::BlockId;
use marketplace_builder::block::BuilderCommitment;
use marketplace_builder::block::BuilderStateId;
use marketplace_builder::block::ReceivedTransaction;
use marketplace_builder::block::VidCommitment;
use marketplace_builder::bundle::assemble_bundle;
use marketplace_builder::bundle::bundle_commitments;
use marketplace_builder::bundle::bundle_request;
use marketplace_builder::bundle::BundleResponse;
use marketplace_builder::bundle::bundle_failure_error;
use marketplace_builder::bundle::BundleFailure;
use marketplace_builder::service::collect_answers;
use marketplace_builder::service::submission_result;
use marketplace_builder::service::BuildBlockInfo;
use marketplace_builder::service::BuildError;
use marketplace_builder::service::BuilderStatesInfo;
use marketplace_builder::service::GlobalState;
use marketplace_builder::service::ProposedBlockId;
use marketplace_builder::service::BLOCK_CACHE_CAPACITY;
use marketplace_builder::channel::TrySendOutcome;

type Txn = Arc<ReceivedTransaction<Vec<u8>, u64>>;
type State = GlobalState<&'static str, u32, Vec<u8>, u64>;

fn vid(b: u8) -> VidCommitment {
    VidCommitment { bytes: [b; 32] }
}

fn id(view: u64, b: u8) -> BuilderStateId {
    BuilderStateId { parent_view: view, parent_commitment: vid(b) }
}

fn state(view: u64, last_gc: u64) -> (State, Receiver<Txn>) {
    let (tx_sender, tx_receiver) = broadcast::<Txn>(2);
    (GlobalState::new("bootstrap", tx_sender, vid(0), view, last_gc, 0), tx_receiver)
}

fn message(e: BuildError) -> String {
    match e {
        BuildError::Error { message } => message,
        BuildError::NotFound => "<not found>".to_string(),
        BuildError::Missing => "<missing>".to_string(),
    }
}

fn block_info(hash: u8, view: u64, fee: u64) -> BuildBlockInfo {
    BuildBlockInfo {
        id: BlockId { hash: BuilderCommitment { bytes: [hash; 32] }, view },
        block_payload: vec![hash],
        metadata: vec![],
        offered_fee: fee,
        truncated: false,
    }
}

#[test]
fn new_global_state_registers_the_bootstrap_state() {
    let (gs, _rx) = state(3, 3);
    assert_eq!(gs.highest_view_num_builder_id, id(3, 0));
    assert_eq!(*gs.get_channel_for_matching_builder_or_highest_view_buider(&id(3, 0)).unwrap(), "bootstrap");
    assert!(gs.check_builder_state_existence_for_a_view(&3));
    assert!(!gs.check_builder_state_existence_for_a_view(&4));
    assert_eq!(gs.last_garbage_collected_view_num, 3);
    assert_eq!(gs.blocks.cap().get(), BLOCK_CACHE_CAPACITY);
}

#[test]
fn register_keeps_the_highest_view() {
    let (mut gs, _rx) = state(1, 0);
    gs.register_builder_state(id(5, 1), "five");
    assert_eq!(gs.highest_view_num_builder_id, id(5, 1));
    gs.register_builder_state(id(4, 2), "four");
    assert_eq!(gs.highest_view_num_builder_id, id(5, 1));
    gs.register_builder_state(id(5, 3), "five again");
    assert_eq!(gs.highest_view_num_builder_id, id(5, 1));
    assert_eq!(*gs.get_channel_for_matching_builder_or_highest_view_buider(&id(4, 2)).unwrap(), "four");
}

#[test]
fn unknown_builder_falls_back_to_the_highest() {
    let (mut gs, _rx) = state(1, 0);
    gs.register_builder_state(id(6, 1), "six");
    assert_eq!(*gs.get_channel_for_matching_builder_or_highest_view_buider(&id(2, 9)).unwrap(), "six");
}

#[test]
fn no_builder_state_found_error() {
    let (mut gs, _rx) = state(1, 0);
    gs.register_builder_state(id(6, 1), "six");
    gs.remove_handles(100);
    // the highest state is kept by a decide, so drop it by hand through a higher decide cutoff
    assert!(gs.get_channel_for_matching_builder_or_highest_view_buider(&id(6, 1)).is_ok());
    let (mut empty, _rx2) = state(1, 0);
    empty.highest_view_num_builder_id = id(9, 9);
    let err = empty.get_channel_for_matching_builder_or_highest_view_buider(&id(2, 2)).unwrap_err();
    assert_eq!(message(err), "No builder state found");
}

#[test]
fn remove_handles_cuts_at_the_lower_of_decide_and_highest() {
    let (mut gs, _rx) = state(0, 0);
    for v in 1..=6 {
        gs.register_builder_state(id(v, v as u8), "s");
    }
    let cutoff = gs.remove_handles(4);
    assert_eq!(cutoff, 4);
    assert_eq!(gs.last_garbage_collected_view_num, 3);
    assert!(!gs.check_builder_state_existence_for_a_view(&3));
    assert!(gs.check_builder_state_existence_for_a_view(&4));
    assert!(gs.check_builder_state_existence_for_a_view(&6));

    let cutoff = gs.remove_handles(50);
    assert_eq!(cutoff, 6);
    assert_eq!(gs.last_garbage_collected_view_num, 5);
    assert!(gs.check_builder_state_existence_for_a_view(&6));
    assert!(!gs.check_builder_state_existence_for_a_view(&5));
}

#[test]
fn remove_handles_at_view_zero() {
    let (mut gs, _rx) = state(0, 0);
    assert_eq!(gs.remove_handles(0), 0);
    assert_eq!(gs.last_garbage_collected_view_num, 0);
}

#[test]
fn should_view_handle_other_proposals_cases() {
    let (mut gs, _rx) = state(1, 0);
    gs.register_builder_state(id(3, 1), "three");
    assert!(gs.should_view_handle_other_proposals(&3, &4));
    assert!(!gs.should_view_handle_other_proposals(&3, &1));
    assert!(!gs.should_view_handle_other_proposals(&1, &4));
}

#[test]
fn update_global_state_caches_blocks() {
    let (mut gs, _rx) = state(1, 0);
    gs.update_global_state(id(1, 0), block_info(1, 1, 10), 7);
    gs.update_global_state(id(1, 0), block_info(2, 1, 20), 8);
    assert_eq!(gs.blocks.len(), 2);
    let b1 = BlockId { hash: BuilderCommitment { bytes: [1; 32] }, view: 1 };
    assert_eq!(gs.blocks.peek(&b1).unwrap().offered_fee, 10);
    // the same block again is only marked as recently used
    gs.update_global_state(id(1, 0), block_info(1, 1, 99), 9);
    assert_eq!(gs.blocks.len(), 2);
    assert_eq!(gs.blocks.peek(&b1).unwrap().offered_fee, 10);
    assert_eq!(gs.blocks.peek_mru().unwrap().0, &b1);
    assert_eq!(*gs.builder_state_to_last_built_block.get(&id(1, 0)).unwrap(), 9);
}

#[test]
fn block_cache_evicts_the_least_recently_used() {
    let (mut gs, _rx) = state(1, 0);
    for i in 0..(BLOCK_CACHE_CAPACITY as u64 + 1) {
        let mut info = block_info(0, i, i);
        info.id.hash.bytes[0] = (i % 256) as u8;
        info.id.hash.bytes[1] = (i / 256) as u8;
        gs.update_global_state(id(1, 0), info, 0);
    }
    assert_eq!(gs.blocks.len(), BLOCK_CACHE_CAPACITY);
    let first = BlockId { hash: BuilderCommitment { bytes: [0; 32] }, view: 0 };
    assert!(!gs.blocks.contains(&first));
}

#[test]
fn submitted_transactions_are_answered_in_order() {
    let (gs, mut rx) = state(1, 0);
    let (results, _) = gs.submit_client_txns(vec![(vec![1], 11, 1), (vec![2], 12, 1)]);
    assert_eq!(results.len(), 2);
    assert_eq!(*results[0].as_ref().unwrap(), 11);
    assert_eq!(*results[1].as_ref().unwrap(), 12);
    let first = rx.try_recv().unwrap();
    assert_eq!(first.commit, 11);
    assert_eq!(first.transaction, vec![1]);
    assert_eq!(first.source, marketplace_builder::block::TransactionSource::Private);
    let second = rx.try_recv().unwrap();
    assert_eq!(second.commit, 12);
    assert_eq!(second.time_in, first.time_in);
    // the channel holds two messages: a third is refused
    let (results, _) = gs.submit_client_txns(vec![(vec![3], 13, 1), (vec![4], 14, 1), (vec![5], 15, 1)]);
    assert!(results[0].is_ok());
    assert!(results[1].is_ok());
    assert!(results[2].is_err());
    assert_eq!(message(results.into_iter().nth(2).unwrap().unwrap_err()), "Too many transactions");
}

#[test]
fn submission_to_a_closed_channel_is_an_internal_error() {
    let (gs, rx) = state(1, 0);
    drop(rx);
    let (results, _) = gs.submit_client_txns(vec![(vec![1], 1, 1)]);
    assert_eq!(
        message(results.into_iter().next().unwrap().unwrap_err()),
        "Internal error when submitting transaction: sending into a closed channel"
    );
}

#[test]
fn submission_result_messages() {
    let r: Result<u64, BuildError> = submission_result(5u64, TrySendOutcome::<u8>::Sent(None));
    assert_eq!(r.unwrap(), 5);
    let r = submission_result(5u64, TrySendOutcome::Inactive(0u8));
    assert_eq!(
        message(r.unwrap_err()),
        "Internal error when submitting transaction: sending into the void (no active receivers)"
    );
    let r = submission_result(5u64, TrySendOutcome::Full(0u8));
    assert_eq!(message(r.unwrap_err()), "Too many transactions");
}

#[test]
fn proposed_block_id_and_states_info() {
    let p = ProposedBlockId::new(vid(1), BuilderCommitment { bytes: [2; 32] }, 9);
    assert_eq!(p.parent_view, 9);
    assert_eq!(p.parent_commitment, vid(1));
    let info = BuilderStatesInfo::default();
    assert!(info.vid_commitments.is_empty() && info.block_ids.is_empty());
}

#[test]
fn bundle_lookup_finds_a_registered_state() {
    let (mut gs, _rx) = state(0, 0);
    gs.register_builder_state(id(4, 4), "four");
    assert_eq!(*gs.bundle_lookup(false, 4, vid(4)).unwrap().unwrap(), "four");
}

#[test]
fn bundle_lookup_times_out() {
    let (gs, _rx) = state(0, 0);
    assert!(matches!(gs.bundle_lookup(true, 0, vid(0)), Err(BuildError::NotFound)));
}

#[test]
fn bundle_lookup_retries_while_bootstrapping_or_ahead() {
    let (mut gs, _rx) = state(2, 2);
    // bootstrapping: highest view equals the last collected view
    assert!(gs.bundle_lookup(false, 1, vid(7)).unwrap().is_none());
    gs.register_builder_state(id(8, 8), "eight");
    // ahead of the last collected view
    assert!(gs.bundle_lookup(false, 9, vid(7)).unwrap().is_none());
}

#[test]
fn bundle_lookup_refuses_decided_views() {
    let (mut gs, _rx) = state(0, 0);
    gs.register_builder_state(id(8, 8), "eight");
    gs.remove_handles(5);
    assert_eq!(gs.last_garbage_collected_view_num, 4);
    let err = gs.bundle_lookup(false, 3, vid(3)).unwrap_err();
    assert_eq!(message(err), "Request for a bundle for a view that has already been decided.");
}

#[test]
fn bundle_failures() {
    assert_eq!(message(bundle_failure_error(BundleFailure::RequestFailed)), "Error requesting bundle");
    assert!(matches!(bundle_failure_error(BundleFailure::ResponseTimedOut), BuildError::NotFound));
    assert_eq!(
        message(bundle_failure_error(BundleFailure::ChannelClosed)),
        "Channel closed while waiting for bundle"
    );
}

#[test]
fn bundle_commitments_lay_out_each_commitment() {
    let mut a = [0u8; 32];
    a[0] = 1;
    a[31] = 2;
    let b = [9u8; 32];
    let flat = bundle_commitments(&vec![a, b]);
    assert_eq!(flat.len(), 64);
    assert_eq!(&flat[..32], &a[..]);
    assert_eq!(&flat[32..], &b[..]);
    assert!(bundle_commitments(&vec![]).is_empty());
}

#[test]
fn one_answer_for_a_submission_holds_all_commitments() {
    let (gs, mut rx) = state(1, 0);
    let (answer, _) = gs.submit_txns(vec![(vec![1], 11, 1), (vec![2], 12, 1)]);
    assert_eq!(answer.unwrap(), vec![11, 12]);
    assert_eq!(rx.try_recv().unwrap().commit, 11);
    assert_eq!(rx.try_recv().unwrap().commit, 12);
}

#[test]
fn one_answer_for_a_submission_is_the_first_error() {
    let (gs, _rx) = state(1, 0);
    // the channel holds two messages: the third and fourth are refused
    let (answer, _) = gs.submit_txns(vec![(vec![1], 1, 1), (vec![2], 2, 1), (vec![3], 3, 1), (vec![4], 4, 1)]);
    assert_eq!(message(answer.unwrap_err()), "Too many transactions");
    let (gs, rx) = state(1, 0);
    drop(rx);
    let (answer, _) = gs.submit_txns(vec![(vec![1], 1, 1)]);
    assert_eq!(
        message(answer.unwrap_err()),
        "Internal error when submitting transaction: sending into a closed channel"
    );
}

#[test]
fn collecting_answers_keeps_order_or_takes_the_first_error() {
    let all: Vec<Result<u64, BuildError>> = vec![Ok(3), Ok(1), Ok(2)];
    assert_eq!(collect_answers(all).unwrap(), vec![3, 1, 2]);
    assert!(collect_answers(Vec::<Result<u64, BuildError>>::new()).unwrap().is_empty());
    let mixed: Vec<Result<u64, BuildError>> = vec![
        Ok(3),
        Err(BuildError::Error { message: "first".to_string() }),
        Err(BuildError::Error { message: "second".to_string() }),
        Ok(4),
    ];
    assert_eq!(message(collect_answers(mixed).unwrap_err()), "first");
    let missing: Vec<Result<u64, BuildError>> = vec![Err(BuildError::Missing), Ok(1)];
    assert!(matches!(collect_answers(missing), Err(BuildError::Missing)));
}

#[test]
fn bundle_request_names_the_parent_view() {
    let request = bundle_request(42, "reply here");
    assert_eq!(request.requested_view_number, 42);
    assert_eq!(request.response_channel, "reply here");
}

#[test]
fn bundle_carries_the_response() {
    let response = BundleResponse { offered_fee: 17, transactions: vec![vec![1u8], vec![2u8, 3]] };
    let bundle = assemble_bundle(response, "account", "fee signature", "signature");
    assert_eq!(bundle.transactions, vec![vec![1u8], vec![2u8, 3]]);
    assert_eq!(bundle.sequencing_fee.fee_amount, 17);
    assert_eq!(bundle.sequencing_fee.fee_account, "account");
    assert_eq!(bundle.sequencing_fee.fee_signature, "fee signature");
    assert_eq!(bundle.signature, "signature");
}
