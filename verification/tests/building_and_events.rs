use std::sync::Arc;

use marketplace_builder::block::BuilderCommitment;
use marketplace_builder::block::ReceivedTransaction;
use marketplace_builder::block::TransactionSource;
use marketplace_builder::building::answered_early;
use marketplace_builder::building::collection_done;
use marketplace_builder::building::finish_block;
use marketplace_builder::building::should_build_block;
use marketplace_builder::building::should_prioritize_finalization;
use marketplace_builder::building::transactions_to_include;
use marketplace_builder::building::ALLOW_EMPTY_BLOCK_PERIOD;
use marketplace_builder::events::da_proposal_digest;
use marketplace_builder::events::handle_da_event;
use marketplace_builder::events::handle_decide_event;
use marketplace_builder::events::handle_qc_event;
use marketplace_builder::events::latest_decided_view;
use marketplace_builder::events::next_stream_step;
use marketplace_builder::events::node_count_or_one;
use marketplace_builder::events::StreamAction;
use marketplace_builder::events::StreamInput;
use marketplace_builder::events::StreamState;
use marketplace_builder::service::BuildError;
use marketplace_builder::state::TransactionQueue;
use marketplace_builder::wait::WaitAndKeep;
use marketplace_builder::wait::WaitAndKeepGetError;

fn queue(sizes: &[u64]) -> TransactionQueue<Vec<u8>, u64> {
    let mut q = TransactionQueue::new();
    for (i, s) in sizes.iter().enumerate() {
        q.insert(Arc::new(ReceivedTransaction::new(
            vec![i as u8],
            i as u64,
            *s,
            TransactionSource::Public,
        )));
    }
    q
}

#[test]
fn prioritize_finalization_cases() {
    assert_eq!(ALLOW_EMPTY_BLOCK_PERIOD, 3);
    assert!(should_prioritize_finalization(1, Some(0)));
    assert!(should_prioritize_finalization(5, Some(2)));
    assert!(!should_prioritize_finalization(5, Some(3)));
    assert!(!should_prioritize_finalization(5, None));
    assert!(!should_prioritize_finalization(0, Some(0)));
}

#[test]
fn no_block_for_an_empty_queue_unless_finalizing() {
    let empty = queue(&[]);
    assert!(!should_build_block(&empty, false));
    assert!(should_build_block(&empty, true));
    assert!(should_build_block(&queue(&[1]), false));
}

#[test]
fn transactions_fill_the_target() {
    let q = queue(&[3, 4, 2, 5]);
    assert_eq!(transactions_to_include(&q, 10), vec![vec![0u8], vec![1u8], vec![2u8]]);
    assert_eq!(transactions_to_include(&q, 9).len(), 2);
    assert_eq!(transactions_to_include(&q, 100).len(), 4);
}

#[test]
fn oversized_first_transaction_is_still_taken() {
    let q = queue(&[50, 1]);
    assert_eq!(transactions_to_include(&q, 10), vec![vec![0u8]]);
    assert!(transactions_to_include(&queue(&[]), 10).is_empty());
}

#[test]
fn zero_sized_transactions_start_the_block() {
    let q = queue(&[0, 100, 1]);
    assert_eq!(transactions_to_include(&q, 10).len(), 2);
}

#[test]
fn huge_sizes_do_not_overflow() {
    let q = queue(&[u64::MAX, u64::MAX]);
    assert_eq!(transactions_to_include(&q, u64::MAX).len(), 1);
}

#[test]
fn finished_block_offers_base_fee_per_byte() {
    let mut q = queue(&[1, 2]);
    let terms = finish_block(&mut q, false, 2, 100, 3).unwrap();
    assert_eq!(terms.block_size, 100);
    assert_eq!(terms.offered_fee, 300);
    assert!(!terms.truncated);
    assert_eq!(q.len(), 2);
}

#[test]
fn truncated_block_drops_the_first_transaction() {
    let mut q = queue(&[1, 2]);
    assert!(finish_block(&mut q, false, 0, 0, 3).is_none());
    assert_eq!(q.len(), 1);
    assert_eq!(q.transactions[0].commit, 1);
    let terms = finish_block(&mut q, true, 0, 8, 2).unwrap();
    assert!(terms.truncated);
    assert_eq!(terms.offered_fee, 16);
    assert_eq!(q.len(), 0);
}

#[test]
fn answered_early_cases() {
    assert!(answered_early(1000, 0));
    assert!(answered_early(1000, 899));
    assert!(!answered_early(1000, 900));
    assert!(!answered_early(1000, 5000));
}

#[test]
fn wait_and_keep_keeps_what_it_received() {
    let mut w: WaitAndKeep<u64, &str> = WaitAndKeep::new("receiver");
    assert_eq!(w.kept(), None);
    assert!(matches!(
        w.resolve(None),
        Err(WaitAndKeepGetError::FailedToResolvedVidCommitmentFromChannel)
    ));
    assert!(matches!(w, WaitAndKeep::Wait("receiver")));
    assert_eq!(w.resolve(Some(42)).ok(), Some(42));
    assert_eq!(w.kept(), Some(42));
    assert_eq!(w.kept(), Some(42));
}

#[test]
fn wait_error_message() {
    match WaitAndKeepGetError::FailedToResolvedVidCommitmentFromChannel.build_error() {
        BuildError::Error { message } => {
            assert_eq!(message, "failed to resolve VidCommitment from channel")
        }
        _ => panic!("expected an error with a message"),
    }
}

#[test]
fn node_count_is_at_least_one() {
    assert_eq!(node_count_or_one(0), 1);
    assert_eq!(node_count_or_one(7), 7);
}

#[test]
fn da_proposal_digest_is_sha256() {
    let d = da_proposal_digest(b"");
    assert_eq!(hex::encode(d), "e3b0c44298fc1c149afbf4c8996fb92427ae41e4649b934ca495991b7852b855");
    let d = da_proposal_digest(b"abc");
    assert_eq!(hex::encode(d), "ba7816bf8f01cfea414140de5dae2223b00361a396177a9cb410ff61f20015ad");
}

#[test]
fn da_proposal_reaches_builders_only_when_valid() {
    let bc = BuilderCommitment { bytes: [5; 32] };
    let m = handle_da_event(true, true, 4, vec![1u64, 2], 0, "leader", bc).unwrap();
    assert_eq!(m.view_number, 4);
    assert_eq!(m.txn_commitments, vec![1, 2]);
    assert_eq!(m.num_nodes, 1);
    assert_eq!(m.sender, "leader");
    assert_eq!(m.builder_commitment, bc);
    assert!(handle_da_event(false, true, 4, vec![1u64], 3, "other", bc).is_none());
    assert!(handle_da_event(true, false, 4, vec![1u64], 3, "leader", bc).is_none());
    assert_eq!(handle_da_event(true, true, 4, Vec::<u64>::new(), 9, "l", bc).unwrap().num_nodes, 9);
}

#[test]
fn quorum_proposal_reaches_builders_only_when_valid() {
    let m = handle_qc_event(true, true, "proposal", "leader").unwrap();
    assert_eq!(m.proposal, "proposal");
    assert_eq!(m.sender, "leader");
    assert!(handle_qc_event(true, false, "proposal", "leader").is_none());
    assert!(handle_qc_event(false, true, "proposal", "leader").is_none());
}

#[test]
fn decide_reports_the_newest_leaf() {
    assert_eq!(latest_decided_view(&vec![9, 8, 7]), 9);
    assert_eq!(handle_decide_event(&vec![12]).latest_decide_view_number, 12);
}

#[test]
fn event_stream_steps() {
    let (s, a) = next_stream_step::<u32, &str>(StreamState::Connected, StreamInput::Event(5));
    assert!(matches!(s, StreamState::Connected));
    assert!(matches!(a, StreamAction::Yield(5)));
    let (s, a) = next_stream_step::<u32, &str>(StreamState::Connected, StreamInput::StreamError);
    assert!(matches!(s, StreamState::Connected) && matches!(a, StreamAction::Skip));
    let (s, a) = next_stream_step::<u32, &str>(StreamState::Connected, StreamInput::Ended);
    assert!(matches!(s, StreamState::Reconnecting) && matches!(a, StreamAction::Reconnect));
    let (s, a) = next_stream_step::<u32, &str>(StreamState::Reconnecting, StreamInput::Reconnected("c"));
    assert!(matches!(s, StreamState::Connected) && matches!(a, StreamAction::Resume("c")));
    let (s, a) = next_stream_step::<u32, &str>(StreamState::Reconnecting, StreamInput::ReconnectFailed);
    assert!(matches!(s, StreamState::Reconnecting) && matches!(a, StreamAction::Finish));
}

#[test]
fn collection_stops_when_populated_or_out_of_time() {
    assert!(collection_done(true, 0, 10, 100));
    assert!(!collection_done(false, 50, 10, 100));
    assert!(!collection_done(false, 90, 10, 100));
    assert!(collection_done(false, 91, 10, 100));
    assert!(collection_done(false, 200, 10, 100));
}
