//! The decisions taken on HotShot events: which proposals reach the builder
//! states and what they are told, and how the event stream recovers when
//! its connection ends.
use vstd::prelude::*;

use crate::block::BuilderCommitment;
use crate::digest::sha256;
use crate::digest::sha256_digest;

verus! {

/// A DA proposal, as the builder states are told of it.
#[derive(Debug)]
pub struct DaProposalMessage<C, K> {
    pub view_number: u64,
    pub txn_commitments: Vec<C>,
    pub num_nodes: usize,
    pub sender: K,
    pub builder_commitment: BuilderCommitment,
}

/// A quorum proposal `P`, as the builder states are told of it.
#[derive(Debug)]
pub struct QuorumProposalMessage<P, K> {
    pub proposal: P,
    pub sender: K,
}

/// A decide event, as the builder states are told of it.
#[derive(Debug)]
pub struct DecideMessage {
    pub latest_decide_view_number: u64,
}

/// The number of nodes a DA proposal message reports: the committee's
/// staked node count, or one when the committee reports none.
pub fn node_count_or_one(total_nodes: usize) -> (r: usize)
    ensures
        r == (if total_nodes == 0 {
            1
        } else {
            total_nodes
        }),
{
    if total_nodes == 0 {
        1
    } else {
        total_nodes
    }
}

/// The message a DA proposal's signature covers: the SHA-256 digest of its
/// encoded transactions.
pub fn da_proposal_digest(encoded_transactions: &[u8]) -> (r: [u8; 32])
    ensures
        r@ == sha256(encoded_transactions@),
{
    sha256_digest(encoded_transactions)
}

/// What the builder states are told of a DA proposal for `view_number`: it
/// reaches them only if its sender is the view's leader
/// (`sender_is_leader`) and its signature over [`da_proposal_digest`] is
/// valid (`signature_valid`).
pub fn handle_da_event<C, K>(
    sender_is_leader: bool,
    signature_valid: bool,
    view_number: u64,
    txn_commitments: Vec<C>,
    total_nodes: usize,
    sender: K,
    builder_commitment: BuilderCommitment,
) -> (r: Option<DaProposalMessage<C, K>>)
    ensures
        r is Some <==> sender_is_leader && signature_valid,
        r matches Some(m) ==> {
            &&& m.view_number == view_number
            &&& m.txn_commitments@ == txn_commitments@
            &&& m.num_nodes == (if total_nodes == 0 {
                1
            } else {
                total_nodes
            })
            &&& m.sender == sender
            &&& m.builder_commitment == builder_commitment
        },
{
    if sender_is_leader && signature_valid {
        Some(
            DaProposalMessage {
                view_number,
                txn_commitments,
                num_nodes: node_count_or_one(total_nodes),
                sender,
                builder_commitment,
            },
        )
    } else {
        None
    }
}

/// What the builder states are told of a quorum proposal: it reaches them,
/// with the leader as its sender, only if its sender is the view's leader
/// (`sender_is_leader`) and its signature over its leaf is valid
/// (`signature_valid`).
pub fn handle_qc_event<P, K>(
    sender_is_leader: bool,
    signature_valid: bool,
    proposal: P,
    leader: K,
) -> (r: Option<QuorumProposalMessage<P, K>>)
    ensures
        r is Some <==> sender_is_leader && signature_valid,
        r matches Some(m) ==> m.proposal == proposal && m.sender == leader,
{
    if sender_is_leader && signature_valid {
        Some(QuorumProposalMessage { proposal, sender: leader })
    } else {
        None
    }
}

/// The view of the latest decided leaf, given the views of a decide
/// event's leaf chain (newest first).
pub fn latest_decided_view(leaf_chain_views: &Vec<u64>) -> (r: u64)
    requires
        leaf_chain_views@.len() > 0,
    ensures
        r == leaf_chain_views@[0],
{
    leaf_chain_views[0]
}

/// What the builder states are told of a decide event whose leaf chain has
/// the views `leaf_chain_views` (newest first).
pub fn handle_decide_event(leaf_chain_views: &Vec<u64>) -> (r: DecideMessage)
    requires
        leaf_chain_views@.len() > 0,
    ensures
        r.latest_decide_view_number == leaf_chain_views@[0],
{
    DecideMessage { latest_decide_view_number: latest_decided_view(leaf_chain_views) }
}

/// Where an event stream stands: reading from a connection, or waiting for
/// a new connection after the last one ended.
#[derive(Debug)]
pub enum StreamState {
    Connected,
    Reconnecting,
}

/// What the event stream's current connection, or its reconnection, gave
/// once it was ready.
#[derive(Debug)]
pub enum StreamInput<E, N> {
    /// The connection delivered an event.
    Event(E),
    /// The connection delivered an error.
    StreamError,
    /// The connection ended.
    Ended,
    /// The reconnection succeeded, with the connection `N`.
    Reconnected(N),
    /// The reconnection failed.
    ReconnectFailed,
}

/// What the event stream does with what it was given.
#[derive(Debug)]
pub enum StreamAction<E, N> {
    /// Hand the event to the reader.
    Yield(E),
    /// Skip it: the reader is not woken.
    Skip,
    /// Start reconnecting, and wake the reader to poll the reconnection.
    Reconnect,
    /// Read from the new connection from now on, and wake the reader.
    Resume(N),
    /// End the stream.
    Finish,
}

/// Whether `input` can come from a stream standing at `state`: events,
/// errors and ends come from a connection, the reconnection's outcome from a
/// reconnection.
pub open spec fn input_fits<E, N>(state: StreamState, input: StreamInput<E, N>) -> bool {
    match input {
        StreamInput::Reconnected(_) | StreamInput::ReconnectFailed => state is Reconnecting,
        _ => state is Connected,
    }
}

/// Where the event stream stands next and what it does, given what its
/// connection or reconnection gave.
pub open spec fn stream_step<E, N>(input: StreamInput<E, N>) -> (StreamState, StreamAction<E, N>) {
    match input {
        StreamInput::Event(e) => (StreamState::Connected, StreamAction::Yield(e)),
        StreamInput::StreamError => (StreamState::Connected, StreamAction::Skip),
        StreamInput::Ended => (StreamState::Reconnecting, StreamAction::Reconnect),
        StreamInput::Reconnected(n) => (StreamState::Connected, StreamAction::Resume(n)),
        StreamInput::ReconnectFailed => (StreamState::Reconnecting, StreamAction::Finish),
    }
}

/// Whether each of `inputs` in turn can come from a stream that starts at
/// `state` and steps as [`stream_step`] says.
#[verifier::opaque]
pub open spec fn run_fits<E, N>(state: StreamState, inputs: Seq<StreamInput<E, N>>) -> bool
    decreases inputs.len(),
{
    if inputs.len() == 0 {
        true
    } else {
        input_fits(state, inputs[0]) && run_fits(stream_step(inputs[0]).0, inputs.drop_first())
    }
}

/// What the stream does with each of `inputs` in turn.
pub open spec fn run_actions<E, N>(inputs: Seq<StreamInput<E, N>>) -> Seq<StreamAction<E, N>> {
    inputs.map_values(|i: StreamInput<E, N>| stream_step(i).1)
}

/// An event stream ends only when a reconnection fails: over any run of
/// what its connections give, an error is skipped and the stream stays
/// connected, an ended connection is replaced by a reconnection, and the
/// stream finishes exactly where a reconnection failed.
pub proof fn law_stream_ends_only_on_failed_reconnect<E, N>(
    state: StreamState,
    inputs: Seq<StreamInput<E, N>>,
)
    requires
        run_fits(state, inputs),
    ensures
        forall|i: int|
            0 <= i < inputs.len() ==> ((#[trigger] run_actions(inputs)[i]) is Finish
                <==> inputs[i] is ReconnectFailed),
        forall|i: int|
            0 <= i < inputs.len() && inputs[i] is StreamError ==> (#[trigger] run_actions(
                inputs,
            )[i]) is Skip && stream_step(inputs[i]).0 is Connected,
        forall|i: int|
            0 <= i < inputs.len() && inputs[i] is Ended ==> (#[trigger] run_actions(inputs)[i]) is Reconnect
                && stream_step(inputs[i]).0 is Reconnecting,
        forall|i: int|
            0 <= i < inputs.len() - 1 && inputs[i + 1] is ReconnectFailed ==> (#[trigger] stream_step(
                inputs[i],
            )).0 is Reconnecting,
{
    assert forall|i: int| 0 <= i < inputs.len() implies run_actions(inputs)[i] == stream_step(
        inputs[i],
    ).1 by {}
    assert forall|i: int|
        0 <= i < inputs.len() - 1 && inputs[i + 1] is ReconnectFailed implies (#[trigger] stream_step(
            inputs[i],
        )).0 is Reconnecting by {
        lemma_run_fits_at(state, inputs, i + 1);
    }
}

/// In a run that fits, each input fits the state the previous one left.
proof fn lemma_run_fits_at<E, N>(state: StreamState, inputs: Seq<StreamInput<E, N>>, i: int)
    requires
        run_fits(state, inputs),
        0 < i < inputs.len(),
    ensures
        input_fits(stream_step(inputs[i - 1]).0, inputs[i]),
    decreases inputs.len(),
{
    reveal(run_fits);
    let rest = inputs.drop_first();
    assert(rest.len() == inputs.len() - 1);
    assert(run_fits(stream_step(inputs[0]).0, rest));
    if i > 1 {
        lemma_run_fits_at(stream_step(inputs[0]).0, rest, i - 1);
        assert(rest[i - 2] == inputs[i - 1]);
        assert(rest[i - 1] == inputs[i]);
    } else {
        assert(rest[0] == inputs[1]);
    }
}

/// One step of the event stream: given what its connection (or its
/// reconnection) gave, where the stream stands next and what it does.
/// An error from the connection is skipped; an ended connection is replaced
/// by a reconnection; a failed reconnection ends the stream.
pub fn next_stream_step<E, N>(state: StreamState, input: StreamInput<E, N>) -> (r: (
    StreamState,
    StreamAction<E, N>,
))
    requires
        input_fits(state, input),
    ensures
        match input {
            StreamInput::Event(e) => r.0 is Connected && r.1 == StreamAction::<E, N>::Yield(e),
            StreamInput::StreamError => r.0 is Connected && r.1 is Skip,
            StreamInput::Ended => r.0 is Reconnecting && r.1 is Reconnect,
            StreamInput::Reconnected(n) => r.0 is Connected && r.1 == StreamAction::<E, N>::Resume(
                n,
            ),
            StreamInput::ReconnectFailed => r.0 is Reconnecting && r.1 is Finish,
        },
        r == stream_step(input),
{
    match input {
        StreamInput::Event(e) => (StreamState::Connected, StreamAction::Yield(e)),
        StreamInput::StreamError => (StreamState::Connected, StreamAction::Skip),
        StreamInput::Ended => (StreamState::Reconnecting, StreamAction::Reconnect),
        StreamInput::Reconnected(n) => (StreamState::Connected, StreamAction::Resume(n)),
        StreamInput::ReconnectFailed => (StreamState::Reconnecting, StreamAction::Finish),
    }
}

} // verus!
