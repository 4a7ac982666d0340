//! The global state of the builder service: which builder states are
//! running, the blocks they built, and how transactions reach them.
use std::sync::Arc;

use async_broadcast::Sender;
use lru::LruCache;
use vstd::prelude::*;

use crate::block::BlockId;
use crate::block::BuilderCommitment;
use crate::block::BuilderStateId;
use crate::block::ReceivedTransaction;
use crate::block::TransactionSource;
use crate::block::VidCommitment;
use crate::blockcache::block_cache_capacity;
use crate::blockcache::block_cache_entries;
use crate::blockcache::cache_contains;
use crate::blockcache::cache_ok;
use crate::blockcache::cache_promote;
use crate::blockcache::cache_push;
use crate::blockcache::entry_ids;
use crate::blockcache::new_block_cache;
use crate::blockcache::promoted;
use crate::blockcache::pushed;
use crate::blockcache::BlockInfo;
use crate::channel::hands_back;
use crate::channel::try_send;
use crate::channel::TrySendOutcome;
use crate::clock::instant_now;
use crate::table::StateTable;

verus! {

/// The number of built blocks the global state keeps.
pub const BLOCK_CACHE_CAPACITY: usize = 256;

/// An error answered to a builder API request.
#[derive(Debug)]
pub enum BuildError {
    NotFound,
    Missing,
    Error { message: String },
}

/// The message of an error, if it carries one.
pub open spec fn error_message(e: BuildError) -> Option<Seq<char>> {
    match e {
        BuildError::Error { message } => Some(message@),
        _ => None,
    }
}

/// What a builder state reports of a block it built.
#[derive(Debug)]
pub struct BuildBlockInfo {
    pub id: BlockId,
    pub block_payload: Vec<u8>,
    pub metadata: Vec<u8>,
    pub offered_fee: u64,
    pub truncated: bool,
}

/// It holds the information for the proposed block
#[derive(Debug)]
pub struct ProposedBlockId {
    pub parent_commitment: VidCommitment,
    pub payload_commitment: BuilderCommitment,
    pub parent_view: u64,
}

impl ProposedBlockId {
    pub fn new(
        parent_commitment: VidCommitment,
        payload_commitment: BuilderCommitment,
        parent_view: u64,
    ) -> (r: Self)
        ensures
            r.parent_commitment == parent_commitment,
            r.payload_commitment == payload_commitment,
            r.parent_view == parent_view,
    {
        ProposedBlockId { parent_commitment, payload_commitment, parent_view }
    }
}

/// The builder states spawned, and the blocks proposed, for a view.
#[derive(Debug)]
pub struct BuilderStatesInfo {
    // list of all the builder states spawned for a view
    pub vid_commitments: Vec<VidCommitment>,
    // list of all the proposed blocks for a view
    pub block_ids: Vec<ProposedBlockId>,
}

impl Default for BuilderStatesInfo {
    fn default() -> (r: Self)
        ensures
            r.vid_commitments@.len() == 0,
            r.block_ids@.len() == 0,
    {
        BuilderStatesInfo { vid_commitments: Vec::new(), block_ids: Vec::new() }
    }
}

/// The text a channel gives for a message it would not take, as the
/// `Display` of `async_broadcast::TrySendError` words it.
pub open spec fn send_failure_text(closed: bool) -> Seq<char> {
    if closed {
        "sending into a closed channel"@
    } else {
        "sending into the void (no active receivers)"@
    }
}

/// What submitting one transaction answers, given what the channel did with it:
/// its commitment if it was queued, an error saying why if not.
pub open spec fn submission_answer<C, T>(commit: C, outcome: TrySendOutcome<T>) -> Result<
    C,
    Seq<char>,
> {
    match outcome {
        TrySendOutcome::Sent(_) => Ok(commit),
        TrySendOutcome::Full(_) => Err("Too many transactions"@),
        TrySendOutcome::Closed(_) => Err(
            "Internal error when submitting transaction: "@ + send_failure_text(true),
        ),
        TrySendOutcome::Inactive(_) => Err(
            "Internal error when submitting transaction: "@ + send_failure_text(false),
        ),
    }
}

/// Whether `r` gives the answer `a`: the same commitment, or an error with
/// the same message.
pub open spec fn answers<C>(r: Result<C, BuildError>, a: Result<C, Seq<char>>) -> bool {
    match a {
        Ok(c) => r == Ok::<C, BuildError>(c),
        Err(m) => r matches Err(e) && error_message(e) == Some(m),
    }
}

/// The answer to one submitted transaction, given what the channel did with it.
pub fn submission_result<C, T>(commit: C, outcome: TrySendOutcome<T>) -> (r: Result<C, BuildError>)
    ensures
        answers(r, submission_answer(commit, outcome)),
{
    let prefix = "Internal error when submitting transaction: ";
    match outcome {
        TrySendOutcome::Sent(_) => Ok(commit),
        TrySendOutcome::Full(_) => Err(BuildError::Error { message: "Too many transactions".to_string() }),
        TrySendOutcome::Closed(_) => {
            let mut message = prefix.to_string();
            message.append("sending into a closed channel");
            Err(BuildError::Error { message })
        },
        TrySendOutcome::Inactive(_) => {
            let mut message = prefix.to_string();
            message.append("sending into the void (no active receivers)");
            Err(BuildError::Error { message })
        },
    }
}

/// A message handed to a channel and what the channel did with it.
pub type SentMessage<Tx, C> = (Arc<ReceivedTransaction<Tx, C>>, TrySendOutcome<Arc<ReceivedTransaction<Tx, C>>>);

/// `sent` records submitting `txns` from `source` and `results` answers it:
/// the i-th transaction, in order, was handed to the channel as one message
/// carrying it, its commitment and its estimated length, the source and a
/// receipt time shared by all; the i-th answer is what the channel's outcome
/// for that message gives.
pub open spec fn submitted<Tx, C>(
    txns: Seq<(Tx, C, u64)>,
    source: TransactionSource,
    sent: Seq<SentMessage<Tx, C>>,
    results: Seq<Result<C, BuildError>>,
) -> bool {
    &&& sent.len() == txns.len()
    &&& results.len() == txns.len()
    &&& forall|i: int|
        0 <= i < txns.len() ==> {
            let m = (#[trigger] sent[i]).0;
            &&& m.transaction == txns[i].0
            &&& m.commit == txns[i].1
            &&& m.min_block_size == txns[i].2
            &&& m.source == source
            &&& m.time_in == sent[0].0.time_in
            &&& hands_back(sent[i].1, m)
            &&& answers(results[i], submission_answer(txns[i].1, sent[i].1))
        }
}

/// `r` answers for a whole submission whose transactions were answered
/// `results`: every commitment, in order, when all were accepted, else the
/// error of the first refused one.
pub open spec fn collected<C>(results: Seq<Result<C, BuildError>>, r: Result<Vec<C>, BuildError>) -> bool {
    match r {
        Ok(v) => {
            &&& v@.len() == results.len()
            &&& forall|i: int| 0 <= i < results.len() ==> results[i] == Ok::<C, BuildError>(#[trigger] v@[i])
        },
        Err(e) => exists|k: int|
            #![trigger results[k]]
            0 <= k < results.len() && results[k] == Err::<C, BuildError>(e) && forall|j: int|
                0 <= j < k ==> #[trigger] results[j] is Ok,
    }
}

/// One answer for a submission answered `results`, transaction by
/// transaction: all the commitments when every one was accepted, else the
/// first error.
pub fn collect_answers<C: Copy>(results: Vec<Result<C, BuildError>>) -> (r: Result<Vec<C>, BuildError>)
    ensures
        collected(results@, r),
        r is Ok <==> forall|i: int| 0 <= i < results@.len() ==> #[trigger] results@[i] is Ok,
{
    let ghost all = results@;
    let mut pending = results;
    let mut commits: Vec<C> = Vec::new();
    let mut i: usize = 0;
    while i < pending.len()
        invariant
            pending@ == all,
            results@ == all,
            i <= all.len(),
            commits@.len() == i,
            forall|j: int| 0 <= j < i ==> all[j] == Ok::<C, BuildError>(#[trigger] commits@[j]),
        decreases all.len() - i,
    {
        match &pending[i] {
            Ok(c) => {
                commits.push(*c);
            },
            Err(_) => {
                let first = pending.remove(i);
                proof {
                    assert forall|j: int| 0 <= j < i implies #[trigger] all[j] is Ok by {
                        assert(all[j] == Ok::<C, BuildError>(commits@[j]));
                    }
                }
                match first {
                    // not reached: the answer at `i` is an error
                    Ok(_) => {
                        return Ok(commits);
                    },
                    Err(e) => {
                        assert(all[i as int] == Err::<C, BuildError>(e));
                        return Err(e);
                    },
                }
            },
        }
        i = i + 1;
    }
    proof {
        assert forall|j: int| 0 <= j < all.len() implies #[trigger] all[j] is Ok by {
            assert(all[j] == Ok::<C, BuildError>(commits@[j]));
        }
    }
    Ok(commits)
}

/// Broadcast each transaction of `txns` (with its commitment and estimated
/// length), in order, to the builder states as one message, all with the
/// same receipt time, and answer for each one; a refused transaction does
/// not stop the others. The messages sent and what the channel did with
/// each are returned beside the answers.
pub fn handle_received_txns<Tx: Clone, C: Copy + Clone>(
    tx_sender: &Sender<Arc<ReceivedTransaction<Tx, C>>>,
    txns: Vec<(Tx, C, u64)>,
    source: TransactionSource,
) -> (r: (Vec<Result<C, BuildError>>, Ghost<Seq<SentMessage<Tx, C>>>))
    ensures
        submitted(txns@, source, r.1@, r.0@),
{
    let mut results: Vec<Result<C, BuildError>> = Vec::new();
    let ghost mut sent: Seq<SentMessage<Tx, C>> = Seq::empty();
    let time_in = instant_now();
    let n = txns.len();
    let mut rest = txns;
    let ghost all = rest@;
    let mut pending: Vec<(Tx, C, u64)> = Vec::new();
    while rest.len() > 0
        invariant
            rest@.len() + pending@.len() == n,
            n == all.len(),
            pending@ == all.subrange(rest@.len() as int, n as int).reverse(),
            rest@ == all.subrange(0, rest@.len() as int),
        decreases rest.len(),
    {
        let item = rest.pop().unwrap();
        pending.push(item);
        proof {
            assert(pending@ =~= all.subrange(rest@.len() as int, n as int).reverse());
            assert(rest@ =~= all.subrange(0, rest@.len() as int));
        }
    }
    proof {
        assert(pending@ =~= all.reverse());
    }
    while pending.len() > 0
        invariant
            results@.len() + pending@.len() == n,
            n == all.len(),
            sent.len() == results@.len(),
            pending@ == all.subrange(results@.len() as int, n as int).reverse(),
            forall|j: int|
                0 <= j < results@.len() ==> {
                    let m = (#[trigger] sent[j]).0;
                    &&& m.transaction == all[j].0
                    &&& m.commit == all[j].1
                    &&& m.min_block_size == all[j].2
                    &&& m.source == source
                    &&& m.time_in == time_in
                    &&& hands_back(sent[j].1, m)
                    &&& answers(results@[j], submission_answer(all[j].1, sent[j].1))
                },
        decreases pending.len(),
    {
        let (transaction, commit, min_block_size) = pending.pop().unwrap();
        proof {
            assert(all[results@.len() as int] == (transaction, commit, min_block_size));
        }
        let received = ReceivedTransaction {
            transaction,
            commit,
            min_block_size,
            source,
            time_in,
        };
        let msg = Arc::new(received);
        let ghost sent_msg = msg;
        let outcome = try_send(tx_sender, msg);
        let ghost o = outcome;
        let answer = submission_result(commit, outcome);
        proof {
            sent = sent.push((sent_msg, o));
        }
        results.push(answer);
        proof {
            assert(pending@ =~= all.subrange(results@.len() as int, n as int).reverse());
        }
    }
    (results, Ghost(sent))
}

/// The lowest view whose builder states a decide of `on_decide_view` keeps:
/// the decided view, or the highest registered view if that is lower.
pub open spec fn decide_cutoff(highest_view: u64, on_decide_view: u64) -> u64 {
    if highest_view < on_decide_view {
        highest_view
    } else {
        on_decide_view
    }
}

/// The last garbage-collected view once views below `cutoff` are dropped.
pub open spec fn collected_view(cutoff: u64) -> u64 {
    if cutoff > 0 {
        (cutoff - 1) as u64
    } else {
        0
    }
}

/// The highest-view builder state once `id` is registered beside `highest`:
/// `id` if its view is above that of `highest`.
pub open spec fn higher_id(highest: BuilderStateId, id: BuilderStateId) -> BuilderStateId {
    if id.parent_view > highest.parent_view {
        id
    } else {
        highest
    }
}

/// The state shared by the builder service: the running builder states, the
/// blocks they built, and the channel that carries transactions to them.
#[verifier::reject_recursive_types(Tx)]
#[verifier::reject_recursive_types(C)]
pub struct GlobalState<S, M, Tx, C> {
    // data store for the blocks
    pub blocks: LruCache<BlockId, BlockInfo>,
    // registered builder states
    pub spawned_builder_states: StateTable<S>,
    // builder state -> last built block , it is used to respond the client
    // if the req channel times out during get_available_blocks
    pub builder_state_to_last_built_block: StateTable<M>,
    // sending a transaction from the hotshot/private mempool to the builder states
    pub tx_sender: Sender<Arc<ReceivedTransaction<Tx, C>>>,
    // last garbage collected view number
    pub last_garbage_collected_view_num: u64,
    // highest view running builder task
    pub highest_view_num_builder_id: BuilderStateId,
}

impl<S, M, Tx: Clone, C: Copy + Clone> GlobalState<S, M, Tx, C> {
    pub open spec fn wf(&self) -> bool {
        &&& self.spawned_builder_states.wf()
        &&& self.builder_state_to_last_built_block.wf()
        &&& cache_ok(self.blocks)
    }

    /// A global state with the bootstrap builder state registered, which is
    /// also the highest-view one.
    pub fn new(
        bootstrap_sender: S,
        tx_sender: Sender<Arc<ReceivedTransaction<Tx, C>>>,
        bootstrapped_builder_state_id: VidCommitment,
        bootstrapped_view_num: u64,
        last_garbage_collected_view_num: u64,
        _buffer_view_num_count: u64,
    ) -> (r: Self)
        ensures
            r.wf(),
            r.spawned_builder_states.map() == Map::<BuilderStateId, S>::empty().insert(
                BuilderStateId {
                    parent_commitment: bootstrapped_builder_state_id,
                    parent_view: bootstrapped_view_num,
                },
                bootstrap_sender,
            ),
            r.highest_view_num_builder_id == (BuilderStateId {
                parent_commitment: bootstrapped_builder_state_id,
                parent_view: bootstrapped_view_num,
            }),
            r.builder_state_to_last_built_block.map() == Map::<BuilderStateId, M>::empty(),
            block_cache_entries(r.blocks) == Seq::<(BlockId, BlockInfo)>::empty(),
            block_cache_capacity(r.blocks) == BLOCK_CACHE_CAPACITY,
            r.tx_sender == tx_sender,
            r.last_garbage_collected_view_num == last_garbage_collected_view_num,
    {
        let mut spawned_builder_states = StateTable::new();
        let bootstrap_id = BuilderStateId {
            parent_commitment: bootstrapped_builder_state_id,
            parent_view: bootstrapped_view_num,
        };
        spawned_builder_states.insert(bootstrap_id, bootstrap_sender);
        GlobalState {
            blocks: new_block_cache(BLOCK_CACHE_CAPACITY),
            spawned_builder_states,
            builder_state_to_last_built_block: StateTable::new(),
            tx_sender,
            last_garbage_collected_view_num,
            highest_view_num_builder_id: bootstrap_id,
        }
    }

    /// Register a running builder state; it becomes the highest-view one if
    /// its view is above that of the current highest.
    pub fn register_builder_state(&mut self, parent_id: BuilderStateId, request_sender: S)
        requires
            old(self).wf(),
        ensures
            final(self).wf(),
            final(self).spawned_builder_states.map() == old(self).spawned_builder_states.map().insert(
                parent_id,
                request_sender,
            ),
            final(self).highest_view_num_builder_id == higher_id(
                old(self).highest_view_num_builder_id,
                parent_id,
            ),
            final(self).builder_state_to_last_built_block == old(self).builder_state_to_last_built_block,
            final(self).blocks == old(self).blocks,
            final(self).last_garbage_collected_view_num == old(self).last_garbage_collected_view_num,
            final(self).tx_sender == old(self).tx_sender,
    {
        self.spawned_builder_states.insert(parent_id, request_sender);
        if parent_id.parent_view > self.highest_view_num_builder_id.parent_view {
            self.highest_view_num_builder_id = parent_id;
        }
    }

    /// Record a block built by the builder state `state_id`: cache it (or
    /// mark it as recently used if it is cached already) and remember the
    /// response as that state's last built block.
    pub fn update_global_state(
        &mut self,
        state_id: BuilderStateId,
        build_block_info: BuildBlockInfo,
        response_msg: M,
    )
        requires
            old(self).wf(),
        ensures
            final(self).wf(),
            block_cache_entries(final(self).blocks) == (if entry_ids(
                block_cache_entries(old(self).blocks),
            ).contains(build_block_info.id) {
                promoted(block_cache_entries(old(self).blocks), build_block_info.id)
            } else {
                pushed(
                    block_cache_entries(old(self).blocks),
                    block_cache_capacity(old(self).blocks),
                    build_block_info.id,
                    BlockInfo {
                        block_payload: build_block_info.block_payload,
                        metadata: build_block_info.metadata,
                        offered_fee: build_block_info.offered_fee,
                        truncated: build_block_info.truncated,
                    },
                )
            }),
            block_cache_capacity(final(self).blocks) == block_cache_capacity(old(self).blocks),
            final(self).builder_state_to_last_built_block.map() == old(
                self,
            ).builder_state_to_last_built_block.map().insert(state_id, response_msg),
            final(self).spawned_builder_states == old(self).spawned_builder_states,
            final(self).highest_view_num_builder_id == old(self).highest_view_num_builder_id,
            final(self).last_garbage_collected_view_num == old(self).last_garbage_collected_view_num,
            final(self).tx_sender == old(self).tx_sender,
    {
        if cache_contains(&self.blocks, &build_block_info.id) {
            cache_promote(&mut self.blocks, &build_block_info.id);
        } else {
            cache_push(
                &mut self.blocks,
                build_block_info.id,
                BlockInfo {
                    block_payload: build_block_info.block_payload,
                    metadata: build_block_info.metadata,
                    offered_fee: build_block_info.offered_fee,
                    truncated: build_block_info.truncated,
                },
            );
        }
        self.builder_state_to_last_built_block.insert(state_id, response_msg);
    }

    /// Drop the handles of builder states for views below the cutoff, which
    /// is the decided view, or the highest registered view if that is lower.
    /// The view before the cutoff becomes the last garbage-collected view.
    /// Returns the cutoff.
    pub fn remove_handles(&mut self, on_decide_view: u64) -> (cutoff: u64)
        requires
            old(self).wf(),
        ensures
            final(self).wf(),
            cutoff == decide_cutoff(old(self).highest_view_num_builder_id.parent_view, on_decide_view),
            final(self).spawned_builder_states.map() == old(
                self,
            ).spawned_builder_states.map().restrict(
                old(self).spawned_builder_states.map().dom().filter(
                    |id: BuilderStateId| id.parent_view >= cutoff,
                ),
            ),
            final(self).last_garbage_collected_view_num == collected_view(cutoff),
            final(self).highest_view_num_builder_id == old(self).highest_view_num_builder_id,
            final(self).builder_state_to_last_built_block == old(self).builder_state_to_last_built_block,
            final(self).blocks == old(self).blocks,
            final(self).tx_sender == old(self).tx_sender,
    {
        let cutoff = if self.highest_view_num_builder_id.parent_view < on_decide_view {
            self.highest_view_num_builder_id.parent_view
        } else {
            on_decide_view
        };
        self.spawned_builder_states.retain_from_view(cutoff);
        let gc_view = if cutoff > 0 {
            cutoff - 1
        } else {
            0
        };
        self.last_garbage_collected_view_num = gc_view;
        cutoff
    }

    /// Submit transactions from the private mempool: each is broadcast to
    /// the builder states with source `Private`, as
    /// [`handle_received_txns`] says.
    pub fn submit_client_txns(&self, txns: Vec<(Tx, C, u64)>) -> (r: (
        Vec<Result<C, BuildError>>,
        Ghost<Seq<SentMessage<Tx, C>>>,
    ))
        ensures
            submitted(txns@, TransactionSource::Private, r.1@, r.0@),
    {
        handle_received_txns(&self.tx_sender, txns, TransactionSource::Private)
    }

    /// Submit transactions from the private mempool, as
    /// [`submit_client_txns`] does, and answer for them all at once: every
    /// commitment, in order, when each was accepted, else the error of the
    /// first refused one. The messages sent and the answers for each
    /// transaction are returned beside.
    pub fn submit_txns(&self, txns: Vec<(Tx, C, u64)>) -> (r: (
        Result<Vec<C>, BuildError>,
        Ghost<(Seq<SentMessage<Tx, C>>, Seq<Result<C, BuildError>>)>,
    ))
        ensures
            submitted(txns@, TransactionSource::Private, r.1@.0, r.1@.1),
            collected(r.1@.1, r.0),
    {
        let (results, sent) = self.submit_client_txns(txns);
        let ghost each = results@;
        (collect_answers(results), Ghost((sent@, each)))
    }

    /// The channel of the builder state `key` if it is registered, else that
    /// of the highest-view builder state, else an error.
    pub fn get_channel_for_matching_builder_or_highest_view_buider(&self, key: &BuilderStateId) -> (r:
        Result<&S, BuildError>)
        requires
            self.wf(),
        ensures
            self.spawned_builder_states.map().contains_key(*key) ==> r == Ok::<&S, BuildError>(
                &self.spawned_builder_states.map()[*key],
            ),
            !self.spawned_builder_states.map().contains_key(*key)
                && self.spawned_builder_states.map().contains_key(self.highest_view_num_builder_id)
                ==> r == Ok::<&S, BuildError>(
                &self.spawned_builder_states.map()[self.highest_view_num_builder_id],
            ),
            !self.spawned_builder_states.map().contains_key(*key)
                && !self.spawned_builder_states.map().contains_key(self.highest_view_num_builder_id)
                ==> (r matches Err(e) && error_message(e) == Some("No builder state found"@)),
    {
        match self.spawned_builder_states.get(key) {
            Some(channel) => Ok(channel),
            None => match self.spawned_builder_states.get(&self.highest_view_num_builder_id) {
                Some(channel) => Ok(channel),
                None => Err(BuildError::Error { message: "No builder state found".to_string() }),
            },
        }
    }

    /// check for the existence of the builder state for a view
    pub fn check_builder_state_existence_for_a_view(&self, key: &u64) -> (r: bool)
        requires
            self.wf(),
        ensures
            r == exists|id: BuilderStateId| #[trigger]
                self.spawned_builder_states.map().contains_key(id) && id.parent_view == *key,
    {
        self.spawned_builder_states.any_with_view(*key)
    }

    /// Whether the builder state for `builder_view` should also handle a
    /// proposal for `proposal_view`: it is the highest-view builder state and
    /// no builder state exists for the proposal's view.
    pub fn should_view_handle_other_proposals(&self, builder_view: &u64, proposal_view: &u64) -> (r:
        bool)
        requires
            self.wf(),
        ensures
            r == (*builder_view == self.highest_view_num_builder_id.parent_view && !exists|
                id: BuilderStateId,
            | #[trigger]
                self.spawned_builder_states.map().contains_key(id) && id.parent_view
                    == *proposal_view),
    {
        *builder_view == self.highest_view_num_builder_id.parent_view
            && !self.check_builder_state_existence_for_a_view(proposal_view)
    }
}

} // verus!
