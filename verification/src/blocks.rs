//! The block services a builder offers proposers: which builder state
//! builds the blocks offered for a parent block, what is answered and kept
//! of a built block, and which cached block a claim is served from.
use vstd::prelude::*;

use crate::block::BlockId;
use crate::block::BuilderCommitment;
use crate::block::BuilderStateId;
use crate::blockcache::block_cache_capacity;
use crate::blockcache::block_cache_entries;
use crate::blockcache::cache_peek;
use crate::blockcache::entry_for;
use crate::blockcache::entry_ids;
use crate::blockcache::promoted;
use crate::blockcache::pushed;
use crate::blockcache::BlockInfo;
use crate::service::BuildBlockInfo;
use crate::service::BuildError;
use crate::service::GlobalState;

verus! {

/// What waiting for the builder state of a parent block found.
#[derive(Debug)]
pub enum BuilderStateLookup<S> {
    /// The builder state.
    Found(S),
    /// The parent's view was already decided.
    Decided,
}

/// What an available-blocks request does next.
#[derive(Debug)]
pub enum AvailableBlocksStep<S> {
    /// Build a block with this builder state.
    Build(S),
    /// Answer with the block last built for the requested state.
    ServeCached,
    /// Answer with this error.
    Fail(BuildError),
}

/// The next step of an available-blocks request, given what waiting for
/// the matching builder state found (`None` when the wait timed out), the
/// highest-view builder state, and whether a block built for the requested
/// state is cached: the matching state builds; a decided view is not found;
/// after a timeout the highest-view state builds, or else the cached block
/// is served, or else nothing is found.
pub fn available_blocks_step<S>(
    waited: Option<BuilderStateLookup<S>>,
    highest: Option<S>,
    has_cached: bool,
) -> (r: AvailableBlocksStep<S>)
    ensures
        waited matches Some(BuilderStateLookup::Found(s)) ==> r == AvailableBlocksStep::Build(s),
        waited matches Some(BuilderStateLookup::Decided) ==> (r matches AvailableBlocksStep::Fail(
            BuildError::NotFound,
        )),
        waited is None ==> (highest matches Some(h) ==> r == AvailableBlocksStep::Build(h)),
        waited is None && highest is None ==> (if has_cached {
            r is ServeCached
        } else {
            r matches AvailableBlocksStep::Fail(BuildError::NotFound)
        }),
{
    match waited {
        Some(BuilderStateLookup::Found(s)) => AvailableBlocksStep::Build(s),
        Some(BuilderStateLookup::Decided) => AvailableBlocksStep::Fail(BuildError::NotFound),
        None => match highest {
            Some(h) => AvailableBlocksStep::Build(h),
            None => if has_cached {
                AvailableBlocksStep::ServeCached
            } else {
                AvailableBlocksStep::Fail(BuildError::NotFound)
            },
        },
    }
}

/// A block built for a builder state, with the response that offers it.
pub struct AvailableBlock<M> {
    pub builder_commitment: BuilderCommitment,
    pub block_payload: Vec<u8>,
    pub metadata: Vec<u8>,
    pub offered_fee: u64,
    pub truncated: bool,
    pub response: M,
}

impl<S, M: Clone, Tx: Clone, C: Copy + Clone> GlobalState<S, M, Tx, C> {
    /// The answer to an available-blocks request for `state_id` once a block
    /// was or was not built: no block, an empty list; else its response
    /// alone, with the block cached under `BlockId { hash: its builder
    /// commitment, view: the parent view }` and the response kept as the
    /// last one built for `state_id`.
    pub fn available_blocks_answer(
        &mut self,
        state_id: BuilderStateId,
        built: Option<AvailableBlock<M>>,
    ) -> (r: Vec<M>)
        requires
            old(self).wf(),
        ensures
            final(self).wf(),
            built is None ==> r@.len() == 0 && *final(self) == *old(self),
            built matches Some(b) ==> {
                let id = BlockId { hash: b.builder_commitment, view: state_id.parent_view };
                let info = BlockInfo {
                    block_payload: b.block_payload,
                    metadata: b.metadata,
                    offered_fee: b.offered_fee,
                    truncated: b.truncated,
                };
                &&& r@ == seq![b.response]
                &&& block_cache_entries(final(self).blocks) == (if entry_ids(
                    block_cache_entries(old(self).blocks),
                ).contains(id) {
                    promoted(block_cache_entries(old(self).blocks), id)
                } else {
                    pushed(
                        block_cache_entries(old(self).blocks),
                        block_cache_capacity(old(self).blocks),
                        id,
                        info,
                    )
                })
                &&& block_cache_capacity(final(self).blocks) == block_cache_capacity(
                    old(self).blocks,
                )
                &&& final(self).builder_state_to_last_built_block.map().dom() == old(
                    self,
                ).builder_state_to_last_built_block.map().dom().insert(state_id)
                &&& cloned(b.response, final(self).builder_state_to_last_built_block.map()[state_id])
                &&& forall|other: BuilderStateId|
                    other != state_id && #[trigger] old(
                        self,
                    ).builder_state_to_last_built_block.map().contains_key(other)
                        ==> final(self).builder_state_to_last_built_block.map()[other] == old(
                        self,
                    ).builder_state_to_last_built_block.map()[other]
                &&& final(self).spawned_builder_states == old(self).spawned_builder_states
                &&& final(self).highest_view_num_builder_id == old(
                    self,
                ).highest_view_num_builder_id
                &&& final(self).last_garbage_collected_view_num == old(
                    self,
                ).last_garbage_collected_view_num
                &&& final(self).tx_sender == old(self).tx_sender
            },
    {
        match built {
            None => Vec::new(),
            Some(b) => {
                let id = BlockId { hash: b.builder_commitment, view: state_id.parent_view };
                let kept = b.response.clone();
                self.update_global_state(
                    state_id,
                    BuildBlockInfo {
                        id,
                        block_payload: b.block_payload,
                        metadata: b.metadata,
                        offered_fee: b.offered_fee,
                        truncated: b.truncated,
                    },
                    kept,
                );
                let mut r: Vec<M> = Vec::new();
                r.push(b.response);
                r
            },
        }
    }
}

impl<S, M, Tx: Clone, C: Copy + Clone> GlobalState<S, M, Tx, C> {
    /// The cached block a claim for `block_id` is served from, or `NotFound`
    /// when none is cached; the cache order is untouched.
    pub fn claimed_block(&self, block_id: &BlockId) -> (r: Result<&BlockInfo, BuildError>)
        requires
            self.wf(),
        ensures
            entry_ids(block_cache_entries(self.blocks)).contains(*block_id) ==> r == Ok::<
                &BlockInfo,
                BuildError,
            >(&entry_for(block_cache_entries(self.blocks), *block_id).1),
            !entry_ids(block_cache_entries(self.blocks)).contains(*block_id) ==> (r matches Err(
                BuildError::NotFound,
            )),
    {
        match cache_peek(&self.blocks, block_id) {
            Some(info) => Ok(info),
            None => Err(BuildError::NotFound),
        }
    }

    /// What a claim of the header input of block `block_id` reads of the
    /// cached block: its metadata, its offered fee and whether it was
    /// truncated; `NotFound` when no such block is cached.
    pub fn claimed_header_terms(&self, block_id: &BlockId) -> (r: Result<ClaimedHeaderTerms, BuildError>)
        requires
            self.wf(),
        ensures
            entry_ids(block_cache_entries(self.blocks)).contains(*block_id) ==> (r matches Ok(t) && {
                let info = entry_for(block_cache_entries(self.blocks), *block_id).1;
                &&& t.metadata@ == info.metadata@
                &&& t.offered_fee == info.offered_fee
                &&& t.truncated == info.truncated
            }),
            !entry_ids(block_cache_entries(self.blocks)).contains(*block_id) ==> (r matches Err(
                BuildError::NotFound,
            )),
    {
        match self.claimed_block(block_id) {
            Ok(info) => {
                let metadata = info.metadata.clone();
                proof {
                    assert(metadata@ =~= info.metadata@);
                }
                Ok(ClaimedHeaderTerms { metadata, offered_fee: info.offered_fee, truncated: info.truncated })
            },
            Err(e) => Err(e),
        }
    }
}

/// What the header input of a claimed block is made from, as read from
/// the block cache.
pub struct ClaimedHeaderTerms {
    /// the encoded payload metadata, which the fee signature covers
    pub metadata: Vec<u8>,
    /// the fee offered for the block, which the fee signature covers
    pub offered_fee: u64,
    /// whether the block holds fewer transactions than were queued for it
    pub truncated: bool,
}

/// The header input of a claimed block: its VID commitment and precomputed
/// VID data, the builder's signatures over the fee and over the VID
/// commitment, and the builder's key.
pub struct HeaderInput<V, P, S, K> {
    pub vid_commitment: V,
    pub vid_precompute_data: P,
    pub fee_signature: S,
    pub message_signature: S,
    pub sender: K,
}

/// The answer to a claim of a block header input: whether the claimed
/// block was truncated, beside the header input made of the VID data, the
/// two signatures and the builder's key.
pub fn header_input_answer<V, P, S, K>(
    terms: &ClaimedHeaderTerms,
    vid_commitment: V,
    vid_precompute_data: P,
    fee_signature: S,
    message_signature: S,
    sender: K,
) -> (r: (bool, HeaderInput<V, P, S, K>))
    ensures
        r.0 == terms.truncated,
        r.1 == (HeaderInput { vid_commitment, vid_precompute_data, fee_signature, message_signature, sender }),
{
    (terms.truncated, HeaderInput { vid_commitment, vid_precompute_data, fee_signature, message_signature, sender })
}

} // verus!
