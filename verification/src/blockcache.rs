//! The least-recently-used cache of built blocks.
use std::num::NonZeroUsize;

use lru::LruCache;
use vstd::prelude::*;

use crate::block::BlockId;

verus! {

/// What the builder keeps of a block it built.
#[derive(Debug)]
pub struct BlockInfo {
    /// the encoded block payload
    pub block_payload: Vec<u8>,
    /// the encoded payload metadata
    pub metadata: Vec<u8>,
    /// the fee offered for the block
    pub offered_fee: u64,
    /// whether the block holds fewer transactions than were queued for it
    pub truncated: bool,
}

/// `lru::LruCache`, a cache that evicts its least recently used entry when full.
#[verifier::external_type_specification]
#[verifier::external_body]
#[verifier::reject_recursive_types(K)]
#[verifier::reject_recursive_types(V)]
#[verifier::reject_recursive_types(S)]
pub struct ExLruCache<K, V, S>(LruCache<K, V, S>);

/// `lru::DefaultHasher`, the hash builder of an `lru::LruCache`.
#[verifier::external_type_specification]
#[verifier::external_body]
pub struct ExLruHasher(lru::DefaultHasher);

/// The entries of a block cache, most recently used first.
pub uninterp spec fn block_cache_entries(cache: LruCache<BlockId, BlockInfo>) -> Seq<(BlockId, BlockInfo)>;

/// The capacity a block cache was made with.
pub uninterp spec fn block_cache_capacity(cache: LruCache<BlockId, BlockInfo>) -> nat;

/// The block identifiers of cache entries, in order.
pub open spec fn entry_ids(s: Seq<(BlockId, BlockInfo)>) -> Seq<BlockId> {
    s.map_values(|e: (BlockId, BlockInfo)| e.0)
}

/// The entries of `s` other than the one for `id`, in order.
pub open spec fn without_id(s: Seq<(BlockId, BlockInfo)>, id: BlockId) -> Seq<(BlockId, BlockInfo)> {
    s.filter(|e: (BlockId, BlockInfo)| e.0 != id)
}

/// The entry of `s` for `id`, where there is one.
pub open spec fn entry_for(s: Seq<(BlockId, BlockInfo)>, id: BlockId) -> (BlockId, BlockInfo) {
    s[choose|i: int| 0 <= i < s.len() && s[i].0 == id]
}

/// No block identifier occurs twice and the capacity bounds the size.
pub open spec fn cache_ok(c: LruCache<BlockId, BlockInfo>) -> bool {
    &&& entry_ids(block_cache_entries(c)).no_duplicates()
    &&& block_cache_entries(c).len() <= block_cache_capacity(c)
    &&& block_cache_capacity(c) > 0
}

/// The entries after `id` is marked as most recently used.
pub open spec fn promoted(s: Seq<(BlockId, BlockInfo)>, id: BlockId) -> Seq<(BlockId, BlockInfo)> {
    if entry_ids(s).contains(id) {
        seq![entry_for(s, id)] + without_id(s, id)
    } else {
        s
    }
}

/// The entries after `(id, info)` is pushed into a cache of capacity `cap`:
/// it becomes the most recently used entry, replacing the one for `id` or,
/// in a full cache, the least recently used one.
pub open spec fn pushed(s: Seq<(BlockId, BlockInfo)>, cap: nat, id: BlockId, info: BlockInfo) -> Seq<
    (BlockId, BlockInfo),
> {
    if entry_ids(s).contains(id) {
        seq![(id, info)] + without_id(s, id)
    } else if s.len() == cap {
        seq![(id, info)] + s.drop_last()
    } else {
        seq![(id, info)] + s
    }
}

/// `lru::LruCache::new`: an empty cache holding at most `cap` entries.
#[verifier::external_body]
pub(crate) fn new_block_cache(cap: usize) -> (c: LruCache<BlockId, BlockInfo>)
    requires
        cap > 0,
    ensures
        block_cache_entries(c) == Seq::<(BlockId, BlockInfo)>::empty(),
        block_cache_capacity(c) == cap,
        cache_ok(c),
{
    LruCache::new(NonZeroUsize::new(cap).unwrap())
}

/// `lru::LruCache::contains`: whether an entry for `id` is cached; the order is untouched.
#[verifier::external_body]
pub(crate) fn cache_contains(c: &LruCache<BlockId, BlockInfo>, id: &BlockId) -> (r: bool)
    ensures
        r == entry_ids(block_cache_entries(*c)).contains(*id),
{
    c.contains(id)
}

/// `lru::LruCache::peek`: the value cached for `id`, if any; the order is untouched.
#[verifier::external_body]
pub(crate) fn cache_peek<'a>(c: &'a LruCache<BlockId, BlockInfo>, id: &BlockId) -> (r: Option<
    &'a BlockInfo,
>)
    ensures
        entry_ids(block_cache_entries(*c)).contains(*id) ==> r == Some(
            &entry_for(block_cache_entries(*c), *id).1,
        ),
        !entry_ids(block_cache_entries(*c)).contains(*id) ==> r is None,
{
    c.peek(id)
}

/// `lru::LruCache::promote`: marks the entry for `id`, if any, as the most recently used.
#[verifier::external_body]
pub(crate) fn cache_promote(c: &mut LruCache<BlockId, BlockInfo>, id: &BlockId) -> (r: bool)
    requires
        cache_ok(*old(c)),
    ensures
        r == entry_ids(block_cache_entries(*old(c))).contains(*id),
        block_cache_entries(*final(c)) == promoted(block_cache_entries(*old(c)), *id),
        block_cache_capacity(*final(c)) == block_cache_capacity(*old(c)),
        cache_ok(*final(c)),
{
    c.promote(id)
}

/// `lru::LruCache::push`: caches `(id, info)` as the most recently used entry.
/// Returns the entry it replaced for `id`, or else the least recently used
/// entry it evicted from a full cache.
#[verifier::external_body]
pub(crate) fn cache_push(c: &mut LruCache<BlockId, BlockInfo>, id: BlockId, info: BlockInfo) -> (r:
    Option<(BlockId, BlockInfo)>)
    requires
        cache_ok(*old(c)),
    ensures
        block_cache_entries(*final(c)) == pushed(
            block_cache_entries(*old(c)),
            block_cache_capacity(*old(c)),
            id,
            info,
        ),
        block_cache_capacity(*final(c)) == block_cache_capacity(*old(c)),
        cache_ok(*final(c)),
        entry_ids(block_cache_entries(*old(c))).contains(id) ==> r == Some(
            entry_for(block_cache_entries(*old(c)), id),
        ),
        !entry_ids(block_cache_entries(*old(c))).contains(id) && block_cache_entries(*old(c)).len()
            == block_cache_capacity(*old(c)) ==> r == Some(block_cache_entries(*old(c)).last()),
        !entry_ids(block_cache_entries(*old(c))).contains(id) && block_cache_entries(*old(c)).len()
            < block_cache_capacity(*old(c)) ==> r is None,
{
    c.push(id, info)
}

} // verus!
