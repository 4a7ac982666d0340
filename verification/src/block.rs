//! Identifiers of blocks and builder states, and what a builder keeps of a
//! received transaction.
use std::time::Instant;

use vstd::prelude::*;

use crate::clock::instant_now;
use crate::digest::sha256;
use crate::digest::sha256_digest;

verus! {

/// Whether two 32-byte digests hold the same bytes.
pub fn digest_eq(a: &[u8; 32], b: &[u8; 32]) -> (r: bool)
    ensures
        r == (*a == *b),
{
    let mut i: usize = 0;
    while i < 32
        invariant
            0 <= i <= 32,
            forall|j: int| 0 <= j < i ==> a@[j] == b@[j],
        decreases 32 - i,
    {
        if a[i] != b[i] {
            return false;
        }
        i = i + 1;
    }
    proof {
        assert(a@ =~= b@);
        vstd::array::axiom_array_ext_equal(*a, *b);
    }
    true
}

/// The VID commitment of a block payload (a 32-byte hash).
#[derive(Clone, Copy, Debug, Hash)]
pub struct VidCommitment {
    pub bytes: [u8; 32],
}

impl PartialEq for VidCommitment {
    fn eq(&self, other: &Self) -> (r: bool) {
        digest_eq(&self.bytes, &other.bytes)
    }
}

impl vstd::std_specs::cmp::PartialEqSpecImpl for VidCommitment {
    open spec fn obeys_eq_spec() -> bool {
        true
    }

    open spec fn eq_spec(&self, other: &Self) -> bool {
        *self == *other
    }
}

impl Eq for VidCommitment {

}

impl VidCommitment {
    /// The commitment with every byte zero, used before any block exists.
    pub fn zero() -> (r: Self)
        ensures
            forall|i: int| 0 <= i < 32 ==> r.bytes@[i] == 0u8,
    {
        VidCommitment { bytes: [0u8; 32] }
    }
}

/// The builder commitment of a block payload (a 32-byte hash).
#[derive(Clone, Copy, Debug, Hash)]
pub struct BuilderCommitment {
    pub bytes: [u8; 32],
}

impl PartialEq for BuilderCommitment {
    fn eq(&self, other: &Self) -> (r: bool) {
        digest_eq(&self.bytes, &other.bytes)
    }
}

impl vstd::std_specs::cmp::PartialEqSpecImpl for BuilderCommitment {
    open spec fn obeys_eq_spec() -> bool {
        true
    }

    open spec fn eq_spec(&self, other: &Self) -> bool {
        *self == *other
    }
}

impl Eq for BuilderCommitment {

}

impl BuilderCommitment {
    /// The builder commitment of the bytes `data`: their SHA-256 digest.
    pub fn from_bytes(data: &[u8]) -> (r: Self)
        ensures
            r.bytes@ == sha256(data@),
    {
        BuilderCommitment { bytes: sha256_digest(data) }
    }
}

/// The commitment of a leaf of the HotShot chain (a 32-byte hash).
#[derive(Clone, Copy, Debug, Hash)]
pub struct LeafCommitment {
    pub bytes: [u8; 32],
}

/// Enum to hold the different sources of the transaction
#[derive(Clone, Copy, Debug, PartialEq, Eq, Structural)]
pub enum TransactionSource {
    /// Transaction from private mempool
    Private,
    /// Transaction from public mempool
    Public,
}

/// Receipt information concerning a received transaction of type `Tx`
/// whose commitment has type `C`.
pub struct ReceivedTransaction<Tx, C> {
    /// the transaction
    pub transaction: Tx,
    /// transaction's hash
    pub commit: C,
    /// transaction's esitmated length
    pub min_block_size: u64,
    /// transaction's source
    pub source: TransactionSource,
    /// received time
    pub time_in: Instant,
}

impl<Tx, C> ReceivedTransaction<Tx, C> {
    /// Record `transaction`, with its commitment and estimated length, as
    /// received now from `source`.
    pub fn new(transaction: Tx, commit: C, min_block_size: u64, source: TransactionSource) -> (r:
        Self)
        ensures
            r.transaction == transaction,
            r.commit == commit,
            r.min_block_size == min_block_size,
            r.source == source,
    {
        ReceivedTransaction {
            transaction,
            commit,
            min_block_size,
            source,
            time_in: instant_now(),
        }
    }
}

/// Unique identifier for a block
#[derive(Clone, Copy, Debug, Hash)]
pub struct BlockId {
    /// Block hash
    pub hash: BuilderCommitment,
    /// Block view
    pub view: u64,
}

impl PartialEq for BlockId {
    fn eq(&self, other: &Self) -> (r: bool) {
        self.view == other.view && self.hash == other.hash
    }
}

impl vstd::std_specs::cmp::PartialEqSpecImpl for BlockId {
    open spec fn obeys_eq_spec() -> bool {
        true
    }

    open spec fn eq_spec(&self, other: &Self) -> bool {
        *self == *other
    }
}

impl Eq for BlockId {

}

/// Unique identifier for a builder state
///
/// Builder state is identified by the VID commitment
/// and view of the block it targets to extend, i.e.
/// builder with given state ID assumes blocks/bundles it's building
/// are going to be included immediately after the parent block.
#[derive(Clone, Copy, Debug, Hash)]
pub struct BuilderStateId {
    /// View number of the parent block
    pub parent_view: u64,
    /// VID commitment of the parent block
    pub parent_commitment: VidCommitment,
}

impl PartialEq for BuilderStateId {
    fn eq(&self, other: &Self) -> (r: bool) {
        self.parent_view == other.parent_view && self.parent_commitment == other.parent_commitment
    }
}

impl vstd::std_specs::cmp::PartialEqSpecImpl for BuilderStateId {
    open spec fn obeys_eq_spec() -> bool {
        true
    }

    open spec fn eq_spec(&self, other: &Self) -> bool {
        *self == *other
    }
}

impl Eq for BuilderStateId {

}

/// References to the parent block that is extended to spawn the new builder state.
#[derive(Clone, Copy, Debug)]
pub struct ParentBlockReferences {
    pub view_number: u64,
    pub vid_commitment: VidCommitment,
    pub leaf_commit: LeafCommitment,
    pub builder_commitment: BuilderCommitment,
}

impl ParentBlockReferences {
    /// Mock references for bootstrap, which do not correspond to a real
    /// block: the genesis view, all-zero VID and leaf commitments, and the
    /// builder commitment of 32 zero bytes.
    pub fn bootstrap() -> (r: Self)
        ensures
            r.view_number == 0,
            forall|i: int| 0 <= i < 32 ==> r.vid_commitment.bytes@[i] == 0u8,
            forall|i: int| 0 <= i < 32 ==> r.leaf_commit.bytes@[i] == 0u8,
            r.builder_commitment.bytes@ == sha256(Seq::new(32, |i: int| 0u8)),
    {
        let zeros: [u8; 32] = [0u8; 32];
        proof {
            assert(zeros@ =~= Seq::new(32, |i: int| 0u8));
        }
        ParentBlockReferences {
            view_number: 0,
            vid_commitment: VidCommitment::zero(),
            leaf_commit: LeafCommitment { bytes: [0u8; 32] },
            builder_commitment: BuilderCommitment::from_bytes(&zeros),
        }
    }
}

} // verus!
