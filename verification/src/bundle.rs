//! Serving a bundle of transactions to a proposer: which builder state
//! answers the request, when the request is given up, and what the bundle
//! signature covers.
use vstd::prelude::*;

use crate::block::BuilderStateId;
use crate::block::VidCommitment;
use crate::service::error_message;
use crate::service::BuildError;
use crate::service::GlobalState;

verus! {

/// The message answered to a bundle request for a view that was already
/// decided and garbage-collected.
pub open spec fn decided_view_message() -> Seq<char> {
    "Request for a bundle for a view that has already been decided."@
}

/// What went wrong once the builder state was asked for a bundle.
#[derive(Debug)]
pub enum BundleFailure {
    /// The request could not be sent to the builder state.
    RequestFailed,
    /// No response came before the time allotted to the request ran out.
    ResponseTimedOut,
    /// The response channel closed before a response came.
    ChannelClosed,
}

/// The error answered for a failed bundle request.
pub fn bundle_failure_error(f: BundleFailure) -> (r: BuildError)
    ensures
        match f {
            BundleFailure::RequestFailed => error_message(r) == Some("Error requesting bundle"@),
            BundleFailure::ResponseTimedOut => r is NotFound,
            BundleFailure::ChannelClosed => error_message(r) == Some(
                "Channel closed while waiting for bundle"@,
            ),
        },
{
    match f {
        BundleFailure::RequestFailed => BuildError::Error {
            message: "Error requesting bundle".to_string(),
        },
        BundleFailure::ResponseTimedOut => BuildError::NotFound,
        BundleFailure::ChannelClosed => BuildError::Error {
            message: "Channel closed while waiting for bundle".to_string(),
        },
    }
}

/// The bytes a bundle signature covers: the transaction commitments, one
/// after the other.
pub open spec fn flatten_commitments(s: Seq<[u8; 32]>) -> Seq<u8>
    decreases s.len(),
{
    if s.len() == 0 {
        Seq::empty()
    } else {
        flatten_commitments(s.drop_last()) + s.last()@
    }
}

/// Lay the commitments of a bundle's transactions out one after the other,
/// as the bundle signature covers them.
pub fn bundle_commitments(commits: &Vec<[u8; 32]>) -> (r: Vec<u8>)
    ensures
        r@ == flatten_commitments(commits@),
{
    let mut r: Vec<u8> = Vec::new();
    let mut i: usize = 0;
    while i < commits.len()
        invariant
            i <= commits@.len(),
            r@ == flatten_commitments(commits@.take(i as int)),
        decreases commits@.len() - i,
    {
        let c: [u8; 32] = commits[i];
        let ghost before = r@;
        let mut j: usize = 0;
        while j < 32
            invariant
                j <= 32,
                c@.len() == 32,
                r@ == before + c@.take(j as int),
            decreases 32 - j,
        {
            r.push(c[j]);
            proof {
                assert(c@.take(j + 1) =~= c@.take(j as int).push(c@[j as int]));
            }
            j = j + 1;
        }
        proof {
            assert(c@.take(32) =~= c@);
            assert(commits@.take(i + 1).drop_last() =~= commits@.take(i as int));
            assert(commits@.take(i + 1).last() == c);
        }
        i = i + 1;
    }
    proof {
        assert(commits@.take(commits@.len() as int) =~= commits@);
    }
    r
}

/// What a builder state answers to a bundle request: the fee it offers and
/// the transactions of the bundle.
pub struct BundleResponse<Tx> {
    pub offered_fee: u64,
    pub transactions: Vec<Tx>,
}

/// A request to a builder state for a bundle, with the channel to answer on.
#[derive(Clone)]
pub struct RequestMessage<R> {
    pub requested_view_number: u64,
    pub response_channel: R,
}

/// The fee a bundle pays for sequencing, with the account it is paid from
/// and the builder's signature over it.
pub struct BuilderFee<K, S> {
    pub fee_amount: u64,
    pub fee_account: K,
    pub fee_signature: S,
}

/// A bundle of transactions, with its fee and the builder's signature over
/// the transactions' commitments.
pub struct Bundle<Tx, K, S> {
    pub sequencing_fee: BuilderFee<K, S>,
    pub transactions: Vec<Tx>,
    pub signature: S,
}

/// The request sent to the builder state for a bundle built on a block of
/// view `parent_view`, to be answered on `response_channel`.
pub fn bundle_request<R>(parent_view: u64, response_channel: R) -> (r: RequestMessage<R>)
    ensures
        r.requested_view_number == parent_view,
        r.response_channel == response_channel,
{
    RequestMessage { requested_view_number: parent_view, response_channel }
}

/// The bundle served from a builder state's response: the response's
/// transactions, in order, and its offered fee, paid from `fee_account`
/// under `fee_signature`, with `signature` over the transactions'
/// commitments.
pub fn assemble_bundle<Tx, K, S>(
    response: BundleResponse<Tx>,
    fee_account: K,
    fee_signature: S,
    signature: S,
) -> (b: Bundle<Tx, K, S>)
    ensures
        b.transactions@ == response.transactions@,
        b.sequencing_fee.fee_amount == response.offered_fee,
        b.sequencing_fee.fee_account == fee_account,
        b.sequencing_fee.fee_signature == fee_signature,
        b.signature == signature,
{
    Bundle {
        sequencing_fee: BuilderFee { fee_amount: response.offered_fee, fee_account, fee_signature },
        transactions: response.transactions,
        signature,
    }
}

impl<S, M, Tx: Clone, C: Copy + Clone> GlobalState<S, M, Tx, C> {
    /// A bundle requested for `parent_view` is for a view already decided:
    /// the view was garbage-collected, and the service is not bootstrapping
    /// (at bootstrap, and never after, the highest builder state's view is
    /// the last garbage-collected one).
    pub open spec fn decided_for_bundle(&self, parent_view: u64) -> bool {
        &&& parent_view <= self.last_garbage_collected_view_num
        &&& self.highest_view_num_builder_id.parent_view != self.last_garbage_collected_view_num
    }

    /// One look for the builder state that serves a bundle built on the
    /// block `parent_hash` of view `parent_view`: `Ok(Some(s))` asks the state
    /// `s`; `Ok(None)` says it is not there yet and the caller should look
    /// again later; an error ends the request, because its time ran out
    /// (`timed_out`) or the view is already decided. Only a view at or below
    /// the last garbage-collected one, outside bootstrap, is refused as
    /// decided: a state for a later view may still appear.
    pub fn bundle_lookup(&self, timed_out: bool, parent_view: u64, parent_hash: VidCommitment) -> (r:
        Result<Option<&S>, BuildError>)
        requires
            self.wf(),
        ensures
            ({
                let id = BuilderStateId { parent_view, parent_commitment: parent_hash };
                let states = self.spawned_builder_states.map();
                &&& timed_out ==> (r matches Err(BuildError::NotFound))
                &&& !timed_out && states.contains_key(id) ==> r == Ok::<Option<&S>, BuildError>(
                    Some(&states[id]),
                )
                &&& !timed_out && !states.contains_key(id) && self.decided_for_bundle(parent_view)
                    ==> (r matches Err(e) && error_message(e) == Some(decided_view_message()))
                &&& !timed_out && !states.contains_key(id) && !self.decided_for_bundle(parent_view)
                    ==> r == Ok::<Option<&S>, BuildError>(None)
            }),
            !timed_out && parent_view > self.last_garbage_collected_view_num ==> r is Ok,
            !timed_out && self.highest_view_num_builder_id.parent_view
                == self.last_garbage_collected_view_num ==> r is Ok,
            r is Err ==> timed_out || parent_view <= self.last_garbage_collected_view_num,
    {
        if timed_out {
            return Err(BuildError::NotFound);
        }
        let state_id = BuilderStateId { parent_view, parent_commitment: parent_hash };
        match self.spawned_builder_states.get(&state_id) {
            Some(sender) => Ok(Some(sender)),
            None => {
                let past_gc = parent_view <= self.last_garbage_collected_view_num;
                let is_bootstrapping = self.highest_view_num_builder_id.parent_view
                    == self.last_garbage_collected_view_num;
                if past_gc && !is_bootstrapping {
                    Err(
                        BuildError::Error {
                            message: "Request for a bundle for a view that has already been decided.".to_string(),
                        },
                    )
                } else {
                    Ok(None)
                }
            },
        }
    }
}

} // verus!
