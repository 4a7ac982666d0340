//! A value that is received once from a channel and kept from then on.
use vstd::prelude::*;

use crate::service::error_message;
use crate::service::BuildError;

verus! {

/// A value of type `T` that is either kept already or still to be received
/// through `R`, the receiving end of a channel that delivers it once.
#[derive(Debug)]
pub enum WaitAndKeep<T, R> {
    Keep(T),
    Wait(R),
}

/// Why a value could not be received.
#[derive(Debug)]
pub enum WaitAndKeepGetError {
    /// The channel closed before it delivered the value.
    FailedToResolvedVidCommitmentFromChannel,
}

impl WaitAndKeepGetError {
    /// The error a builder API request answers when the value it needed
    /// could not be received.
    pub fn build_error(self) -> (r: BuildError)
        ensures
            error_message(r) == Some("failed to resolve VidCommitment from channel"@),
    {
        match self {
            WaitAndKeepGetError::FailedToResolvedVidCommitmentFromChannel => BuildError::Error {
                message: "failed to resolve VidCommitment from channel".to_string(),
            },
        }
    }
}

impl<T: Clone, R> WaitAndKeep<T, R> {
    /// Waits for `receiver` to deliver the value.
    pub fn new(receiver: R) -> (r: Self)
        ensures
            r == WaitAndKeep::<T, R>::Wait(receiver),
    {
        WaitAndKeep::Wait(receiver)
    }

    /// A clone of the kept value, if it was received already; `None` says
    /// that the receiver must be waited on.
    pub fn kept(&self) -> (r: Option<T>)
        ensures
            match *self {
                WaitAndKeep::Keep(t) => r matches Some(c) && cloned(t, c),
                WaitAndKeep::Wait(_) => r is None,
            },
    {
        match self {
            WaitAndKeep::Keep(t) => Some(t.clone()),
            WaitAndKeep::Wait(_) => None,
        }
    }

    /// Record what waiting on the receiver gave: `Some(v)` when it delivered
    /// `v`, which is then kept (as a clone) and handed back; `None` when the
    /// channel closed first, which is an error and leaves the value to wait for.
    pub fn resolve(&mut self, received: Option<T>) -> (r: Result<T, WaitAndKeepGetError>)
        requires
            *old(self) is Wait,
        ensures
            match received {
                Some(v) => {
                    &&& r == Ok::<T, WaitAndKeepGetError>(v)
                    &&& *final(self) matches WaitAndKeep::Keep(k) && cloned(v, k)
                },
                None => {
                    &&& r matches Err(WaitAndKeepGetError::FailedToResolvedVidCommitmentFromChannel)
                    &&& *final(self) == *old(self)
                },
            },
    {
        match received {
            Some(got) => {
                let kept = got.clone();
                *self = WaitAndKeep::Keep(kept);
                Ok(got)
            },
            None => Err(WaitAndKeepGetError::FailedToResolvedVidCommitmentFromChannel),
        }
    }
}

} // verus!
