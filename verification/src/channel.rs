//! The broadcast channels that carry transactions to builder states.
use async_broadcast::Receiver;
use async_broadcast::Sender;
use async_broadcast::TryRecvError;
use async_broadcast::TrySendError;

use vstd::prelude::*;

verus! {

/// `async_broadcast::Receiver`, the receiving end of a broadcast channel.
#[verifier::external_type_specification]
#[verifier::external_body]
#[verifier::reject_recursive_types(T)]
pub struct ExReceiver<T>(Receiver<T>);

/// `async_broadcast::Sender`, the sending end of a broadcast channel.
#[verifier::external_type_specification]
#[verifier::external_body]
#[verifier::reject_recursive_types(T)]
pub struct ExSender<T>(Sender<T>);

/// What one attempt to take a message from a channel gave.
#[derive(Debug)]
pub enum TryRecvOutcome<T> {
    /// A message.
    Received(T),
    /// The channel is empty but not closed.
    Empty,
    /// The channel is empty and closed.
    Closed,
    /// The channel overflowed since the last message seen; that many were lost.
    Overflowed(u64),
}

/// What one attempt to put a message into a channel gave.
#[derive(Debug)]
pub enum TrySendOutcome<T> {
    /// The message was queued; in overflow mode the oldest message may have been evicted.
    Sent(Option<T>),
    /// The channel is full but not closed.
    Full(T),
    /// The channel is closed.
    Closed(T),
    /// There are no active receivers.
    Inactive(T),
}

/// `async_broadcast::Receiver::try_recv`: take the next message without waiting.
/// What comes back depends on what other tasks sent, so nothing is promised of it.
#[verifier::external_body]
pub(crate) fn try_receive<T: Clone>(receiver: &mut Receiver<T>) -> TryRecvOutcome<T> {
    match receiver.try_recv() {
        Ok(t) => TryRecvOutcome::Received(t),
        Err(TryRecvError::Empty) => TryRecvOutcome::Empty,
        Err(TryRecvError::Closed) => TryRecvOutcome::Closed,
        Err(TryRecvError::Overflowed(n)) => TryRecvOutcome::Overflowed(n),
    }
}

/// Whether `outcome` of offering `msg` to a channel hands `msg` back when it
/// refuses it.
pub open spec fn hands_back<T>(outcome: TrySendOutcome<T>, msg: T) -> bool {
    match outcome {
        TrySendOutcome::Sent(_) => true,
        TrySendOutcome::Full(m) => m == msg,
        TrySendOutcome::Closed(m) => m == msg,
        TrySendOutcome::Inactive(m) => m == msg,
    }
}

/// `async_broadcast::Sender::try_broadcast`: queue `msg` without waiting.
/// Whether it is queued depends on the state of the channel; a refusal
/// (full, closed, or no active receiver) hands `msg` back.
#[verifier::external_body]
pub(crate) fn try_send<T: Clone>(sender: &Sender<T>, msg: T) -> (r: TrySendOutcome<T>)
    ensures
        hands_back(r, msg),
{
    match sender.try_broadcast(msg) {
        Ok(evicted) => TrySendOutcome::Sent(evicted),
        Err(TrySendError::Full(m)) => TrySendOutcome::Full(m),
        Err(TrySendError::Closed(m)) => TrySendOutcome::Closed(m),
        Err(TrySendError::Inactive(m)) => TrySendOutcome::Inactive(m),
    }
}

/// `async_broadcast::Receiver::clone`: a receiver with the same messages queued.
#[verifier::external_body]
pub(crate) fn clone_receiver<T>(receiver: &Receiver<T>) -> Receiver<T> {
    receiver.clone()
}

} // verus!
