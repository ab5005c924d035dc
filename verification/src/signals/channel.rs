//! The unbounded channels that carry a mutable vector's changes to each of
//! its signals.
use vstd::prelude::*;
use futures::channel::mpsc::{UnboundedReceiver, UnboundedSender};

verus! {

/// The sending half of an unbounded channel of the `futures` crate.
#[verifier::external_type_specification]
#[verifier::external_body]
#[verifier::reject_recursive_types(T)]
pub struct ExUnboundedSender<T>(UnboundedSender<T>);

/// The receiving half of an unbounded channel of the `futures` crate.
#[verifier::external_type_specification]
#[verifier::external_body]
#[verifier::reject_recursive_types(T)]
pub struct ExUnboundedReceiver<T>(UnboundedReceiver<T>);

/// Calls `futures::channel::mpsc::unbounded`, which makes a fresh channel
/// whose two halves are connected. Nothing is claimed of the two halves:
/// Verus sees them as opaque.
#[verifier::external_body]
pub(crate) fn unbounded_channel<T>() -> (UnboundedSender<T>, UnboundedReceiver<T>) {
    futures::channel::mpsc::unbounded()
}

/// Calls `UnboundedSender::unbounded_send`, which queues `msg` for the
/// receiver, and reports whether it did. Whether it succeeds depends on
/// whether the receiving half still exists, which nothing here can see, so
/// the result is left free. (The crate's source also aborts once the queue
/// holds more messages than its state can count, a bound that memory runs
/// out long before.)
#[verifier::external_body]
pub(crate) fn send<T>(sender: &UnboundedSender<T>, msg: T) -> (ok: bool) {
    sender.unbounded_send(msg).is_ok()
}

/// Calls `UnboundedReceiver::try_next`, which takes the next queued message
/// without waiting: `Some(Some(m))` for a message, `Some(None)` where the
/// channel is closed and empty, `None` where it is empty but open. What comes
/// back depends on what the senders did, so nothing is claimed of it.
#[verifier::external_body]
#[allow(deprecated)]
pub(crate) fn try_next<T>(receiver: &mut UnboundedReceiver<T>) -> Option<Option<T>> {
    receiver.try_next().ok()
}

} // verus!
