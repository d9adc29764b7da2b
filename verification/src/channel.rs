//! The delivery channel between the registry and one consumer.
//!
//! Each subscription delivers through the sender half of an unbounded
//! mpsc channel owned by its consumer. The channel's readiness and wake
//! behaviour belongs to the channel crate; the library states here only
//! what holds of every outcome of a call.

use vstd::prelude::*;
use futures::channel::mpsc::{TryRecvError, UnboundedReceiver, UnboundedSender};
use crate::events::EventHandle;

verus! {

#[verifier::external_type_specification]
#[verifier::external_body]
#[verifier::reject_recursive_types(T)]
pub struct ExUnboundedSender<T>(UnboundedSender<T>);

#[verifier::external_type_specification]
#[verifier::external_body]
#[verifier::reject_recursive_types(T)]
pub struct ExUnboundedReceiver<T>(UnboundedReceiver<T>);

/// One step of pulling from a delivery channel.
pub enum ChannelNext {
    /// A message was fetched.
    Item(EventHandle),
    /// The channel is closed and no messages are left: the sequence ends.
    Ended,
    /// No message is available right now, but the channel is still open.
    Empty,
}

/// Relies on `futures::channel::mpsc::UnboundedSender::is_closed`: true
/// exactly when the channel is closed (in particular when the receiver
/// was dropped). The channel's state is not modelled, so nothing is
/// claimed of the result.
#[verifier::external_body]
pub(crate) fn sender_is_closed(tx: &UnboundedSender<EventHandle>) -> bool {
    tx.is_closed()
}

/// Relies on `futures::channel::mpsc::UnboundedSender::unbounded_send`:
/// the channel is unbounded, so the send fails only when the channel is
/// closed; on failure the message is dropped, as a send to a
/// disconnected consumer would be.
#[verifier::external_body]
pub(crate) fn send_event(tx: &UnboundedSender<EventHandle>, ev: EventHandle) -> bool {
    tx.unbounded_send(ev).is_ok()
}

/// Relies on `futures::channel::mpsc::UnboundedReceiver::try_recv`:
/// `Ok` fetches the next message, `Err(Closed)` reports the channel
/// closed and empty, `Err(Empty)` reports no message available yet.
#[verifier::external_body]
pub(crate) fn channel_next(rx: &mut UnboundedReceiver<EventHandle>) -> ChannelNext {
    match rx.try_recv() {
        Ok(ev) => ChannelNext::Item(ev),
        Err(TryRecvError::Closed) => ChannelNext::Ended,
        Err(TryRecvError::Empty) => ChannelNext::Empty,
    }
}

} // verus!
