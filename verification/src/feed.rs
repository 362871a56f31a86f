//! The live feed of a bucket: a bounded broadcast queue that viewers pull
//! from. The queue itself is tokio's; this module only opens it, offers
//! events to it and asks it how many viewers are attached.

use crate::models::{SseEvent, SseEventView};
use vstd::prelude::*;

verus! {

/// The sending half of tokio's broadcast queue.
#[verifier::external_type_specification]
#[verifier::external_body]
#[verifier::reject_recursive_types(T)]
pub struct ExSender<T>(tokio::sync::broadcast::Sender<T>);

/// The receiving half of tokio's broadcast queue.
#[verifier::external_type_specification]
#[verifier::external_body]
#[verifier::reject_recursive_types(T)]
pub struct ExReceiver<T>(tokio::sync::broadcast::Receiver<T>);

/// How many events the feed keeps in flight before a slow viewer lags.
pub const FEED_CAPACITY: usize = 100;

/// The events that the queue behind `sender` has taken in since it was
/// opened, in the order of their positions in the queue. Only a send that
/// finds a receiver adds to them; receivers read them and never change them.
pub uninterp spec fn feed_taken(sender: tokio::sync::broadcast::Sender<SseEvent>) -> Seq<
    SseEventView,
>;

/// Calls `tokio::sync::broadcast::channel` and keeps the sender; the first
/// receiver is dropped at once, so a new feed has no viewer. The queue starts
/// at position zero, with nothing taken in. The call panics on a capacity of
/// zero or above half of `usize::MAX`, which `requires` leaves out.
#[verifier::external_body]
pub(crate) fn feed_open(capacity: usize) -> (sender: tokio::sync::broadcast::Sender<SseEvent>)
    requires
        0 < capacity <= usize::MAX / 2,
    ensures
        feed_taken(sender) == Seq::<SseEventView>::empty(),
{
    tokio::sync::broadcast::channel(capacity).0
}

/// Calls `Sender::send`. With at least one receiver attached, `send` writes
/// the event at the next position of the queue and returns the number of
/// receivers; with none it hands the event back and the queue stays as it
/// was. The result is that number, zero when there was no receiver. How many
/// receivers are attached depends on who is there at the moment, so nothing
/// more is claimed of the number.
#[verifier::external_body]
pub(crate) fn feed_send(
    sender: &mut tokio::sync::broadcast::Sender<SseEvent>,
    event: SseEvent,
) -> (reached: usize)
    ensures
        feed_taken(*final(sender)) == (if reached > 0 {
            feed_taken(*old(sender)).push(event@)
        } else {
            feed_taken(*old(sender))
        }),
{
    sender.send(event).unwrap_or(0)
}

/// Calls `Sender::subscribe`, which attaches a new receiver that sees the
/// events sent after this call. The queue itself is not written to. Nothing
/// is claimed of the receiver.
#[verifier::external_body]
pub(crate) fn feed_attach(sender: &tokio::sync::broadcast::Sender<SseEvent>) -> (receiver:
    tokio::sync::broadcast::Receiver<SseEvent>) {
    sender.subscribe()
}

/// Calls `Sender::receiver_count`: the receivers attached right now.
/// It changes whenever a viewer comes or goes, so nothing is claimed of it.
#[verifier::external_body]
pub(crate) fn feed_receiver_count(sender: &tokio::sync::broadcast::Sender<SseEvent>) -> (count:
    usize) {
    sender.receiver_count()
}

} // verus!
