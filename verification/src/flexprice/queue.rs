//! The bounded queue of usage events.

use vstd::prelude::*;

use tokio::sync::mpsc;

use super::client::{Offered, UsageEvent};

verus! {

/// `tokio::sync::mpsc::Sender`, the sending end of a bounded queue.
#[verifier::external_type_specification]
#[verifier::external_body]
#[verifier::reject_recursive_types(T)]
pub struct ExSender<T>(tokio::sync::mpsc::Sender<T>);

/// `tokio::sync::mpsc::Receiver`, the receiving end of a bounded queue.
#[verifier::external_type_specification]
#[verifier::external_body]
#[verifier::reject_recursive_types(T)]
pub struct ExReceiver<T>(tokio::sync::mpsc::Receiver<T>);

/// The events that a queue has taken through this sender, first to last.
pub uninterp spec fn taken(tx: mpsc::Sender<UsageEvent>) -> Seq<UsageEvent>;

/// The events that were offered to a queue through this sender, first to last.
pub uninterp spec fn offered(tx: mpsc::Sender<UsageEvent>) -> Seq<UsageEvent>;

/// How many events wait in the queue of this sender at most.
pub uninterp spec fn bound(tx: mpsc::Sender<UsageEvent>) -> nat;

/// These are the two ends of one queue.
pub uninterp spec fn connected(
    tx: mpsc::Sender<UsageEvent>,
    rx: mpsc::Receiver<UsageEvent>,
) -> bool;

/// The only sender of a queue: it is made together with its queue and never
/// copied, and no room in the queue is reserved through it.
pub struct EventSender {
    tx: mpsc::Sender<UsageEvent>,
}

/// `tokio::sync::mpsc::channel` makes a queue without events that holds up to
/// `size` of them, and returns its two ends. It panics on a size of zero and on
/// one above an eighth of the largest `usize`.
#[verifier::external_body]
fn channel(size: usize) -> (r: (EventSender, mpsc::Receiver<UsageEvent>))
    requires
        0 < size <= usize::MAX / 8,
    ensures
        taken(r.0.tx) == Seq::<UsageEvent>::empty(),
        offered(r.0.tx) == Seq::<UsageEvent>::empty(),
        bound(r.0.tx) == size,
        connected(r.0.tx, r.1),
{
    let (tx, rx) = mpsc::channel(size);
    (EventSender { tx }, rx)
}

/// `tokio::sync::mpsc::Sender::try_send` puts an event into the queue, or hands
/// it back where the queue is full or the receiving end is gone. As an
/// `EventSender` is the only sender of its queue, the queue is full only after it
/// has taken as many events as it holds. Whether the receiver has taken some out
/// again, or is gone, is left open.
#[verifier::external_body]
fn try_send(sender: &mut EventSender, event: UsageEvent) -> (r: Offered)
    ensures
        offered(final(sender).tx) == offered(old(sender).tx).push(event),
        bound(final(sender).tx) == bound(old(sender).tx),
        forall|rx: mpsc::Receiver<UsageEvent>| #[trigger]
            connected(final(sender).tx, rx) == connected(old(sender).tx, rx),
        match r {
            Offered::Queued => taken(final(sender).tx) == taken(old(sender).tx).push(event),
            Offered::Full(e) => e == event && taken(final(sender).tx) == taken(old(sender).tx)
                && taken(old(sender).tx).len() >= bound(old(sender).tx),
            Offered::Closed(e) => e == event && taken(final(sender).tx) == taken(old(sender).tx),
        },
{
    match sender.tx.try_send(event) {
        Ok(()) => Offered::Queued,
        Err(mpsc::error::TrySendError::Full(e)) => Offered::Full(e),
        Err(mpsc::error::TrySendError::Closed(e)) => Offered::Closed(e),
    }
}

impl EventSender {
    /// The events that the queue has taken, first to last.
    pub closed spec fn queued(&self) -> Seq<UsageEvent> {
        taken(self.tx)
    }

    /// The events that were offered to the queue, first to last.
    pub closed spec fn offered(&self) -> Seq<UsageEvent> {
        offered(self.tx)
    }

    /// How many events wait in the queue at most.
    pub closed spec fn capacity(&self) -> nat {
        bound(self.tx)
    }

    /// `rx` is the receiving end of the queue.
    pub closed spec fn feeds(&self, rx: mpsc::Receiver<UsageEvent>) -> bool {
        connected(self.tx, rx)
    }

    /// A queue that holds up to `size` events, by its two ends.
    pub fn new(size: usize) -> (r: (EventSender, mpsc::Receiver<UsageEvent>))
        requires
            0 < size <= usize::MAX / 8,
        ensures
            r.0.queued() == Seq::<UsageEvent>::empty(),
            r.0.offered() == Seq::<UsageEvent>::empty(),
            r.0.capacity() == size,
            r.0.feeds(r.1),
    {
        channel(size)
    }

    /// Offers an event to the queue.
    pub fn offer(&mut self, event: UsageEvent) -> (r: Offered)
        ensures
            final(self).offered() == old(self).offered().push(event),
            final(self).capacity() == old(self).capacity(),
            forall|rx: mpsc::Receiver<UsageEvent>| #[trigger]
                final(self).feeds(rx) == old(self).feeds(rx),
            match r {
                Offered::Queued => final(self).queued() == old(self).queued().push(event),
                Offered::Full(e) => e == event && final(self).queued() == old(self).queued()
                    && old(self).queued().len() >= old(self).capacity(),
                Offered::Closed(e) => e == event && final(self).queued() == old(self).queued(),
            },
    {
        try_send(self, event)
    }
}

} // verus!
