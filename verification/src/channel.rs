//! Thin channel handles around tokio's broadcast and mpsc channels: the
//! broadcast topics of the data bus and the signal/decision queues. Only
//! creation, sending and subscribing happen here; receiving suspends and so
//! belongs to the async shell around the library.
use vstd::prelude::*;

use tokio::sync::broadcast;
use tokio::sync::mpsc;

verus! {

#[verifier::external_type_specification]
#[verifier::external_body]
#[verifier::reject_recursive_types(T)]
pub struct ExBroadcastSender<T>(broadcast::Sender<T>);

#[verifier::external_type_specification]
#[verifier::external_body]
#[verifier::reject_recursive_types(T)]
pub struct ExBroadcastReceiver<T>(broadcast::Receiver<T>);

#[verifier::external_type_specification]
#[verifier::external_body]
#[verifier::reject_recursive_types(T)]
pub struct ExUnboundedSender<T>(mpsc::UnboundedSender<T>);

#[verifier::external_type_specification]
#[verifier::external_body]
#[verifier::reject_recursive_types(T)]
pub struct ExUnboundedReceiver<T>(mpsc::UnboundedReceiver<T>);

/// How many pending events a topic buffers for a slow subscriber before it
/// starts dropping the oldest; a subscriber that falls behind sees a gap,
/// the publisher never blocks.
pub const TOPIC_CAPACITY: usize = 1024;

/// An unbounded multi-producer single-consumer queue: many tasks feed it,
/// one task drains it.
#[verifier::reject_recursive_types(T)]
pub struct Mpsc<T> {
    pub tx: mpsc::UnboundedSender<T>,
    pub rx: Option<mpsc::UnboundedReceiver<T>>,
}

impl<T> Default for Mpsc<T> {
    /// Relies on tokio's mpsc::unbounded_channel: a fresh connected
    /// sender/receiver pair, so the receiving half is present until taken.
    #[verifier::external_body]
    fn default() -> (r: Self)
        ensures
            r.rx is Some,
    {
        let (tx, rx) = mpsc::unbounded_channel();
        Mpsc { tx, rx: Some(rx) }
    }
}

impl<T> Mpsc<T> {
    /// Relies on tokio's mpsc::UnboundedSender::send: never blocks; hands
    /// the value back when the receiving half is gone.
    #[verifier::external_body]
    pub fn send(&self, value: T) -> Result<(), T> {
        match self.tx.send(value) {
            Ok(()) => Ok(()),
            Err(e) => Err(e.0),
        }
    }

    /// Relies on tokio's mpsc::UnboundedSender::clone: another handle to
    /// the same queue.
    #[verifier::external_body]
    pub fn sender(&self) -> mpsc::UnboundedSender<T> {
        self.tx.clone()
    }

    /// Hands the receiving half out, once, to the one task that drains the
    /// queue.
    pub fn take_receiver(&mut self) -> (r: Option<mpsc::UnboundedReceiver<T>>)
        ensures
            r == old(self).rx,
            final(self).rx is None,
            final(self).tx == old(self).tx,
    {
        self.rx.take()
    }
}

/// One broadcast topic: a bounded fan-out channel with one producer and any
/// number of independent subscribers.
#[verifier::reject_recursive_types(T)]
pub struct Broadcast<T: Clone> {
    pub tx: broadcast::Sender<T>,
}

impl<T: Clone> Default for Broadcast<T> {
    /// Relies on tokio's broadcast::channel: a fresh topic buffering
    /// `TOPIC_CAPACITY` events per subscriber. The capacity is neither zero
    /// nor above the half of the address space that the channel refuses, so
    /// the call cannot panic.
    #[verifier::external_body]
    fn default() -> Self {
        let (tx, _rx) = broadcast::channel(TOPIC_CAPACITY);
        Broadcast { tx }
    }
}

impl<T: Clone> Broadcast<T> {
    /// Relies on tokio's broadcast::Sender::send: never blocks; enqueues to
    /// every current subscriber, dropping each subscriber's oldest entries
    /// on overflow rather than waiting; hands the value back when there is
    /// no subscriber at all.
    #[verifier::external_body]
    pub fn send(&self, value: T) -> Result<usize, T> {
        match self.tx.send(value) {
            Ok(n) => Ok(n),
            Err(e) => Err(e.0),
        }
    }

    /// Relies on tokio's broadcast::Sender::subscribe: a fresh independent
    /// subscription that observes events published after this call, in
    /// publish order.
    #[verifier::external_body]
    pub fn subscribe(&self) -> broadcast::Receiver<T> {
        self.tx.subscribe()
    }
}

} // verus!
