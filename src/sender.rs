use std::sync::Arc;
use vstd::prelude::*;

use crate::error::SendError;
use crate::model::ChannelModel;
use crate::receiver::Receiver;
use crate::shared::{registered_in, Shared};

verus! {

/// A producer handle: publishes values to every attached consumer.
pub struct Sender<T: Clone> {
    shared: Arc<Shared<T>>,
}

impl<T: Clone> Sender<T> {
    /// Attaches a new producer to `shared`.
    pub(crate) fn new(shared: Arc<Shared<T>>) -> Self {
        shared.add_writer();
        Sender { shared }
    }

    /// An inspector of the shared state.
    pub fn debugger(&self) -> crate::debug::Debug<T> {
        crate::debug::Debug { shared: Arc::clone(&self.shared) }
    }

    /// A new consumer that receives the values sent from now on.
    pub fn spawn_rx(&self) -> (r: Receiver<T>)
        ensures
            exists|m: ChannelModel<T>| m.inv() && #[trigger] registered_in(m, r.entry()),
    {
        Receiver::new(Arc::clone(&self.shared))
    }

    /// Sends `value` to every attached consumer without waiting.
    ///
    /// # Errors
    /// - `Disconnected(value)` if no consumer is attached;
    /// - `Full(value)` if some consumer still has `capacity` values to read.
    pub fn send(&self, value: T) -> (r: Result<(), SendError<T>>)
        ensures
            exists|m: ChannelModel<T>| m.inv() && r == m.send_result(value),
    {
        self.shared.send(value)
    }

    /// Detaches this producer; once the last one is gone, consumers that have
    /// read everything see `Disconnected`. Dropping the handle does not detach it.
    pub fn close(self) {
        self.shared.remove_writer();
    }
}

impl<T: Clone> Clone for Sender<T> {
    /// Another producer handle for the same channel.
    fn clone(&self) -> Self {
        Sender::new(Arc::clone(&self.shared))
    }
}

/// A channel of `capacity` values with one producer and one consumer.
pub fn channel<T: Clone>(capacity: usize) -> (r: (Sender<T>, Receiver<T>))
    requires
        1 <= capacity < usize::MAX,
    ensures
        exists|m: ChannelModel<T>| m.inv() && #[trigger] registered_in(m, r.1.entry()),
{
    let shared = Arc::new(Shared::new(capacity));
    let sender = Sender::new(Arc::clone(&shared));
    let receiver = Receiver::new(shared);
    (sender, receiver)
}

} // verus!
