use std::sync::Arc;
use vstd::prelude::*;

use crate::error::SendError;
use crate::model::ChannelModel;
use crate::receiver::Receiver;
use crate::shared::{registered_in, Shared};

verus! {

/// A producer handle that also creates the channel: consumers are spawned from it.
pub struct Channel<T: Clone> {
    shared: Arc<Shared<T>>,
}

impl<T: Clone> Channel<T> {
    /// A channel of `capacity` values with this one producer and no consumer.
    pub fn new(capacity: usize) -> Self
        requires
            1 <= capacity < usize::MAX,
    {
        let shared = Arc::new(Shared::new(capacity));
        Self::from_shared_state(shared)
    }

    /// Attaches a new producer to `shared`.
    pub(crate) fn from_shared_state(shared: Arc<Shared<T>>) -> Self {
        shared.add_writer();
        Channel { shared }
    }

    /// An inspector of the shared state.
    pub fn debugger(&self) -> crate::debug::Debug<T> {
        crate::debug::Debug { shared: Arc::clone(&self.shared) }
    }

    /// A new consumer that receives the values sent from now on.
    pub fn spawn_rx(&self) -> (r: Receiver<T>)
        ensures
            exists|m: ChannelModel<T>| m.inv() && #[trigger] registered_in(m, r.entry()),
    {
        Receiver::new(Arc::clone(&self.shared))
    }

    /// Sends `value` to every attached consumer without waiting.
    ///
    /// # Errors
    /// - `Disconnected(value)` if no consumer is attached;
    /// - `Full(value)` if some consumer still has `capacity` values to read.
    pub fn send(&self, value: T) -> (r: Result<(), SendError<T>>)
        ensures
            exists|m: ChannelModel<T>| m.inv() && r == m.send_result(value),
    {
        self.shared.send(value)
    }

    /// Detaches this producer; once the last one is gone, consumers that have
    /// read everything see `Disconnected`. Dropping the handle does not detach it.
    pub fn close(self) {
        self.shared.remove_writer();
    }
}

impl<T: Clone> Clone for Channel<T> {
    /// Another producer handle for the same channel.
    fn clone(&self) -> Self {
        Self::from_shared_state(Arc::clone(&self.shared))
    }
}

} // verus!
