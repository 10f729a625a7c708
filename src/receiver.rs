use std::sync::Arc;
use vstd::prelude::*;

use crate::error::{InnerRecvError, TryRecvError};
use crate::model::ChannelModel;
use crate::sender::Sender;
use crate::shared::{received_from, registered_in, Shared};

verus! {

pub open spec fn try_recv_error_spec(e: InnerRecvError) -> TryRecvError {
    match e {
        InnerRecvError::Disconnected => TryRecvError::Disconnected,
        InnerRecvError::Empty => TryRecvError::Empty,
    }
}

/// `r` is what a non-blocking receive by consumer `id` reports on `m`, up to
/// cloning the value.
pub open spec fn try_received_from<T: Clone>(m: ChannelModel<T>, id: int, r: Result<T, TryRecvError>) -> bool {
    match r {
        Ok(v) => m.recv_outcome(id) matches Ok(w) && cloned(w, v),
        Err(e) => m.recv_outcome(id) matches Err(f) && e == try_recv_error_spec(f),
    }
}

/// Maps the outcome of one receive step to what a non-blocking receive reports.
#[verifier::when_used_as_spec(try_recv_error_spec)]
pub fn try_recv_error(e: InnerRecvError) -> (r: TryRecvError)
    ensures
        r == try_recv_error_spec(e),
{
    match e {
        InnerRecvError::Disconnected => TryRecvError::Disconnected,
        InnerRecvError::Empty => TryRecvError::Empty,
    }
}

/// A consumer handle: receives every value published after it attached, in
/// publication order, each exactly once.
///
/// A consumer that stops reading holds back every producer once it has
/// `capacity` values outstanding. Dropping the handle does not detach it:
/// call [`Receiver::close`].
pub struct Receiver<T: Clone> {
    pub(crate) shared: Arc<Shared<T>>,
    /// Entry of this consumer in the shared registry; `None` when it could not register.
    pub(crate) id: Option<usize>,
}

impl<T: Clone> Receiver<T> {
    /// Entry of this consumer in the shared registry, if it got one.
    pub closed spec fn entry(&self) -> Option<usize> {
        self.id
    }

    /// Attaches a new consumer to `shared`, starting at the current tail: its
    /// entry is the first free one of the state the lock held.
    pub(crate) fn new(shared: Arc<Shared<T>>) -> (r: Self)
        ensures
            exists|m: ChannelModel<T>| m.inv() && #[trigger] registered_in(m, r.entry()),
    {
        let id = shared.add_reader();
        Receiver { shared, id }
    }

    /// A new producer handle for the same channel.
    pub fn spawn_tx(&self) -> Sender<T> {
        Sender::new(Arc::clone(&self.shared))
    }

    /// Takes the next value for this consumer without waiting.
    ///
    /// # Errors
    /// - `Empty` if no new value is there and producers remain;
    /// - `Disconnected` once no producer remains and every value was read.
    pub fn try_recv(&mut self) -> (r: Result<T, TryRecvError>)
        ensures
            final(self).entry() == old(self).entry(),
            old(self).entry() is None ==> r == Err::<T, _>(TryRecvError::Disconnected),
            old(self).entry() matches Some(id) ==> exists|m: ChannelModel<T>|
                m.inv() && #[trigger] try_received_from(m, id as int, r),
    {
        match self.id {
            Some(id) => {
                let r = self.shared.recv(id);
                let ghost m = choose|m: ChannelModel<T>| m.inv() && received_from(m, id as int, r);
                let out = match r {
                    Ok(v) => Ok(v),
                    Err(e) => Err(try_recv_error(e)),
                };
                assert(try_received_from(m, id as int, out));
                out
            },
            None => Err(TryRecvError::Disconnected),
        }
    }

    /// Detaches this consumer: the values it has not read count as read, so
    /// producers are not held back by it, and it no longer counts as attached.
    pub fn close(self) {
        if let Some(id) = self.id {
            self.shared.remove_reader(id);
        }
    }
}

impl<T: Clone> Clone for Receiver<T> {
    /// A sibling consumer that starts at the current tail.
    fn clone(&self) -> (r: Self)
        ensures
            exists|m: ChannelModel<T>| m.inv() && #[trigger] registered_in(m, r.entry()),
    {
        Receiver::new(Arc::clone(&self.shared))
    }
}

} // verus!
