use vstd::prelude::*;
use vstd::rwlock::{RwLock, RwLockPredicate};

use crate::debug::{render, render_state};
use crate::error::{InnerRecvError, SendError};
use crate::model::ChannelModel;
use crate::state::State;

verus! {

/// `r` is what a receive by consumer `id` reports on `m`, up to cloning the value.
pub open spec fn received_from<T: Clone>(m: ChannelModel<T>, id: int, r: Result<T, InnerRecvError>) -> bool {
    match r {
        Ok(v) => m.recv_outcome(id) matches Ok(w) && cloned(w, v),
        Err(e) => m.recv_outcome(id) == Err::<T, _>(e),
    }
}

/// `r` is what registering a consumer reports on `m`.
pub open spec fn registered_in<T>(m: ChannelModel<T>, r: Option<usize>) -> bool {
    match r {
        Some(id) => m.readers < usize::MAX && id == m.first_free(),
        None => m.readers >= usize::MAX,
    }
}

/// What the lock guarantees of the state it guards: the read-counter protocol.
pub struct ProtocolHolds;

impl<T: Clone> RwLockPredicate<State<T>> for ProtocolHolds {
    open spec fn inv(self, s: State<T>) -> bool {
        s.wf()
    }
}

/// The state that every handle of one channel shares, behind an exclusive lock.
/// Each operation takes the lock once and runs one step of [`State`].
pub struct Shared<T: Clone> {
    lock: RwLock<State<T>, ProtocolHolds>,
}

impl<T: Clone> Shared<T> {
    /// Shared state for a channel of `capacity` values with no handle attached.
    pub fn new(capacity: usize) -> (s: Self)
        requires
            1 <= capacity < usize::MAX,
    {
        Shared { lock: RwLock::new(State::new(capacity), Ghost(ProtocolHolds)) }
    }

    /// Runs [`State::send`] under the lock: the outcome is what a send reports
    /// on the state the lock held.
    pub fn send(&self, value: T) -> (r: Result<(), SendError<T>>)
        ensures
            exists|m: ChannelModel<T>| m.inv() && r == m.send_result(value),
    {
        let (mut state, handle) = self.lock.acquire_write();
        let ghost m = state@;
        let r = state.send(value);
        assert(m.inv() && r == m.send_result(value));
        handle.release_write(state);
        r
    }

    /// Runs [`State::add_writer`] under the lock.
    pub fn add_writer(&self) {
        let (mut state, handle) = self.lock.acquire_write();
        state.add_writer();
        handle.release_write(state);
    }

    /// Runs [`State::remove_writer`] under the lock.
    pub fn remove_writer(&self) {
        let (mut state, handle) = self.lock.acquire_write();
        state.remove_writer();
        handle.release_write(state);
    }

    /// Runs [`State::add_reader`] under the lock: the entry is the first free
    /// one of the state the lock held.
    pub fn add_reader(&self) -> (r: Option<usize>)
        ensures
            exists|m: ChannelModel<T>| m.inv() && #[trigger] registered_in(m, r),
    {
        let (mut state, handle) = self.lock.acquire_write();
        let ghost m = state@;
        let r = state.add_reader();
        assert(m.inv() && registered_in(m, r));
        handle.release_write(state);
        r
    }

    /// Renders the state under a shared lock.
    pub fn render(&self) -> (r: String)
        ensures
            exists|m: ChannelModel<T>| m.inv() && #[trigger] render(m) == r@,
    {
        let handle = self.lock.acquire_read();
        let r = render_state(handle.borrow());
        assert(handle.view().wf() && render(handle.view()@) == r@);
        handle.release_read();
        r
    }

    /// Runs [`State::remove_reader`] under the lock.
    pub fn remove_reader(&self, id: usize) {
        let (mut state, handle) = self.lock.acquire_write();
        state.remove_reader(id);
        handle.release_write(state);
    }

    /// Runs [`State::recv`] under the lock: the outcome is what a receive by
    /// consumer `id` reports on the state the lock held, a clone standing for
    /// the value.
    pub fn recv(&self, id: usize) -> (r: Result<T, InnerRecvError>)
        ensures
            exists|m: ChannelModel<T>| m.inv() && received_from(m, id as int, r),
    {
        let (mut state, handle) = self.lock.acquire_write();
        let ghost m = state@;
        let r = state.recv(id);
        assert(m.inv() && received_from(m, id as int, r));
        handle.release_write(state);
        r
    }
}

} // verus!
