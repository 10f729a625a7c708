use vstd::prelude::*;

verus! {

/// Why a non-blocking receive returned no value.
#[derive(Debug, Clone, Copy, PartialEq, Eq, Structural)]
pub enum TryRecvError {
    /// No new value yet, and producers are still attached.
    Empty,
    /// Every producer is gone and no value is left for this consumer.
    Disconnected,
}

impl TryRecvError {
    /// Human-readable description of the error.
    pub fn message(&self) -> (r: &'static str)
        ensures
            r@ == match self {
                TryRecvError::Disconnected => "Channel Disconnected"@,
                TryRecvError::Empty => "Channel Empty"@,
            },
    {
        match self {
            TryRecvError::Disconnected => "Channel Disconnected",
            TryRecvError::Empty => "Channel Empty",
        }
    }

    /// What a blocking receive does after this outcome: `Ok` to try again
    /// while producers remain; once the channel is disconnected it gives up.
    pub fn into_blocking(self) -> (r: Result<(), RecvError>)
        ensures
            self == TryRecvError::Empty ==> r == Ok::<(), RecvError>(()),
            self == TryRecvError::Disconnected ==> r == Err::<(), _>(RecvError::Disconnected),
    {
        match self {
            TryRecvError::Empty => Ok(()),
            TryRecvError::Disconnected => Err(RecvError::Disconnected),
        }
    }
}

/// Why a blocking receive returned no value.
#[derive(Debug, Clone, Copy, PartialEq, Eq, Structural)]
pub enum RecvError {
    /// Every producer is gone and no value is left for this consumer.
    Disconnected,
}

impl RecvError {
    /// Human-readable description of the error.
    pub fn message(&self) -> (r: &'static str)
        ensures
            r@ == "Channel Disconnected"@,
    {
        match self {
            RecvError::Disconnected => "Channel Disconnected",
        }
    }
}

/// Why a non-blocking send was refused; the value comes back to the caller.
#[derive(Debug, Clone, PartialEq, Eq)]
pub enum SendError<T> {
    /// No consumer is attached.
    Disconnected(T),
    /// The slot ahead of the tail still has reads outstanding.
    Full(T),
}

impl<T> SendError<T> {
    /// Human-readable description of the error.
    pub fn message(&self) -> (r: &'static str)
        ensures
            r@ == match self {
                SendError::Disconnected(_) => "Channel Disconnected"@,
                SendError::Full(_) => "Channel Full"@,
            },
    {
        match self {
            SendError::Disconnected(_) => "Channel Disconnected",
            SendError::Full(_) => "Channel Full",
        }
    }

    /// What a blocking send does after this refusal: `Ok` hands the value back
    /// to try again, since the channel was only full; with no consumer
    /// attached it gives up.
    pub fn into_blocking(self) -> (r: Result<T, BlockingSendError<T>>)
        ensures
            match self {
                SendError::Full(v) => r == Ok::<T, BlockingSendError<T>>(v),
                SendError::Disconnected(v) => r == Err::<T, _>(BlockingSendError::Disconnected(v)),
            },
    {
        match self {
            SendError::Full(v) => Ok(v),
            SendError::Disconnected(v) => Err(BlockingSendError::Disconnected(v)),
        }
    }

    /// The value that was not sent.
    pub fn into_inner(self) -> (r: T)
        ensures
            r == match self {
                SendError::Disconnected(v) => v,
                SendError::Full(v) => v,
            },
    {
        match self {
            SendError::Disconnected(v) => v,
            SendError::Full(v) => v,
        }
    }
}

/// Why a blocking send was refused; the value comes back to the caller.
#[derive(Debug, Clone, PartialEq, Eq)]
pub enum BlockingSendError<T> {
    /// No consumer is attached.
    Disconnected(T),
}

impl<T> BlockingSendError<T> {
    /// Human-readable description of the error.
    pub fn message(&self) -> (r: &'static str)
        ensures
            r@ == "Channel Disconnected"@,
    {
        match self {
            BlockingSendError::Disconnected(_) => "Channel Disconnected",
        }
    }
}

/// Outcome of one receive attempt on the shared state when no value was read.
#[derive(Debug, Clone, Copy, PartialEq, Eq, Structural)]
pub enum InnerRecvError {
    Disconnected,
    Empty,
}

} // verus!
