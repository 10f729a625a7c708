//! A bounded multi-producer, multi-consumer broadcast channel.
//!
//! Every value that a producer gets accepted is received exactly once by
//! every consumer attached at that moment, in one global order.

pub mod channel;
pub mod debug;
pub mod error;
pub mod laws;
pub mod model;
pub mod receiver;
pub mod seat;
pub mod sender;
pub mod shared;
pub mod spawner;
pub mod state;

pub use channel::Channel;
pub use error::{BlockingSendError, InnerRecvError, RecvError, SendError, TryRecvError};
pub use receiver::Receiver;
pub use sender::{channel, Sender};
pub use spawner::Spawner;
pub use state::State;
