use std::sync::Arc;
use vstd::prelude::*;

use crate::model::ChannelModel;
use crate::receiver::Receiver;
use crate::shared::{registered_in, Shared};

verus! {

/// A handle that neither sends nor receives, and only spawns consumers.
pub struct Spawner<T: Clone> {
    pub(crate) shared: Arc<Shared<T>>,
}

impl<T: Clone> Spawner<T> {
    /// A new consumer that receives the values sent from now on.
    pub fn spawn_rx(&self) -> (r: Receiver<T>)
        ensures
            exists|m: ChannelModel<T>| m.inv() && #[trigger] registered_in(m, r.entry()),
    {
        Receiver::new(Arc::clone(&self.shared))
    }
}

} // verus!
