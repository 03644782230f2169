//! Messages from the game to the network thread.

use vstd::prelude::*;

use crate::transform::Transform;

verus! {

/// What the game asks the network thread to do.
#[derive(Clone, Copy, Debug, PartialEq, Eq, Structural)]
pub enum UserUpdate {
    /// Send the local player's position and rotation to the server.
    SendUserPosition(Transform),
    /// Tell the server that the world is loaded.
    SendReadySignal,
    /// The avatar of the given user id is the given world object.
    UpdateAvatarId(u32, usize),
}

} // verus!
