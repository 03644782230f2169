//! Messages from the network to the game about other players' avatars.

use vstd::prelude::*;

use crate::transform::Transform;

verus! {

/// What the game is told about another player. The transform is the one the
/// server sent; the game turns its rotation about the vertical axis by half a
/// turn when it places the avatar.
#[derive(Clone, Copy, Debug, PartialEq, Eq, Structural)]
pub enum AvatarUpdate {
    /// A player the game has not seen yet: create an avatar for the user id.
    RegisterUser(Transform, u32),
    /// A known player moved: move the avatar that is the given world object.
    SetUserPosition(Transform, usize),
}

} // verus!
