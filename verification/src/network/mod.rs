//! The client side of the game server protocol, and the messages that pass
//! between the game and the network threads.

pub mod avatar_updates;
pub mod user_authenticate;
pub mod user_handler;
pub mod user_updates;
pub mod users;
pub mod voice;
