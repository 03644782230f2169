//! The decisions of the login exchange: the client says hello (`[1]`) and
//! waits for the server's message `[2]` followed by the big-endian user id
//! that the server gives it; other messages are ignored.

use vstd::prelude::*;

use crate::network::user_handler::{be_word_at, read_be_word};

verus! {

/// Code of the message that opens the login exchange.
pub const HELLO: u8 = 1u8;

/// Code of the message from the server that gives the client its user id.
pub const FREE_ID: u8 = 2u8;

/// What a message from the server means while logging in.
#[derive(Clone, Copy, Debug, PartialEq, Eq, Structural)]
pub enum AuthStep {
    /// The server gave the client this user id; the exchange is over.
    Authenticated(u32),
    /// An empty message; keep waiting.
    Ignored,
    /// A message with another code; keep waiting.
    Unknown(u8),
}

/// The message that opens the login exchange.
pub fn hello_message() -> (r: Vec<u8>)
    ensures
        r@ == seq![HELLO],
{
    let mut m: Vec<u8> = Vec::new();
    m.push(HELLO);
    proof {
        assert(m@ =~= seq![HELLO]);
    }
    m
}

/// Reads a message from the server during login. A message with the code
/// `FREE_ID` must carry the four bytes of the user id.
pub fn auth_step(data: &[u8]) -> (r: AuthStep)
    requires
        data@.len() > 0 && data@[0] == FREE_ID ==> data@.len() >= 5,
    ensures
        data@.len() == 0 ==> r == AuthStep::Ignored,
        data@.len() > 0 && data@[0] == FREE_ID ==> r == AuthStep::Authenticated(be_word_at(data@, 1)),
        data@.len() > 0 && data@[0] != FREE_ID ==> r == AuthStep::Unknown(data@[0]),
{
    if data.len() == 0 {
        AuthStep::Ignored
    } else if data[0] == FREE_ID {
        AuthStep::Authenticated(read_be_word(data, 1))
    } else {
        AuthStep::Unknown(data[0])
    }
}

} // verus!
