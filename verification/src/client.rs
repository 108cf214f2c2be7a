//! The client of the game, which sits on one end of a connection.

use vstd::prelude::*;

verus! {

/// How far the client has come in its session.
#[derive(Debug, Clone, Copy, PartialEq, Eq, Structural)]
pub enum ClientState {
    Initial,
    LoginRequested,
    Loading,
    Spawned,
    Disconnected,
}

/// What the client needs of the program that embeds it.
pub trait ClientAdapter {

}

/// The client: how far it has come, and the program around it.
pub struct Client<A> {
    pub state: ClientState,
    pub adapter: A,
}

impl<A: ClientAdapter> Client<A> {
    /// A client that has not yet asked to log in.
    pub fn new(adapter: A) -> (client: Client<A>)
        ensures
            client.state == ClientState::Initial,
            client.adapter == adapter,
    {
        Client { state: ClientState::Initial, adapter }
    }
}

} // verus!
