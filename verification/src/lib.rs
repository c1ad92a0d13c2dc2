//! Verified core of a multiplayer card-game lobby.
//!
//! Remote clients discover, create, and join shared game rooms over an
//! unreliable, message-oriented transport. This crate holds the logic that
//! is worth getting exactly right: the wire codec for the three lobby
//! message kinds, the client-side request tracker that correlates responses
//! to requests by nonce, the client-side room-list poller, and the
//! server-side authoritative room registry. Transport, rendering and input
//! live outside this crate and exchange plain values with it.
#![allow(unused_imports)]
use vstd::prelude::*;

pub mod client;
pub mod codec;
pub mod messages;
pub mod server;

verus! {

/// Top-level client state: browsing the lobby, or seated at a table.
///
/// The only transition this crate ever requests is the one-way step from
/// `Lobby` to `Gaming`, taken when a tracked request is matched by a
/// response. Re-entering `Gaming` is idempotent.
#[derive(Debug, Clone, Copy, PartialEq, Eq, Hash, Structural)]
pub enum AppState {
    Lobby,
    Gaming,
}

impl Default for AppState {
    /// A freshly started client begins in the lobby.
    fn default() -> (r: Self)
        ensures
            r == AppState::Lobby,
    {
        AppState::Lobby
    }
}

} // verus!
