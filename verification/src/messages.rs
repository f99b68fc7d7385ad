//! The requests that sessions and the manager exchange, and their replies.

use crate::coords::{Coords2, WorldMetrics};
use crate::models::{ChunkProtocol, Packet};
use vstd::prelude::*;

verus! {

/// A text for one client.
#[derive(Clone, Debug, PartialEq, Eq)]
pub struct Message(pub String);

/// The reply to `Connect`: the id given to the session and the metrics of
/// the world it joined.
#[derive(Clone, Copy, Debug, PartialEq, Eq, Structural)]
pub struct ConnectionResult {
    pub id: usize,
    pub metrics: WorldMetrics,
}

/// Asks the manager to register a connection in a world. `addr` is the
/// handle through which the manager reaches the connection.
#[derive(Clone, Debug)]
pub struct Connect<H> {
    pub world_name: String,
    pub addr: H,
}

/// Tells the manager that a session has ended.
#[derive(Clone, Copy, Debug, PartialEq, Eq, Structural)]
pub struct Disconnect {
    pub id: usize,
}

/// Asks the manager to generate the chunks around `coords`.
#[derive(Clone, Debug, PartialEq, Eq)]
pub struct Generate {
    pub world: String,
    pub coords: Coords2,
    pub render_radius: i16,
}

/// The reply to `ChunkRequest`: the chunk, or nothing while it does not
/// exist yet.
#[derive(Clone, Debug, PartialEq, Eq)]
pub struct ChunkRequestResult {
    pub protocol: Option<ChunkProtocol>,
}

/// Asks the manager for one chunk, with or without its voxels.
#[derive(Clone, Debug, PartialEq, Eq)]
pub struct ChunkRequest {
    pub world: String,
    pub needs_voxels: bool,
    pub coords: Coords2,
}

/// A message of a client together with the session and the world it came
/// from.
#[derive(Clone, Debug, PartialEq, Eq)]
pub struct ClientMessage {
    pub id: usize,
    pub msg: Packet,
    pub world: String,
}

/// Asks the manager for the names of its worlds.
#[derive(Clone, Copy, Debug, PartialEq, Eq, Structural)]
pub struct ListWorlds;

} // verus!
