//! What travels between a client and its session, after decoding.

use crate::coords::Coords2;
use crate::json::{json_integer, read_json_integer};
use vstd::prelude::*;

verus! {

/// What an inbound message is about.
#[derive(Clone, Copy, Debug, PartialEq, Eq, Structural)]
pub enum MessageType {
    Request,
    Config,
    Update,
    Peer,
    Message,
    Init,
}

/// The state that a player reports of itself: its name, its position in
/// world units and its orientation.
#[derive(Clone, Debug, PartialEq, Eq)]
pub struct Peer {
    pub name: String,
    pub px: i32,
    pub py: i32,
    pub pz: i32,
    pub qx: i32,
    pub qy: i32,
    pub qz: i32,
    pub qw: i32,
}

/// One decoded inbound message: its type, the JSON text it carries and the
/// player states it carries.
#[derive(Clone, Debug, PartialEq, Eq)]
pub struct Packet {
    pub kind: MessageType,
    pub json: String,
    pub peers: Vec<Peer>,
}

/// A chunk in the form in which it is sent to a client. The voxels are
/// there only where they were asked for.
#[derive(Clone, Debug, PartialEq, Eq)]
pub struct ChunkProtocol {
    pub x: i32,
    pub z: i32,
    pub voxels: Option<Vec<u32>>,
}

/// The chunk that a request names, from the two numbers read out of it.
/// Both must be there; each is cut to 32 bits.
pub open spec fn requested_chunk(x: Option<i64>, z: Option<i64>) -> Option<Coords2> {
    match (x, z) {
        (Some(x), Some(z)) => Some(Coords2(x as i32, z as i32)),
        _ => None,
    }
}

/// The chunk that the JSON text of a request names, if it names one.
pub open spec fn chunk_in_json(json: Seq<char>) -> Option<Coords2> {
    requested_chunk(json_integer(json, "x"@), json_integer(json, "z"@))
}

/// Builds the chunk coordinate of a request from the members `x` and `z`
/// of its JSON text.
pub fn request_coords(x: Option<i64>, z: Option<i64>) -> (coords: Option<Coords2>)
    ensures
        coords == requested_chunk(x, z),
{
    match (x, z) {
        (Some(x), Some(z)) => Some(Coords2(
            #[verifier::truncate]
            (x as i32),
            #[verifier::truncate]
            (z as i32),
        )),
        _ => None,
    }
}

impl Packet {
    /// The chunk that this message asks for, read from its JSON text.
    pub fn requested_chunk(&self) -> (coords: Option<Coords2>)
        ensures
            coords == chunk_in_json(self.json@),
    {
        let x = read_json_integer(self.json.as_str(), "x");
        let z = read_json_integer(self.json.as_str(), "z");
        request_coords(x, z)
    }
}

} // verus!
