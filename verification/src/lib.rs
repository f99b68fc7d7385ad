//! Coordination core of a multiplayer voxel world server.
//!
//! The crate holds the rules of the server and none of its plumbing:
//!
//! * [`server::WsServer`] owns the worlds and the registry of connected
//!   clients, and answers the manager's requests (connect, disconnect,
//!   generate, chunk lookup, world listing, broadcast).
//! * [`session::WsSession`] is the state machine of one connection:
//!   handshake, heartbeat, chunk delivery under backpressure, and the
//!   generation trigger on chunk crossings.
//! * [`spatial::SpatialIndex`] answers filtered nearest-neighbour queries and
//!   [`observe::ObserveSystem`] resolves what each observer is looking at.
//! * [`chunks::Chunks`] stores the chunks of a world, [`coords`] maps
//!   positions to chunks, and [`messages`] and [`models`] hold the values
//!   that travel between the parts.
//!
//! Nothing here performs I/O, reads a clock or sends a message. Every
//! operation takes plain values and returns what the transport has to do
//! next, so that all of it can be stated and proved. Positions are whole
//! numbers of world units; the scale is the caller's choice.
//!
//! Two things are taken on trust, each behind one function: the JSON text
//! of a request is parsed by `serde_json` ([`json`]), and the search for a
//! free session id starts at a number drawn by `rand` ([`server`]).

pub mod chunks;
pub mod coords;
pub mod json;
pub mod messages;
pub mod models;
pub mod observe;
pub mod server;
pub mod session;
pub mod spatial;
