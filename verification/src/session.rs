//! The state machine of one connection.
//!
//! A session starts out connecting, becomes active once the manager has
//! given it an id and the metrics of its world, and is closed by a close
//! frame, a protocol error, a malformed message, a missed heartbeat or the
//! transport itself. It never leaves the closed state, and it tells the
//! manager of its end exactly once: with the step that closes it.
//!
//! The session does no I/O. Each step takes what happened (a frame, a tick
//! of one of the two timers, a reply of the manager) together with the
//! current time in milliseconds, and returns what the transport has to do.

use crate::coords::{chunk_of, map_voxel_to_chunk, map_world_to_voxel, Coords2, Coords3, Quaternion, WorldMetrics};
use crate::messages::{ChunkRequest, ChunkRequestResult, ConnectionResult, Disconnect, Generate};
use crate::models::{chunk_in_json, ChunkProtocol, MessageType, Packet, Peer};
use std::collections::VecDeque;
use vstd::prelude::*;

verus! {

/// The time between two heartbeat ticks, in milliseconds.
pub const HEARTBEAT_INTERVAL: u64 = 5000;

/// The time between two chunk-delivery ticks, in milliseconds.
pub const CHUNKING_INTERVAL: u64 = 16;

/// How long a client may stay silent before its session is closed, in
/// milliseconds.
pub const CLIENT_TIMEOUT: u64 = 10000;

/// Where a session is in its life.
#[derive(Clone, Copy, Debug, PartialEq, Eq, Structural)]
pub enum Phase {
    Connecting,
    Active,
    Closed,
}

/// Why a peer closes the connection.
#[derive(Clone, Debug, PartialEq, Eq)]
pub struct CloseReason {
    pub code: u16,
    pub description: Option<String>,
}

/// A frame that the transport could not read.
#[derive(Clone, Copy, Debug, PartialEq, Eq, Structural)]
pub struct ProtocolError;

/// One inbound frame. A binary frame holds the message it decodes to, or
/// nothing where it does not decode.
#[derive(Clone, Debug, PartialEq, Eq)]
pub enum Frame {
    Text(String),
    Binary(Option<Packet>),
    Continuation,
    Ping(Vec<u8>),
    Pong(Vec<u8>),
    Close(Option<CloseReason>),
    Nop,
}

/// What the transport has to do after a step.
#[derive(Clone, Debug, PartialEq, Eq)]
pub enum Outcome {
    /// Nothing.
    Idle,
    /// Probe the client with a ping.
    Ping,
    /// Answer a ping with a pong of the same payload.
    Pong(Vec<u8>),
    /// Send the trigger to the manager. No reply is awaited.
    Generate(Generate),
    /// Send the request to the manager and hand its reply to `chunk_reply`.
    Request(ChunkRequest),
    /// Send the chunk on to the client.
    Deliver(ChunkProtocol),
    /// The session has ended: send the notice to the manager and stop.
    Stop(Disconnect),
    /// The session has ended at the peer's wish: answer with a close frame
    /// of the same reason, send the notice to the manager and stop.
    Close(Disconnect, Option<CloseReason>),
}

impl Outcome {
    /// The notice of its end that a session hands out with this outcome.
    pub open spec fn notice(self) -> Option<Disconnect> {
        match self {
            Outcome::Stop(notice) => Some(notice),
            Outcome::Close(notice, _) => Some(notice),
            _ => None,
        }
    }

    /// Says that this outcome is the generation trigger for the chunks
    /// around `coords` in `world`.
    pub open spec fn is_generate(self, world: Seq<char>, coords: Coords2, render_radius: i16) -> bool {
        self matches Outcome::Generate(trigger) && trigger.world@ == world && trigger.coords == coords
            && trigger.render_radius == render_radius
    }

    /// Says that this outcome is the request for the chunk at `coords` in
    /// `world`, voxels included.
    pub open spec fn is_request(self, world: Seq<char>, coords: Coords2) -> bool {
        self matches Outcome::Request(request) && request.world@ == world && request.coords
            == coords && request.needs_voxels
    }
}

/// The state of one connection.
#[derive(Debug)]
pub struct WsSession {
    id: usize,
    hb: u64,
    world_name: String,
    metrics: Option<WorldMetrics>,
    name: Option<String>,
    position: Coords3,
    rotation: Quaternion,
    current_chunk: Option<Coords2>,
    requested_chunks: VecDeque<Coords2>,
    render_radius: i16,
    phase: Phase,
    in_flight: Option<Coords2>,
}

/// What a session holds, as plain values.
pub struct SessionView {
    /// The id that the manager gave, 0 before it gave one.
    pub id: usize,
    /// When the client gave its last sign of life.
    pub hb: u64,
    /// The world that the session joins.
    pub world_name: Seq<char>,
    /// The metrics of that world, once the manager has sent them.
    pub metrics: Option<WorldMetrics>,
    /// The name of the player, once it has reported one.
    pub name: Option<Seq<char>>,
    /// The last reported position.
    pub position: Coords3,
    /// The last reported orientation.
    pub rotation: Quaternion,
    /// The chunk that holds the last reported position.
    pub current_chunk: Option<Coords2>,
    /// The chunks that the client waits for, oldest first.
    pub requested_chunks: Seq<Coords2>,
    /// How many chunks around the player are generated.
    pub render_radius: i16,
    /// Where the session is in its life.
    pub phase: Phase,
    /// The chunk that the manager has been asked for and has not answered.
    pub in_flight: Option<Coords2>,
}

impl SessionView {
    /// What holds of every session: an active one knows usable metrics, the
    /// current chunk is the chunk of the position, and only an active
    /// session waits for the manager.
    pub open spec fn wf(self) -> bool {
        &&& self.phase == Phase::Active ==> self.metrics is Some
        &&& self.phase == Phase::Connecting ==> self.metrics is None
        &&& self.metrics matches Some(metrics) ==> metrics.wf()
        &&& self.current_chunk matches Some(chunk) ==> self.metrics is Some && chunk == chunk_of(
            self.position,
            self.metrics.unwrap(),
        )
        &&& self.in_flight is Some ==> self.phase == Phase::Active
    }

    pub open spec fn closed(self) -> bool {
        self.phase == Phase::Closed
    }

    /// This session, ended.
    pub open spec fn ended(self) -> SessionView {
        SessionView { phase: Phase::Closed, in_flight: None, ..self }
    }

    /// How long the client has been silent at the time `now`.
    pub open spec fn silence(self, now: u64) -> int {
        if now >= self.hb {
            now - self.hb
        } else {
            0
        }
    }

    /// Whether the client has been silent for longer than it may.
    pub open spec fn timed_out(self, now: u64) -> bool {
        self.silence(now) > CLIENT_TIMEOUT
    }

    /// This session after the handshake reply `reply`.
    pub open spec fn after_start(self, reply: Option<ConnectionResult>) -> SessionView {
        if self.phase != Phase::Connecting {
            self
        } else {
            match reply {
                Some(result) if result.metrics.wf() => SessionView {
                    id: result.id,
                    metrics: Some(result.metrics),
                    phase: Phase::Active,
                    ..self
                },
                _ => self.ended(),
            }
        }
    }

    /// This session after the player has reported `peer` of itself.
    pub open spec fn moved(self, peer: Peer) -> SessionView {
        let position = Coords3(peer.px, peer.py, peer.pz);
        SessionView {
            name: Some(peer.name@),
            position,
            rotation: Quaternion(peer.qx, peer.qy, peer.qz, peer.qw),
            current_chunk: Some(chunk_of(position, self.metrics.unwrap())),
            ..self
        }
    }

    /// This session after the message `packet`.
    pub open spec fn after_packet(self, packet: Packet) -> SessionView {
        if self.phase != Phase::Active {
            self
        } else if malformed(packet) {
            self.ended()
        } else {
            match packet.kind {
                MessageType::Request => SessionView {
                    requested_chunks: self.requested_chunks.push(chunk_in_json(packet.json@).unwrap()),
                    ..self
                },
                MessageType::Peer => self.moved(packet.peers@[0]),
                _ => self,
            }
        }
    }

    /// Says that `outcome` is what the message `packet` asks of the
    /// transport: the end of the session for a malformed message, a
    /// generation trigger where the player has entered another chunk, and
    /// nothing otherwise.
    pub open spec fn packet_outcome(self, packet: Packet, outcome: Outcome) -> bool {
        if self.phase != Phase::Active {
            outcome is Idle
        } else if malformed(packet) {
            outcome == Outcome::Stop(Disconnect { id: self.id })
        } else if packet.kind == MessageType::Peer && self.current_chunk != self.moved(
            packet.peers@[0],
        ).current_chunk {
            outcome.is_generate(
                self.world_name,
                self.moved(packet.peers@[0]).current_chunk.unwrap(),
                self.render_radius,
            )
        } else {
            outcome is Idle
        }
    }

    /// This session with a sign of life at the time `now`.
    pub open spec fn alive(self, now: u64) -> SessionView {
        SessionView { hb: now, ..self }
    }

    /// This session after the transport has handed it `input`.
    pub open spec fn after_frame(self, input: Result<Frame, ProtocolError>, now: u64) -> SessionView {
        if self.closed() {
            self
        } else {
            match input {
                Err(_) => self.ended(),
                Ok(Frame::Close(_)) => self.ended(),
                Ok(Frame::Continuation) => self.ended(),
                Ok(Frame::Binary(None)) => self.ended(),
                Ok(Frame::Binary(Some(packet))) => self.alive(now).after_packet(packet),
                Ok(_) => self.alive(now),
            }
        }
    }

    /// Says that `outcome` is what `input` asks of the transport.
    pub open spec fn frame_outcome(
        self,
        input: Result<Frame, ProtocolError>,
        now: u64,
        outcome: Outcome,
    ) -> bool {
        if self.closed() {
            outcome is Idle
        } else {
            match input {
                Err(_) => outcome == Outcome::Stop(Disconnect { id: self.id }),
                Ok(Frame::Close(reason)) => outcome == Outcome::Close(
                    Disconnect { id: self.id },
                    reason,
                ),
                Ok(Frame::Continuation) => outcome == Outcome::Stop(Disconnect { id: self.id }),
                Ok(Frame::Binary(None)) => outcome == Outcome::Stop(Disconnect { id: self.id }),
                Ok(Frame::Binary(Some(packet))) => self.alive(now).packet_outcome(packet, outcome),
                Ok(Frame::Ping(payload)) => outcome == Outcome::Pong(payload),
                Ok(_) => outcome is Idle,
            }
        }
    }

    /// This session after a heartbeat tick at the time `now`.
    pub open spec fn after_beat(self, now: u64) -> SessionView {
        if !self.closed() && self.timed_out(now) {
            self.ended()
        } else {
            self
        }
    }

    /// Whether a chunk-delivery tick asks the manager for a chunk: the
    /// session is active, waits for no reply and has a chunk to ask for.
    pub open spec fn may_ask(self) -> bool {
        self.phase == Phase::Active && self.in_flight is None && self.requested_chunks.len() > 0
    }

    /// This session after a chunk-delivery tick.
    pub open spec fn after_chunk(self) -> SessionView {
        if self.may_ask() {
            SessionView {
                in_flight: Some(self.requested_chunks[0]),
                requested_chunks: self.requested_chunks.skip(1),
                ..self
            }
        } else {
            self
        }
    }

    /// This session after the manager's reply to a chunk request. `None`
    /// stands for a reply that never came.
    pub open spec fn after_reply(self, reply: Option<ChunkRequestResult>) -> SessionView {
        match self.in_flight {
            None => self,
            Some(coords) => match reply {
                None => self.ended(),
                Some(result) => match result.protocol {
                    None => SessionView {
                        in_flight: None,
                        requested_chunks: self.requested_chunks.push(coords),
                        ..self
                    },
                    Some(_) => SessionView { in_flight: None, ..self },
                },
            },
        }
    }

    /// Says that `outcome` is what the reply `reply` asks of the transport.
    pub open spec fn reply_outcome(self, reply: Option<ChunkRequestResult>, outcome: Outcome) -> bool {
        match self.in_flight {
            None => outcome is Idle,
            Some(_) => match reply {
                None => outcome == Outcome::Stop(Disconnect { id: self.id }),
                Some(result) => match result.protocol {
                    None => outcome is Idle,
                    Some(protocol) => outcome == Outcome::Deliver(protocol),
                },
            },
        }
    }
}

/// Says that a step from `before` to `after` that handed out `notice` keeps
/// to the rule on notices: a closed session stays closed, and the manager
/// is told of the end of a session, under the session's id, with the very
/// step that closes it and with no other.
pub open spec fn orderly(before: SessionView, notice: Option<Disconnect>, after: SessionView) -> bool {
    &&& before.closed() ==> after.closed()
    &&& notice is Some <==> !before.closed() && after.closed()
    &&& notice matches Some(told) ==> told.id == before.id
}

/// How many notices a run of steps has handed out.
pub open spec fn count_notices(notices: Seq<Option<Disconnect>>) -> nat
    decreases notices.len(),
{
    if notices.len() == 0 {
        0
    } else {
        count_notices(notices.drop_last()) + if notices.last() is Some {
            1nat
        } else {
            0nat
        }
    }
}

/// Whatever steps a session takes, the manager is told of its end exactly
/// once if it has ended, and not at all while it has not.
///
/// `states[0]` is a session that has not ended, `states[i + 1]` the session
/// after its step `i`, and `notices[i]` the notice that this step handed
/// out.
pub proof fn lemma_one_notice(states: Seq<SessionView>, notices: Seq<Option<Disconnect>>)
    requires
        states.len() == notices.len() + 1,
        !states[0].closed(),
        forall|i: int| 0 <= i < notices.len() ==> orderly(states[i], #[trigger] notices[i], states[i + 1]),
    ensures
        count_notices(notices) == if states.last().closed() {
            1nat
        } else {
            0nat
        },
    decreases notices.len(),
{
    if notices.len() != 0 {
        let n = notices.len() - 1;
        let earlier = notices.drop_last();
        let before = states.drop_last();
        assert forall|i: int| 0 <= i < earlier.len() implies orderly(
            before[i],
            #[trigger] earlier[i],
            before[i + 1],
        ) by {
            assert(orderly(states[i], notices[i], states[i + 1]));
        }
        lemma_one_notice(before, earlier);
        assert(before.last() == states[n]);
        assert(orderly(states[n], notices[n], states[n + 1]));
    }
}

/// A report of the player triggers generation if and only if it puts the
/// player into another chunk than the one recorded, and then around the
/// chunk that it puts the player into. That chunk is recorded either way.
pub proof fn lemma_generate_on_crossing(before: SessionView, packet: Packet, outcome: Outcome)
    requires
        before.wf(),
        before.phase == Phase::Active,
        packet.kind == MessageType::Peer,
        packet.peers@.len() > 0,
        before.packet_outcome(packet, outcome),
    ensures
        ({
            let peer = packet.peers@[0];
            let entered = chunk_of(Coords3(peer.px, peer.py, peer.pz), before.metrics.unwrap());
            &&& before.after_packet(packet).current_chunk == Some(entered)
            &&& before.after_packet(packet).wf()
            &&& if before.current_chunk == Some(entered) {
                outcome is Idle
            } else {
                outcome.is_generate(before.world_name, entered, before.render_radius)
            }
        }),
{
}

/// Whether a message cannot be acted on: a request whose JSON text names no
/// chunk, or a player report without a player.
pub open spec fn malformed(packet: Packet) -> bool {
    match packet.kind {
        MessageType::Request => chunk_in_json(packet.json@) is None,
        MessageType::Peer => packet.peers@.len() == 0,
        _ => false,
    }
}

impl View for WsSession {
    type V = SessionView;

    closed spec fn view(&self) -> SessionView {
        SessionView {
            id: self.id,
            hb: self.hb,
            world_name: self.world_name@,
            metrics: self.metrics,
            name: match self.name {
                Some(name) => Some(name@),
                None => None,
            },
            position: self.position,
            rotation: self.rotation,
            current_chunk: self.current_chunk,
            requested_chunks: self.requested_chunks@,
            render_radius: self.render_radius,
            phase: self.phase,
            in_flight: self.in_flight,
        }
    }
}

impl WsSession {
    /// A session for a connection that has just been opened at the time
    /// `now`, and that will join `world_name`.
    pub fn new(world_name: String, render_radius: i16, now: u64) -> (session: WsSession)
        ensures
            session@.wf(),
            session@ == (SessionView {
                id: 0,
                hb: now,
                world_name: world_name@,
                metrics: None,
                name: None,
                position: Coords3(0, 0, 0),
                rotation: Quaternion(0, 0, 0, 0),
                current_chunk: None,
                requested_chunks: Seq::empty(),
                render_radius,
                phase: Phase::Connecting,
                in_flight: None,
            }),
    {
        WsSession {
            id: 0,
            hb: now,
            world_name,
            metrics: None,
            name: None,
            position: Coords3(0, 0, 0),
            rotation: Quaternion(0, 0, 0, 0),
            current_chunk: None,
            requested_chunks: VecDeque::new(),
            render_radius,
            phase: Phase::Connecting,
            in_flight: None,
        }
    }

    /// The id that the manager gave, 0 before it gave one.
    pub fn id(&self) -> (id: usize)
        ensures
            id == self@.id,
    {
        self.id
    }

    /// When the client gave its last sign of life.
    pub fn last_heartbeat(&self) -> (time: u64)
        ensures
            time == self@.hb,
    {
        self.hb
    }

    /// The world that the session joins.
    pub fn world_name(&self) -> (name: &String)
        ensures
            name@ == self@.world_name,
    {
        &self.world_name
    }

    /// The metrics of the world, once the manager has sent them.
    pub fn metrics(&self) -> (metrics: Option<WorldMetrics>)
        ensures
            metrics == self@.metrics,
    {
        self.metrics
    }

    /// The name of the player, once it has reported one.
    pub fn name(&self) -> (name: Option<&String>)
        ensures
            match name {
                Some(name) => self@.name == Some(name@),
                None => self@.name is None,
            },
    {
        match &self.name {
            Some(name) => Some(name),
            None => None,
        }
    }

    /// The last reported position.
    pub fn position(&self) -> (position: Coords3)
        ensures
            position == self@.position,
    {
        self.position
    }

    /// The last reported orientation.
    pub fn rotation(&self) -> (rotation: Quaternion)
        ensures
            rotation == self@.rotation,
    {
        self.rotation
    }

    /// The chunk that holds the last reported position.
    pub fn current_chunk(&self) -> (chunk: Option<Coords2>)
        ensures
            chunk == self@.current_chunk,
    {
        self.current_chunk
    }

    /// The chunks that the client waits for, oldest first.
    pub fn requested_chunks(&self) -> (chunks: Vec<Coords2>)
        ensures
            chunks@ == self@.requested_chunks,
    {
        let mut chunks: Vec<Coords2> = Vec::new();
        let mut i: usize = 0;
        while i < self.requested_chunks.len()
            invariant
                i <= self.requested_chunks@.len(),
                chunks@ == self.requested_chunks@.take(i as int),
            decreases self.requested_chunks.len() - i,
        {
            chunks.push(self.requested_chunks[i]);
            assert(chunks@ =~= self.requested_chunks@.take(i + 1));
            i += 1;
        }
        assert(self.requested_chunks@.take(i as int) =~= self.requested_chunks@);
        chunks
    }

    /// How many chunks around the player are generated.
    pub fn render_radius(&self) -> (radius: i16)
        ensures
            radius == self@.render_radius,
    {
        self.render_radius
    }

    /// Where the session is in its life.
    pub fn phase(&self) -> (phase: Phase)
        ensures
            phase == self@.phase,
    {
        self.phase
    }

    /// The chunk that the manager has been asked for and has not answered.
    pub fn in_flight(&self) -> (coords: Option<Coords2>)
        ensures
            coords == self@.in_flight,
    {
        self.in_flight
    }

    /// Ends the session, if it has not ended yet.
    fn close(&mut self)
        requires
            old(self)@.wf(),
        ensures
            final(self)@.wf(),
            final(self)@ == old(self)@.ended(),
    {
        self.phase = Phase::Closed;
        self.in_flight = None;
    }

    /// Completes the handshake that a starting session makes with the
    /// manager. `reply` is what the manager answered to `Connect`, `None`
    /// where no answer came.
    ///
    /// With an answer the session takes the id and the metrics and becomes
    /// active. Without one, or with metrics that cannot be used, it ends.
    pub fn started(&mut self, reply: Option<ConnectionResult>) -> (outcome: Outcome)
        requires
            old(self)@.wf(),
        ensures
            final(self)@.wf(),
            final(self)@ == old(self)@.after_start(reply),
            orderly(old(self)@, outcome.notice(), final(self)@),
            outcome == if !old(self)@.closed() && final(self)@.closed() {
                Outcome::Stop(Disconnect { id: old(self)@.id })
            } else {
                Outcome::Idle
            },
    {
        match self.phase {
            Phase::Connecting => {
                match reply {
                    Some(result) => {
                        if result.metrics.is_valid() {
                            self.id = result.id;
                            self.metrics = Some(result.metrics);
                            self.phase = Phase::Active;
                            return Outcome::Idle;
                        }
                    },
                    None => {},
                }
                let notice = Disconnect { id: self.id };
                self.close();
                Outcome::Stop(notice)
            },
            _ => Outcome::Idle,
        }
    }

    /// Tells the session that the transport stops it. The notice for the
    /// manager is handed out unless the session has ended before, in which
    /// case the manager has been told already.
    pub fn stopping(&mut self) -> (notice: Option<Disconnect>)
        requires
            old(self)@.wf(),
        ensures
            final(self)@.wf(),
            final(self)@ == old(self)@.ended(),
            orderly(old(self)@, notice, final(self)@),
            notice == if old(self)@.closed() {
                None
            } else {
                Some(Disconnect { id: old(self)@.id })
            },
    {
        match self.phase {
            Phase::Closed => {
                assert(self@ =~= old(self)@.ended());
                None
            },
            _ => {
                let notice = Disconnect { id: self.id };
                self.close();
                Some(notice)
            },
        }
    }

    /// Takes one inbound frame, or the error that the transport met in its
    /// place, at the time `now`.
    ///
    /// An error, a close frame, a continuation frame and a binary frame
    /// that does not decode end the session. Every other frame counts as a
    /// sign of life; a ping is answered and a decoded message is acted on.
    pub fn handle(&mut self, input: Result<Frame, ProtocolError>, now: u64) -> (outcome: Outcome)
        requires
            old(self)@.wf(),
        ensures
            final(self)@.wf(),
            final(self)@ == old(self)@.after_frame(input, now),
            orderly(old(self)@, outcome.notice(), final(self)@),
            old(self)@.frame_outcome(input, now, outcome),
    {
        match self.phase {
            Phase::Closed => {
                return Outcome::Idle;
            },
            _ => {},
        }
        let notice = Disconnect { id: self.id };
        match input {
            Err(_) => {
                self.close();
                Outcome::Stop(notice)
            },
            Ok(Frame::Close(reason)) => {
                self.close();
                Outcome::Close(notice, reason)
            },
            Ok(Frame::Continuation) => {
                self.close();
                Outcome::Stop(notice)
            },
            Ok(Frame::Binary(None)) => {
                self.close();
                Outcome::Stop(notice)
            },
            Ok(Frame::Binary(Some(packet))) => {
                self.hb = now;
                self.on_request(packet)
            },
            Ok(Frame::Ping(payload)) => {
                self.hb = now;
                Outcome::Pong(payload)
            },
            Ok(Frame::Pong(_)) => {
                self.hb = now;
                Outcome::Idle
            },
            Ok(Frame::Text(_)) => {
                self.hb = now;
                Outcome::Idle
            },
            Ok(Frame::Nop) => {
                self.hb = now;
                Outcome::Idle
            },
        }
    }

    /// A tick of the heartbeat timer at the time `now`.
    ///
    /// A client that has been silent for longer than `CLIENT_TIMEOUT` loses
    /// its session. Any other client is probed with a ping.
    pub fn hb(&mut self, now: u64) -> (outcome: Outcome)
        requires
            old(self)@.wf(),
        ensures
            final(self)@.wf(),
            final(self)@ == old(self)@.after_beat(now),
            orderly(old(self)@, outcome.notice(), final(self)@),
            outcome == if old(self)@.closed() {
                Outcome::Idle
            } else if old(self)@.timed_out(now) {
                Outcome::Stop(Disconnect { id: old(self)@.id })
            } else {
                Outcome::Ping
            },
    {
        match self.phase {
            Phase::Closed => {
                return Outcome::Idle;
            },
            _ => {},
        }
        let silence: u64 = if now >= self.hb {
            now - self.hb
        } else {
            0
        };
        if silence > CLIENT_TIMEOUT {
            let notice = Disconnect { id: self.id };
            self.close();
            Outcome::Stop(notice)
        } else {
            Outcome::Ping
        }
    }

    /// A tick of the chunk-delivery timer.
    ///
    /// While the session is active and no request is under way, the oldest
    /// chunk that the client waits for leaves the queue and is asked of the
    /// manager. At most one request is under way at any time.
    pub fn chunk(&mut self) -> (outcome: Outcome)
        requires
            old(self)@.wf(),
        ensures
            final(self)@.wf(),
            final(self)@ == old(self)@.after_chunk(),
            orderly(old(self)@, outcome.notice(), final(self)@),
            if old(self)@.may_ask() {
                outcome.is_request(old(self)@.world_name, old(self)@.requested_chunks[0])
            } else {
                outcome is Idle
            },
    {
        match self.phase {
            Phase::Active => {},
            _ => {
                return Outcome::Idle;
            },
        }
        if self.in_flight.is_some() {
            return Outcome::Idle;
        }
        match self.requested_chunks.pop_front() {
            Some(coords) => {
                self.in_flight = Some(coords);
                assert(self@ =~= old(self)@.after_chunk());
                Outcome::Request(
                    ChunkRequest { world: self.world_name.clone(), needs_voxels: true, coords },
                )
            },
            None => {
                assert(self@ =~= old(self)@);
                Outcome::Idle
            },
        }
    }

    /// Takes the manager's reply to the request that is under way. `None`
    /// stands for a reply that never came.
    ///
    /// A chunk that does not exist yet goes back to the end of the queue, a
    /// chunk that exists is delivered, and a lost reply ends the session. A
    /// reply that no request is waiting for is dropped.
    pub fn chunk_reply(&mut self, reply: Option<ChunkRequestResult>) -> (outcome: Outcome)
        requires
            old(self)@.wf(),
        ensures
            final(self)@.wf(),
            final(self)@ == old(self)@.after_reply(reply),
            orderly(old(self)@, outcome.notice(), final(self)@),
            old(self)@.reply_outcome(reply, outcome),
    {
        let coords = match self.in_flight {
            Some(coords) => coords,
            None => {
                return Outcome::Idle;
            },
        };
        match reply {
            None => {
                let notice = Disconnect { id: self.id };
                self.close();
                Outcome::Stop(notice)
            },
            Some(result) => {
                self.in_flight = None;
                match result.protocol {
                    None => {
                        self.requested_chunks.push_back(coords);
                        Outcome::Idle
                    },
                    Some(protocol) => Outcome::Deliver(protocol),
                }
            },
        }
    }

    /// Acts on one decoded message of the client.
    ///
    /// A request puts the chunk it names at the end of the queue. A player
    /// report replaces name, position and orientation; where the position
    /// lies in another chunk than the one recorded, that chunk is recorded
    /// and generation around it is triggered, once. The other messages
    /// belong to other parts of the server and change nothing here. A
    /// message that cannot be acted on ends the session. A session that is
    /// not active ignores every message.
    pub fn on_request(&mut self, message: Packet) -> (outcome: Outcome)
        requires
            old(self)@.wf(),
        ensures
            final(self)@.wf(),
            final(self)@ == old(self)@.after_packet(message),
            orderly(old(self)@, outcome.notice(), final(self)@),
            old(self)@.packet_outcome(message, outcome),
    {
        let metrics = match self.phase {
            Phase::Active => match self.metrics {
                Some(metrics) => metrics,
                None => {
                    return Outcome::Idle;
                },
            },
            _ => {
                return Outcome::Idle;
            },
        };
        match message.kind {
            MessageType::Request => {
                match message.requested_chunk() {
                    Some(coords) => {
                        self.requested_chunks.push_back(coords);
                        Outcome::Idle
                    },
                    None => {
                        let notice = Disconnect { id: self.id };
                        self.close();
                        Outcome::Stop(notice)
                    },
                }
            },
            MessageType::Peer => {
                if message.peers.len() == 0 {
                    let notice = Disconnect { id: self.id };
                    self.close();
                    return Outcome::Stop(notice);
                }
                let peer = &message.peers[0];
                let position = Coords3(peer.px, peer.py, peer.pz);
                let new_chunk = map_voxel_to_chunk(
                    &map_world_to_voxel(&position, metrics.dimension),
                    metrics.chunk_size,
                );
                let crossed = match self.current_chunk {
                    Some(chunk) => chunk.0 != new_chunk.0 || chunk.1 != new_chunk.1,
                    None => true,
                };
                self.name = Some(peer.name.clone());
                self.position = position;
                self.rotation = Quaternion(peer.qx, peer.qy, peer.qz, peer.qw);
                self.current_chunk = Some(new_chunk);
                if crossed {
                    Outcome::Generate(
                        Generate {
                            world: self.world_name.clone(),
                            coords: new_chunk,
                            render_radius: self.render_radius,
                        },
                    )
                } else {
                    Outcome::Idle
                }
            },
            _ => Outcome::Idle,
        }
    }
}

} // verus!
