//! The manager of worlds and connected clients.
//!
//! One manager owns every world and the registry of clients. Sessions reach
//! it through requests: connect, disconnect, generate, chunk lookup, world
//! listing and broadcast. The manager sends nothing itself: where clients
//! are to be told something, it hands out a notice that names them.
//!
//! A client is known by the id that the manager gives it on connect. Ids
//! are never zero, no two clients hold the same id, and a client is in the
//! client list of exactly one world.

use crate::chunks::{grown, protocol_of, Chunks};
use crate::coords::{Coords2, WorldMetrics};
use crate::messages::{ChunkRequest, ChunkRequestResult, Connect, ConnectionResult, Disconnect, Generate};
use std::collections::HashMap;
use vstd::prelude::*;

verus! {

broadcast use vstd::std_specs::hash::group_hash_axioms;

/// The definition of one world.
#[derive(Clone, Debug, PartialEq, Eq)]
pub struct WorldConfig {
    pub name: String,
    pub metrics: WorldMetrics,
}

/// Metrics of which some may have been left open.
#[derive(Clone, Copy, Debug, PartialEq, Eq, Structural)]
pub struct MetricsOverlay {
    pub chunk_size: Option<u32>,
    pub dimension: Option<u32>,
    pub max_height: Option<u32>,
}

/// `own` where it is given, `default` where it is not.
pub open spec fn or_default(own: Option<u32>, default: Option<u32>) -> Option<u32> {
    match own {
        Some(_) => own,
        None => default,
    }
}

/// The metrics of a world that gives `own` of itself, with `defaults` laid
/// under it: each measure is the world's own where it gives one and the
/// default where it does not. There are no metrics where a measure is given
/// by neither.
pub open spec fn merged(own: MetricsOverlay, defaults: MetricsOverlay) -> Option<WorldMetrics> {
    match (
        or_default(own.chunk_size, defaults.chunk_size),
        or_default(own.dimension, defaults.dimension),
        or_default(own.max_height, defaults.max_height),
    ) {
        (Some(chunk_size), Some(dimension), Some(max_height)) => Some(
            WorldMetrics { chunk_size, dimension, max_height },
        ),
        _ => None,
    }
}

impl WorldConfig {
    /// The definition of the world `name` from what it gives of itself and
    /// the defaults for what it leaves open.
    pub fn merge(name: String, own: &MetricsOverlay, defaults: &MetricsOverlay) -> (config: Option<
        WorldConfig,
    >)
        ensures
            match config {
                Some(config) => config.name == name && merged(*own, *defaults) == Some(config.metrics),
                None => merged(*own, *defaults) is None,
            },
    {
        let chunk_size = match own.chunk_size {
            Some(_) => own.chunk_size,
            None => defaults.chunk_size,
        };
        let dimension = match own.dimension {
            Some(_) => own.dimension,
            None => defaults.dimension,
        };
        let max_height = match own.max_height {
            Some(_) => own.max_height,
            None => defaults.max_height,
        };
        match (chunk_size, dimension, max_height) {
            (Some(chunk_size), Some(dimension), Some(max_height)) => Some(
                WorldConfig { name, metrics: WorldMetrics { chunk_size, dimension, max_height } },
            ),
            _ => None,
        }
    }
}

/// Why the manager could not do what it was asked.
#[derive(Clone, Copy, Debug, PartialEq, Eq, Structural)]
pub enum ServerError {
    /// No world has the name that the request gives.
    WorldNotFound,
    /// Every id is in use.
    IdsExhausted,
}

/// A text together with the ids of the clients that are to receive it, in
/// the order in which they joined.
#[derive(Clone, Debug, PartialEq, Eq)]
pub struct Notice {
    pub recipients: Vec<usize>,
    pub text: String,
}

/// One world: its name, its chunks and the ids of its clients in the order
/// in which they joined.
#[derive(Debug)]
struct World {
    name: String,
    chunks: Chunks,
    clients: Vec<usize>,
}

/// What a world holds, as plain values.
pub struct WorldView {
    pub name: Seq<char>,
    pub metrics: WorldMetrics,
    pub chunks: Map<Coords2, Seq<u32>>,
    pub clients: Seq<usize>,
}

impl View for World {
    type V = WorldView;

    closed spec fn view(&self) -> WorldView {
        WorldView {
            name: self.name@,
            metrics: self.chunks.metrics_of(),
            chunks: self.chunks@,
            clients: self.clients@,
        }
    }
}

/// `ids` without `id`, the rest in the same order.
pub open spec fn without(ids: Seq<usize>, id: usize) -> Seq<usize>
    decreases ids.len(),
{
    if ids.len() == 0 {
        ids
    } else if ids.last() == id {
        without(ids.drop_last(), id)
    } else {
        without(ids.drop_last(), id).push(ids.last())
    }
}

/// `without` keeps exactly the other ids, and keeps them apart.
pub proof fn lemma_without(ids: Seq<usize>, id: usize)
    ensures
        forall|other: usize| without(ids, id).contains(other) <==> ids.contains(other) && other != id,
        ids.no_duplicates() ==> without(ids, id).no_duplicates(),
        !ids.contains(id) ==> without(ids, id) == ids,
        without(ids, id).len() <= ids.len(),
    decreases ids.len(),
{
    if ids.len() != 0 {
        let front = ids.drop_last();
        let last = ids.last();
        lemma_without(front, id);
        assert forall|other: usize| ids.contains(other) <==> front.contains(other) || other
            == last by {
            if ids.contains(other) {
                let i = choose|i: int| 0 <= i < ids.len() && ids[i] == other;
                if i < front.len() {
                    assert(front[i] == other);
                }
            }
            if front.contains(other) {
                let i = choose|i: int| 0 <= i < front.len() && front[i] == other;
                assert(ids[i] == other);
            }
            if other == last {
                assert(ids[ids.len() - 1] == other);
            }
        }
        let rest = without(front, id);
        if last != id {
            let kept = rest.push(last);
            assert forall|other: usize| kept.contains(other) <==> rest.contains(other) || other
                == last by {
                if kept.contains(other) {
                    let i = choose|i: int| 0 <= i < kept.len() && kept[i] == other;
                    if i < rest.len() {
                        assert(rest[i] == other);
                    }
                }
                if rest.contains(other) {
                    let i = choose|i: int| 0 <= i < rest.len() && rest[i] == other;
                    assert(kept[i] == other);
                }
                if other == last {
                    assert(kept[kept.len() - 1] == other);
                }
            }
            if ids.no_duplicates() {
                assert(front.no_duplicates()) by {
                    assert forall|i: int, j: int|
                        0 <= i < front.len() && 0 <= j < front.len() && i != j implies front[i]
                        != front[j] by {
                        assert(ids[i] != ids[j]);
                    }
                }
                assert(!front.contains(last)) by {
                    if front.contains(last) {
                        let i = choose|i: int| 0 <= i < front.len() && front[i] == last;
                        assert(ids[i] != ids[ids.len() - 1]);
                    }
                }
                assert(kept.no_duplicates()) by {
                    assert forall|i: int, j: int|
                        0 <= i < kept.len() && 0 <= j < kept.len() && i != j implies kept[i]
                        != kept[j] by {
                        if i < rest.len() && j < rest.len() {
                            assert(rest[i] != rest[j]);
                        } else if i < rest.len() {
                            assert(rest.contains(rest[i]));
                        } else {
                            assert(rest.contains(rest[j]));
                        }
                    }
                }
            }
            if !ids.contains(id) {
                assert(kept =~= ids);
            }
        } else {
            if ids.no_duplicates() {
                assert forall|i: int, j: int|
                    0 <= i < front.len() && 0 <= j < front.len() && i != j implies front[i]
                    != front[j] by {
                    assert(ids[i] != ids[j]);
                }
            }
        }
    }
}

/// Whether the world at `place` has the name `name`.
pub open spec fn named_at(worlds: Seq<WorldView>, place: int, name: Seq<char>) -> bool {
    0 <= place < worlds.len() && worlds[place].name == name
}

/// The place of the world named `name`, if there is one.
pub open spec fn index_named(worlds: Seq<WorldView>, name: Seq<char>) -> Option<int> {
    if exists|i: int| named_at(worlds, i, name) {
        Some(choose|i: int| named_at(worlds, i, name))
    } else {
        None
    }
}

/// No two worlds have the same name.
pub open spec fn distinct_names(worlds: Seq<WorldView>) -> bool {
    forall|i: int, j: int, name: Seq<char>|
        #![trigger named_at(worlds, i, name), named_at(worlds, j, name)]
        named_at(worlds, i, name) && named_at(worlds, j, name) ==> i == j
}

/// The world that a definition asks for: no chunks yet, no clients yet.
pub open spec fn fresh_world(config: WorldConfig) -> WorldView {
    WorldView {
        name: config.name@,
        metrics: config.metrics,
        chunks: Map::empty(),
        clients: Seq::empty(),
    }
}

/// The worlds that a list of definitions asks for. A definition whose
/// metrics hold a zero divisor is passed over. A definition under a name
/// that an earlier one has used takes the place of that one.
pub open spec fn defined(configs: Seq<WorldConfig>) -> Seq<WorldView>
    decreases configs.len(),
{
    if configs.len() == 0 {
        Seq::empty()
    } else {
        let rest = defined(configs.drop_last());
        let config = configs.last();
        if !config.metrics.wf() {
            rest
        } else {
            match index_named(rest, config.name@) {
                Some(place) => rest.update(place, fresh_world(config)),
                None => rest.push(fresh_world(config)),
            }
        }
    }
}

/// The views of a list of worlds.
spec fn views(worlds: Seq<World>) -> Seq<WorldView> {
    Seq::new(worlds.len(), |i: int| worlds[i]@)
}

/// Looks up the world named `name` in a list without two worlds of one
/// name.
fn find_named(worlds: &Vec<World>, name: &String) -> (found: Option<usize>)
    requires
        distinct_names(views(worlds@)),
    ensures
        match found {
            Some(i) => index_named(views(worlds@), name@) == Some(i as int) && i < worlds@.len(),
            None => index_named(views(worlds@), name@) is None,
        },
{
    let ghost all = views(worlds@);
    let mut i: usize = 0;
    while i < worlds.len()
        invariant
            all == views(worlds@),
            distinct_names(all),
            i <= worlds@.len(),
            forall|j: int| 0 <= j < i ==> !named_at(all, j, name@),
        decreases worlds.len() - i,
    {
        if worlds[i].name == *name {
            proof {
                assert(named_at(all, i as int, name@));
                let chosen = choose|j: int| named_at(all, j, name@);
                assert(named_at(all, chosen, name@));
            }
            return Some(i);
        }
        assert(!named_at(all, i as int, name@));
        i += 1;
    }
    None
}

/// What the manager holds, as plain values: the handle of every connected
/// client by its id, and the worlds in the order of their definition.
pub struct ServerView<H> {
    pub clients: Map<usize, H>,
    pub worlds: Seq<WorldView>,
}

impl<H> ServerView<H> {
    /// The ids of the clients that are connected.
    pub open spec fn live(self) -> Set<usize> {
        self.clients.dom()
    }

    /// Whether `id` is in the client list of the world at `world`.
    pub open spec fn member(self, world: int, id: usize) -> bool {
        0 <= world < self.worlds.len() && self.worlds[world].clients.contains(id)
    }

    /// What holds of every manager.
    pub open spec fn wf(self) -> bool {
        // Finitely many clients are connected, none under the id 0.
        &&& self.clients.dom().finite()
        &&& !self.clients.contains_key(0)
        // No two worlds have the same name.
        &&& distinct_names(self.worlds)
        // Every world has usable metrics and lists no client twice.
        &&& forall|i: int|
            0 <= i < self.worlds.len() ==> (#[trigger] self.worlds[i]).metrics.wf()
                && self.worlds[i].clients.no_duplicates()
        // The clients of the worlds are the connected clients, each in one world.
        &&& forall|i: int, id: usize| #[trigger] self.member(i, id) ==> self.clients.contains_key(id)
        &&& forall|id: usize| #[trigger]
            self.clients.contains_key(id) ==> exists|i: int| self.member(i, id)
        &&& forall|i: int, j: int, id: usize|
            #![trigger self.member(i, id), self.member(j, id)]
            self.member(i, id) && self.member(j, id) ==> i == j
    }

    /// The place of the world named `name`, if there is one.
    pub open spec fn world_index(self, name: Seq<char>) -> Option<int> {
        index_named(self.worlds, name)
    }

    /// The place of the world that `id` is a client of, if it is connected.
    pub open spec fn world_of(self, id: usize) -> Option<int> {
        if exists|i: int| self.member(i, id) {
            Some(choose|i: int| self.member(i, id))
        } else {
            None
        }
    }

    /// The clients that a text for the world named `world` goes to: all of
    /// its clients but `skip_id`, and nobody where there is no such world.
    pub open spec fn audience(self, world: Seq<char>, skip_id: usize) -> Seq<usize> {
        match self.world_index(world) {
            Some(i) => without(self.worlds[i].clients, skip_id),
            None => Seq::empty(),
        }
    }

    /// What the manager answers when asked for the chunk at `coords` of
    /// the world named `world`: the chunk as it is sent, or nothing while it
    /// does not exist, or the error that there is no such world.
    pub open spec fn answer(self, world: Seq<char>, coords: Coords2, needs_voxels: bool) -> Result<
        Option<(i32, i32, Option<Seq<u32>>)>,
        ServerError,
    > {
        match self.world_index(world) {
            Some(i) => Ok(
                if self.worlds[i].chunks.contains_key(coords) {
                    Some(protocol_of(coords, self.worlds[i].chunks[coords], needs_voxels))
                } else {
                    None
                },
            ),
            None => Err(ServerError::WorldNotFound),
        }
    }

    /// The manager after the client `id` with the handle `addr` has joined
    /// the world at `world`.
    pub open spec fn joined(self, world: int, id: usize, addr: H) -> ServerView<H> {
        ServerView {
            clients: self.clients.insert(id, addr),
            worlds: self.worlds.update(
                world,
                WorldView { clients: self.worlds[world].clients.push(id), ..self.worlds[world] },
            ),
        }
    }

    /// The manager after the client `id` has left.
    pub open spec fn left(self, id: usize) -> ServerView<H> {
        match self.world_of(id) {
            Some(world) => ServerView {
                clients: self.clients.remove(id),
                worlds: self.worlds.update(
                    world,
                    WorldView {
                        clients: without(self.worlds[world].clients, id),
                        ..self.worlds[world]
                    },
                ),
            },
            None => self,
        }
    }
}

/// The manager of worlds and connected clients. `H` is the handle through
/// which a client is reached.
pub struct WsServer<H> {
    clients: HashMap<usize, H>,
    worlds: Vec<World>,
}

impl<H> View for WsServer<H> {
    type V = ServerView<H>;

    closed spec fn view(&self) -> ServerView<H> {
        ServerView { clients: self.clients@, worlds: views(self.worlds@) }
    }
}

impl<H> WsServer<H> {
    /// What holds of every manager: what `ServerView::wf` says, and each
    /// world stores its chunks properly.
    pub closed spec fn wf(&self) -> bool {
        &&& self@.wf()
        &&& forall|i: int| 0 <= i < self.worlds@.len() ==> (#[trigger] self.worlds@[i]).chunks.wf()
    }

    /// A manager in good order has a view in good order.
    pub proof fn lemma_wf(&self)
        requires
            self.wf(),
        ensures
            self@.wf(),
    {
    }

    /// Looks up the world named `name`.
    fn find_world(&self, name: &String) -> (found: Option<usize>)
        requires
            self.wf(),
        ensures
            match found {
                Some(i) => self@.world_index(name@) == Some(i as int) && i < self.worlds@.len(),
                None => self@.world_index(name@) is None,
            },
    {
        assert(self@.worlds =~= views(self.worlds@));
        find_named(&self.worlds, name)
    }

    /// The handle of the client `id`, if it is connected.
    pub fn client(&self, id: usize) -> (handle: Option<&H>)
        requires
            self.wf(),
        ensures
            match handle {
                Some(handle) => self@.clients.contains_key(id) && *handle == self@.clients[id],
                None => !self@.clients.contains_key(id),
            },
    {
        self.clients.get(&id)
    }

    /// The number of connected clients.
    pub fn len(&self) -> (count: usize)
        requires
            self.wf(),
        ensures
            count == self@.live().len(),
    {
        self.clients.len()
    }

    /// Whether the client `id` is connected.
    pub fn is_connected(&self, id: usize) -> (connected: bool)
        requires
            self.wf(),
        ensures
            connected == self@.live().contains(id),
    {
        self.clients.contains_key(&id)
    }

    /// The ids of the clients of the world named `world`, in the order in
    /// which they joined.
    pub fn clients_of(&self, world: &str) -> (ids: Option<Vec<usize>>)
        requires
            self.wf(),
        ensures
            match ids {
                Some(ids) => self@.world_index(world@) matches Some(i) && ids@
                    == self@.worlds[i].clients,
                None => self@.world_index(world@) is None,
            },
    {
        match self.find_world(&world.to_owned()) {
            Some(i) => {
                let ids = self.worlds[i].clients.clone();
                assert(ids@ =~= self.worlds@[i as int].clients@);
                Some(ids)
            },
            None => None,
        }
    }

    /// The metrics of the world named `world`.
    pub fn metrics_of(&self, world: &str) -> (metrics: Option<WorldMetrics>)
        requires
            self.wf(),
        ensures
            match metrics {
                Some(metrics) => self@.world_index(world@) matches Some(i) && metrics
                    == self@.worlds[i].metrics,
                None => self@.world_index(world@) is None,
            },
    {
        match self.find_world(&world.to_owned()) {
            Some(i) => Some(self.worlds[i].chunks.metrics()),
            None => None,
        }
    }

    /// The number of chunks that exist in the world named `world`.
    pub fn chunk_count(&self, world: &str) -> (count: Option<usize>)
        requires
            self.wf(),
        ensures
            match count {
                Some(count) => self@.world_index(world@) matches Some(i) && count
                    == self@.worlds[i].chunks.dom().len(),
                None => self@.world_index(world@) is None,
            },
    {
        match self.find_world(&world.to_owned()) {
            Some(i) => Some(self.worlds[i].chunks.len()),
            None => None,
        }
    }

    /// The names of the worlds, in the order of their definition.
    pub fn list_worlds(&self) -> (names: Vec<String>)
        requires
            self.wf(),
        ensures
            names@.len() == self@.worlds.len(),
            forall|i: int| 0 <= i < names@.len() ==> (#[trigger] names@[i])@ == self@.worlds[i].name,
    {
        let mut names: Vec<String> = Vec::new();
        let mut i: usize = 0;
        while i < self.worlds.len()
            invariant
                i <= self.worlds@.len(),
                names@.len() == i,
                forall|j: int| 0 <= j < i ==> (#[trigger] names@[j])@ == self@.worlds[j].name,
            decreases self.worlds.len() - i,
        {
            names.push(self.worlds[i].name.clone());
            i += 1;
        }
        names
    }

    /// Names the clients that `message` goes to: every client of `world`
    /// but `skip_id`, in the order in which they joined. Nobody is named
    /// where no world has that name.
    pub fn send_message(&self, world: &str, message: &str, skip_id: usize) -> (notice: Notice)
        requires
            self.wf(),
        ensures
            notice.text@ == message@,
            notice.recipients@ == self@.audience(world@, skip_id),
    {
        let name = world.to_owned();
        let recipients = match self.find_world(&name) {
            Some(i) => others(&self.worlds[i].clients, skip_id),
            None => Vec::new(),
        };
        Notice { recipients, text: message.to_owned() }
    }

    /// Looks a chunk up for a session. The reply holds the chunk, with its
    /// voxels if and only if they were asked for, or nothing while the
    /// chunk does not exist. Nothing changes by asking, so that the same
    /// question gets the same answer until the world changes.
    pub fn chunk_request(&self, request: &ChunkRequest) -> (reply: Result<ChunkRequestResult, ServerError>)
        requires
            self.wf(),
        ensures
            reply_view(reply) == self@.answer(request.world@, request.coords, request.needs_voxels),
    {
        match self.find_world(&request.world) {
            Some(i) => {
                let protocol = match self.worlds[i].chunks.get(&request.coords) {
                    Some(chunk) => Some(chunk.get_protocol(request.needs_voxels)),
                    None => None,
                };
                Ok(ChunkRequestResult { protocol })
            },
            None => Err(ServerError::WorldNotFound),
        }
    }
}

/// A reply to a chunk request, as plain values.
pub open spec fn reply_view(reply: Result<ChunkRequestResult, ServerError>) -> Result<
    Option<(i32, i32, Option<Seq<u32>>)>,
    ServerError,
> {
    match reply {
        Ok(result) => Ok(
            match result.protocol {
                Some(protocol) => Some(protocol@),
                None => None,
            },
        ),
        Err(error) => Err(error),
    }
}

/// The first id from `low` up to `high` that is not in `taken`.
pub open spec fn first_free(taken: Set<usize>, low: int, high: int) -> Option<usize>
    decreases high - low + 1,
{
    if low > high {
        None
    } else if !taken.contains(low as usize) {
        Some(low as usize)
    } else {
        first_free(taken, low + 1, high)
    }
}

/// The id that a newcomer gets when the ids in `taken` are in use and the
/// number `seed` was drawn: the first free id from the seed upwards, or
/// else the first free id below it. The id is never 0.
pub open spec fn fresh_id(taken: Set<usize>, seed: usize) -> Option<usize> {
    let start = if seed == 0 {
        1
    } else {
        seed as int
    };
    match first_free(taken, start, usize::MAX as int) {
        Some(id) => Some(id),
        None => first_free(taken, 1, start - 1),
    }
}

/// What `first_free` finds is free and the first of its kind; where it
/// finds nothing, nothing is free.
pub proof fn lemma_first_free(taken: Set<usize>, low: int, high: int)
    requires
        0 <= low,
        high <= usize::MAX,
    ensures
        match first_free(taken, low, high) {
            Some(id) => low <= id <= high && !taken.contains(id) && forall|other: usize|
                low <= other < id ==> taken.contains(other),
            None => forall|other: usize| low <= other <= high ==> taken.contains(other),
        },
    decreases high - low + 1,
{
    if low <= high && taken.contains(low as usize) {
        lemma_first_free(taken, low + 1, high);
    }
}

/// A fresh id is not 0 and not in use. There is none only where every id
/// but 0 is in use.
pub proof fn lemma_fresh_id(taken: Set<usize>, seed: usize)
    ensures
        match fresh_id(taken, seed) {
            Some(id) => id != 0 && !taken.contains(id),
            None => forall|other: usize| other != 0 ==> taken.contains(other),
        },
{
    let start = if seed == 0 {
        1
    } else {
        seed as int
    };
    lemma_first_free(taken, start, usize::MAX as int);
    lemma_first_free(taken, 1, start - 1);
}

/// As long as fewer ids are in use than there are ids other than 0, there
/// is a fresh one.
pub proof fn lemma_room_for_one(taken: Set<usize>, seed: usize)
    requires
        taken.finite(),
        taken.len() < usize::MAX,
    ensures
        fresh_id(taken, seed) is Some,
{
    lemma_fresh_id(taken, seed);
    if fresh_id(taken, seed) is None {
        let numbers = vstd::set_lib::set_int_range(1, usize::MAX + 1);
        let narrow = |i: int| i as usize;
        vstd::set_lib::lemma_int_range(1, usize::MAX + 1);
        let ids = numbers.map(narrow);
        assert(vstd::relations::injective_on(narrow, numbers));
        vstd::set_lib::lemma_map_size(numbers, ids, narrow);
        assert(ids.subset_of(taken)) by {
            assert forall|id: usize| ids.contains(id) implies taken.contains(id) by {
                let i = choose|i: int| numbers.contains(i) && id == narrow(i);
                assert(id != 0);
            }
        }
        vstd::set_lib::lemma_len_subset(ids, taken);
    }
}

/// What generation does to the answers of the manager.
///
/// `before` and `after` are a manager before and after it has generated
/// the chunks around `center` in the world named `world`. After that, a
/// chunk of that area is ready. A chunk outside the area is ready if and
/// only if it was ready before. And a chunk that was ready before is
/// answered with exactly what it was answered with before.
pub proof fn lemma_generation_and_answers<H, G: Fn(i32, i32) -> Vec<u32>>(
    before: ServerView<H>,
    after: ServerView<H>,
    world: Seq<char>,
    center: Coords2,
    render_radius: i16,
    generator: &G,
    coords: Coords2,
    needs_voxels: bool,
)
    requires
        before.wf(),
        before.world_index(world) matches Some(i) && after.worlds == before.worlds.update(
            i,
            WorldView { chunks: after.worlds[i].chunks, ..before.worlds[i] },
        ) && grown(
            before.worlds[i].chunks,
            after.worlds[i].chunks,
            center,
            render_radius,
            generator,
        ),
    ensures
        crate::chunks::in_area(coords, center, render_radius) ==> after.answer(
            world,
            coords,
            needs_voxels,
        ) matches Ok(Some(_)),
        !crate::chunks::in_area(coords, center, render_radius) ==> (after.answer(
            world,
            coords,
            needs_voxels,
        ) matches Ok(Some(_)) <==> before.answer(world, coords, needs_voxels) matches Ok(Some(_))),
        before.answer(world, coords, needs_voxels) matches Ok(Some(_)) ==> after.answer(
            world,
            coords,
            needs_voxels,
        ) == before.answer(world, coords, needs_voxels),
{
    let i = before.world_index(world).unwrap();
    assert(named_at(before.worlds, i, world));
    assert(named_at(after.worlds, i, world));
    let j = choose|j: int| named_at(after.worlds, j, world);
    assert(named_at(before.worlds, j, world));
    assert(after.world_index(world) == Some(i));
}

/// One change of the set of connected clients.
pub enum Change {
    /// A connect that gave out this id.
    Joined(usize),
    /// A disconnect of this id.
    Left(usize),
}

/// Says that `change` leads from the clients connected `before` to those
/// connected `after`: a connect adds the id it gave out, which was not in
/// use, and a disconnect takes its id away.
pub open spec fn follows(before: Set<usize>, change: Change, after: Set<usize>) -> bool {
    match change {
        Change::Joined(id) => !before.contains(id) && after == before.insert(id),
        Change::Left(id) => after == before.remove(id),
    }
}

/// Whether `id` was given out by a connect in `changes` and not taken away
/// by a disconnect after that.
pub open spec fn still_connected(changes: Seq<Change>, id: usize) -> bool {
    exists|i: int|
        0 <= i < changes.len() && #[trigger] changes[i] == Change::Joined(id) && forall|j: int|
            i < j < changes.len() ==> #[trigger] changes[j] != Change::Left(id)
}

/// However connects and disconnects follow each other, the clients that
/// are connected at the end are exactly those that have connected and
/// have not disconnected since.
///
/// `live[0]` is the set of connected clients of a new manager, and
/// `live[i + 1]` the set after the change `changes[i]`.
pub proof fn lemma_live_sessions(live: Seq<Set<usize>>, changes: Seq<Change>)
    requires
        live.len() == changes.len() + 1,
        live[0] == Set::<usize>::empty(),
        forall|i: int| 0 <= i < changes.len() ==> follows(live[i], #[trigger] changes[i], live[i + 1]),
    ensures
        forall|id: usize| live.last().contains(id) <==> still_connected(changes, id),
    decreases changes.len(),
{
    if changes.len() == 0 {
        assert forall|id: usize| !still_connected(changes, id) by {}
    } else {
        let n = changes.len() - 1;
        let earlier = changes.drop_last();
        let states = live.drop_last();
        assert forall|i: int| 0 <= i < earlier.len() implies follows(
            states[i],
            #[trigger] earlier[i],
            states[i + 1],
        ) by {
            assert(follows(live[i], changes[i], live[i + 1]));
        }
        lemma_live_sessions(states, earlier);
        assert(states.last() == live[n]);
        assert(follows(live[n], changes[n], live[n + 1]));
        assert forall|id: usize| live.last().contains(id) <==> still_connected(changes, id) by {
            if still_connected(earlier, id) {
                let i = choose|i: int|
                    0 <= i < earlier.len() && #[trigger] earlier[i] == Change::Joined(id) && forall|
                        j: int,
                    |
                        i < j < earlier.len() ==> #[trigger] earlier[j] != Change::Left(id);
                assert(changes[i] == earlier[i]);
                if changes[n] != Change::Left(id) {
                    assert forall|j: int| i < j < changes.len() implies #[trigger] changes[j]
                        != Change::Left(id) by {
                        if j < n {
                            assert(earlier[j] == changes[j]);
                        }
                    }
                }
            }
            if still_connected(changes, id) {
                let i = choose|i: int|
                    0 <= i < changes.len() && #[trigger] changes[i] == Change::Joined(id) && forall|
                        j: int,
                    |
                        i < j < changes.len() ==> #[trigger] changes[j] != Change::Left(id);
                if i < n {
                    assert(earlier[i] == changes[i]);
                    assert forall|j: int| i < j < earlier.len() implies #[trigger] earlier[j]
                        != Change::Left(id) by {
                        assert(earlier[j] == changes[j]);
                    }
                    assert(still_connected(earlier, id));
                    assert(changes[n] != Change::Left(id));
                }
            }
            if changes[n] == Change::Joined(id) {
                assert(still_connected(changes, id));
            }
        }
    }
}

/// A newcomer with a fresh id leaves the manager in good order.
pub proof fn lemma_joined<H>(before: ServerView<H>, world: int, id: usize, addr: H)
    requires
        before.wf(),
        0 <= world < before.worlds.len(),
        id != 0,
        !before.clients.contains_key(id),
    ensures
        before.joined(world, id, addr).wf(),
        before.joined(world, id, addr).live() == before.live().insert(id),
{
    let after = before.joined(world, id, addr);
    let list = before.worlds[world].clients;
    assert(after.live() =~= before.live().insert(id));
    // What the new client lists hold.
    assert forall|i: int, other: usize| #[trigger]
        after.member(i, other) <==> before.member(i, other) || (i == world && other == id) by {
        if 0 <= i < after.worlds.len() {
            if i == world {
                let more = list.push(id);
                if more.contains(other) {
                    let k = choose|k: int| 0 <= k < more.len() && more[k] == other;
                    if k < list.len() {
                        assert(list[k] == other);
                    }
                }
                if list.contains(other) {
                    let k = choose|k: int| 0 <= k < list.len() && list[k] == other;
                    assert(more[k] == other);
                }
                assert(more[list.len() as int] == id);
            }
        }
    }
    assert(!before.member(world, id));
    assert forall|i: int, j: int, name: Seq<char>|
        #![trigger named_at(after.worlds, i, name), named_at(after.worlds, j, name)]
        named_at(after.worlds, i, name) && named_at(after.worlds, j, name) implies i == j by {
        assert(named_at(before.worlds, i, name) && named_at(before.worlds, j, name));
    }
    assert forall|i: int| 0 <= i < after.worlds.len() implies (#[trigger] after.worlds[i]).metrics.wf()
        && after.worlds[i].clients.no_duplicates() by {
        assert(before.worlds[i].metrics.wf() && before.worlds[i].clients.no_duplicates());
        if i == world {
            let more = list.push(id);
            assert forall|a: int, b: int|
                0 <= a < more.len() && 0 <= b < more.len() && a != b implies more[a] != more[b] by {
                if a < list.len() && b < list.len() {
                    assert(list[a] != list[b]);
                } else if a < list.len() {
                    assert(list.contains(list[a]));
                    assert(before.member(world, list[a]));
                } else {
                    assert(list.contains(list[b]));
                    assert(before.member(world, list[b]));
                }
            }
        }
    }
    assert forall|i: int, other: usize| #[trigger] after.member(i, other) implies after.clients.contains_key(
        other,
    ) by {
        if before.member(i, other) {
            assert(before.clients.contains_key(other));
        }
    }
    assert forall|other: usize| #[trigger] after.clients.contains_key(other) implies exists|i: int|
        after.member(i, other) by {
        if other == id {
            assert(after.member(world, id));
        } else {
            assert(before.clients.contains_key(other));
            let i = choose|i: int| before.member(i, other);
            assert(after.member(i, other));
        }
    }
    assert forall|i: int, j: int, other: usize|
        #![trigger after.member(i, other), after.member(j, other)]
        after.member(i, other) && after.member(j, other) implies i == j by {
        if other == id {
            assert(!before.member(i, id)) by {
                if before.member(i, id) {
                    assert(before.clients.contains_key(id));
                }
            }
            assert(!before.member(j, id)) by {
                if before.member(j, id) {
                    assert(before.clients.contains_key(id));
                }
            }
        } else {
            assert(before.member(i, other) && before.member(j, other));
        }
    }
}

/// A client that leaves is gone from the registry and from its world, and
/// the manager stays in good order.
pub proof fn lemma_left<H>(before: ServerView<H>, id: usize)
    requires
        before.wf(),
    ensures
        before.left(id).wf(),
        before.left(id).live() == before.live().remove(id),
        before.world_of(id) is Some <==> before.clients.contains_key(id),
        before.world_of(id) matches Some(world) ==> before.member(world, id),
{
    let after = before.left(id);
    if before.clients.contains_key(id) {
        let witness = choose|i: int| before.member(i, id);
        assert(before.member(witness, id));
    }
    match before.world_of(id) {
        None => {
            assert(!before.clients.contains_key(id));
            assert(after.live() =~= before.live().remove(id));
        },
        Some(world) => {
            assert(before.member(world, id));
            assert(before.clients.contains_key(id));
            let list = before.worlds[world].clients;
            lemma_without(list, id);
            assert(after.live() =~= before.live().remove(id));
            assert forall|i: int, other: usize| #[trigger]
                after.member(i, other) <==> before.member(i, other) && other != id by {
                if before.member(i, id) {
                    assert(i == world);
                }
            }
            assert forall|i: int, j: int, name: Seq<char>|
                #![trigger named_at(after.worlds, i, name), named_at(after.worlds, j, name)]
                named_at(after.worlds, i, name) && named_at(after.worlds, j, name) implies i == j by {
                assert(named_at(before.worlds, i, name) && named_at(before.worlds, j, name));
            }
            assert forall|i: int| 0 <= i < after.worlds.len() implies (
            #[trigger] after.worlds[i]).metrics.wf() && after.worlds[i].clients.no_duplicates() by {
                assert(before.worlds[i].metrics.wf() && before.worlds[i].clients.no_duplicates());
            }
            assert forall|i: int, other: usize| #[trigger]
                after.member(i, other) implies after.clients.contains_key(other) by {
                assert(before.member(i, other));
            }
            assert forall|other: usize| #[trigger]
                after.clients.contains_key(other) implies exists|i: int| after.member(i, other) by {
                assert(before.clients.contains_key(other));
                let i = choose|i: int| before.member(i, other);
                assert(after.member(i, other));
            }
            assert forall|i: int, j: int, other: usize|
                #![trigger after.member(i, other), after.member(j, other)]
                after.member(i, other) && after.member(j, other) implies i == j by {
                assert(before.member(i, other) && before.member(j, other));
            }
        },
    }
}

/// The worlds that a list of definitions asks for are in good order: no
/// two of one name, each with usable metrics and without clients.
pub proof fn lemma_defined(configs: Seq<WorldConfig>)
    ensures
        distinct_names(defined(configs)),
        forall|i: int|
            0 <= i < defined(configs).len() ==> (#[trigger] defined(configs)[i]).metrics.wf()
                && defined(configs)[i].clients.len() == 0 && defined(configs)[i].chunks
                == Map::<Coords2, Seq<u32>>::empty(),
    decreases configs.len(),
{
    if configs.len() != 0 {
        let rest = defined(configs.drop_last());
        let config = configs.last();
        lemma_defined(configs.drop_last());
        if config.metrics.wf() {
            lemma_placed(rest, fresh_world(config));
        }
    }
}

/// Putting a world under its name, in the place of the world of that name
/// or else at the end, keeps the names apart.
proof fn lemma_placed(rest: Seq<WorldView>, world: WorldView)
    requires
        distinct_names(rest),
    ensures
        distinct_names(
            match index_named(rest, world.name) {
                Some(place) => rest.update(place, world),
                None => rest.push(world),
            },
        ),
        index_named(rest, world.name) matches Some(place) ==> 0 <= place < rest.len(),
{
    match index_named(rest, world.name) {
        Some(place) => {
            let all = rest.update(place, world);
            assert(named_at(rest, place, world.name));
            assert forall|i: int, j: int, name: Seq<char>|
                #![trigger named_at(all, i, name), named_at(all, j, name)]
                named_at(all, i, name) && named_at(all, j, name) implies i == j by {
                assert(named_at(rest, i, name) && named_at(rest, j, name));
            }
        },
        None => {
            let all = rest.push(world);
            assert forall|i: int, j: int, name: Seq<char>|
                #![trigger named_at(all, i, name), named_at(all, j, name)]
                named_at(all, i, name) && named_at(all, j, name) implies i == j by {
                if i < rest.len() {
                    assert(named_at(rest, i, name));
                }
                if j < rest.len() {
                    assert(named_at(rest, j, name));
                }
            }
        },
    }
}

/// Draws the number from which the search for a free id starts.
///
/// Calls `rand::random::<usize>`, which reads the generator of the current
/// thread. Nothing is claimed of the number drawn. The generator takes its
/// seed from the operating system and panics where it gets none; no
/// argument decides over that.
#[verifier::external_body]
fn random_id() -> (seed: usize) {
    rand::random::<usize>()
}

/// Says whether `id` is among `ids`.
fn holds_id(ids: &Vec<usize>, id: usize) -> (found: bool)
    ensures
        found == ids@.contains(id),
{
    let mut i: usize = 0;
    while i < ids.len()
        invariant
            i <= ids.len(),
            forall|j: int| 0 <= j < i ==> ids@[j] != id,
        decreases ids.len() - i,
    {
        if ids[i] == id {
            return true;
        }
        i += 1;
    }
    false
}

impl<H> WsServer<H> {
    /// A manager of the worlds that `configs` defines, without clients and
    /// without chunks.
    pub fn new(configs: Vec<WorldConfig>) -> (server: WsServer<H>)
        ensures
            server.wf(),
            server@.clients == Map::<usize, H>::empty(),
            server@.worlds == defined(configs@),
    {
        let mut worlds: Vec<World> = Vec::new();
        let mut i: usize = 0;
        while i < configs.len()
            invariant
                i <= configs.len(),
                views(worlds@) == defined(configs@.take(i as int)),
                forall|j: int| 0 <= j < worlds@.len() ==> (#[trigger] worlds@[j]).chunks.wf(),
            decreases configs.len() - i,
        {
            proof {
                assert(configs@.take(i + 1).drop_last() =~= configs@.take(i as int));
                lemma_defined(configs@.take(i as int));
                lemma_defined(configs@.take(i + 1));
            }
            match Chunks::new(configs[i].metrics) {
                Some(chunks) => {
                    let name = configs[i].name.clone();
                    let ghost before = views(worlds@);
                    let ghost added = fresh_world(configs@[i as int]);
                    match find_named(&worlds, &name) {
                        Some(place) => {
                            worlds.set(place, World { name, chunks, clients: Vec::new() });
                            assert(views(worlds@) =~= before.update(place as int, added));
                        },
                        None => {
                            worlds.push(World { name, chunks, clients: Vec::new() });
                            assert(views(worlds@) =~= before.push(added));
                        },
                    }
                },
                None => {},
            }
            i += 1;
        }
        let server = WsServer { clients: HashMap::new(), worlds };
        proof {
            assert(configs@.take(i as int) =~= configs@);
            lemma_defined(configs@);
            assert forall|j: int, id: usize| !(#[trigger] server@.member(j, id)) by {
                if server@.member(j, id) {
                    assert(server@.worlds[j].clients.len() == 0);
                }
            }
        }
        server
    }

    /// Takes the client that `msg` names out of the registry and out of
    /// its world.
    ///
    /// The notice tells the clients that stay in that world that someone
    /// left. For a client that is not connected nothing changes and nobody
    /// is told.
    pub fn disconnect(&mut self, msg: Disconnect) -> (notices: Vec<Notice>)
        requires
            old(self).wf(),
        ensures
            final(self).wf(),
            final(self)@ == old(self)@.left(msg.id),
            follows(old(self)@.live(), Change::Left(msg.id), final(self)@.live()),
            match old(self)@.world_of(msg.id) {
                Some(world) => {
                    &&& notices@.len() == 1
                    &&& notices@[0].recipients@ == without(old(self)@.worlds[world].clients, msg.id)
                    &&& notices@[0].text@ == "Someone disconnected"@
                },
                None => notices@.len() == 0,
            },
    {
        let id = msg.id;
        let mut notices: Vec<Notice> = Vec::new();
        proof {
            lemma_left(self@, id);
        }
        if !self.clients.contains_key(&id) {
            return notices;
        }
        let ghost home = self@.world_of(id).unwrap();
        let mut world: usize = 0;
        while world < self.worlds.len() && !holds_id(&self.worlds[world].clients, id)
            invariant
                self.wf(),
                world <= self.worlds@.len(),
                self@.member(home, id),
                forall|j: int| 0 <= j < world ==> !self@.member(j, id),
            decreases self.worlds.len() - world,
        {
            assert(!self@.member(world as int, id));
            world += 1;
        }
        if world < self.worlds.len() {
            assert(self@.member(world as int, id));
            let rest = others(&self.worlds[world].clients, id);
            let recipients = rest.clone();
            assert(recipients@ =~= rest@);
            self.clients.remove(&id);
            self.worlds[world].clients = rest;
            notices.push(Notice { recipients, text: "Someone disconnected".to_owned() });
            proof {
                let after = old(self)@.left(id);
                assert(self@.worlds =~= after.worlds);
                assert(self@.clients =~= after.clients);
            }
        }
        notices
    }

    /// Generates the chunks around the coordinate that `data` names, in
    /// the world that it names. `generator` makes the voxels of a chunk
    /// from its coordinate. Where no world has that name, nothing changes.
    pub fn generate<G: Fn(i32, i32) -> Vec<u32>>(&mut self, data: Generate, generator: &G) -> (done:
        Result<(), ServerError>)
        requires
            old(self).wf(),
            forall|x: i32, z: i32| call_requires(*generator, (x, z)),
        ensures
            final(self).wf(),
            match done {
                Ok(_) => {
                    &&& old(self)@.world_index(data.world@) matches Some(i)
                    &&& final(self)@.clients == old(self)@.clients
                    &&& final(self)@.worlds == old(self)@.worlds.update(
                        i,
                        WorldView { chunks: final(self)@.worlds[i].chunks, ..old(self)@.worlds[i] },
                    )
                    &&& grown(
                        old(self)@.worlds[i].chunks,
                        final(self)@.worlds[i].chunks,
                        data.coords,
                        data.render_radius,
                        generator,
                    )
                },
                Err(error) => {
                    &&& error == ServerError::WorldNotFound
                    &&& old(self)@.world_index(data.world@) is None
                    &&& final(self)@ == old(self)@
                },
            },
    {
        match self.find_world(&data.world) {
            Some(world) => {
                self.worlds[world].chunks.generate(data.coords, data.render_radius, generator);
                proof {
                    let i = world as int;
                    let after = old(self)@.worlds.update(
                        i,
                        WorldView { chunks: self@.worlds[i].chunks, ..old(self)@.worlds[i] },
                    );
                    assert(self@.worlds =~= after);
                    assert forall|j: int, id: usize| #[trigger]
                        self@.member(j, id) <==> old(self)@.member(j, id) by {}
                    assert forall|j: int, name: Seq<char>| #[trigger]
                        named_at(self@.worlds, j, name) <==> named_at(old(self)@.worlds, j, name) by {}
                    assert(self@.wf()) by {
                        assert forall|j: int| 0 <= j < self@.worlds.len() implies (
                        #[trigger] self@.worlds[j]).metrics.wf()
                            && self@.worlds[j].clients.no_duplicates() by {
                            assert(old(self)@.worlds[j].metrics.wf());
                        }
                        assert forall|id: usize| #[trigger]
                            self@.clients.contains_key(id) implies exists|j: int|
                            self@.member(j, id) by {
                            let j = choose|j: int| old(self)@.member(j, id);
                            assert(self@.member(j, id));
                        }
                    }
                }
                Ok(())
            },
            None => Err(ServerError::WorldNotFound),
        }
    }

    /// Finds the id for a newcomer, starting the search at `seed`.
    fn pick_id(&self, seed: usize) -> (id: Option<usize>)
        requires
            self.wf(),
        ensures
            id == fresh_id(self@.live(), seed),
    {
        let start: usize = if seed == 0 {
            1
        } else {
            seed
        };
        let ghost taken = self@.live();
        let mut candidate: usize = start;
        while candidate < usize::MAX
            invariant
                taken == self@.live(),
                start == if seed == 0 { 1 } else { seed },
                1 <= start <= candidate <= usize::MAX,
                first_free(taken, start as int, usize::MAX as int) == first_free(
                    taken,
                    candidate as int,
                    usize::MAX as int,
                ),
            decreases usize::MAX - candidate,
        {
            if !self.clients.contains_key(&candidate) {
                assert(first_free(taken, candidate as int, usize::MAX as int) == Some(candidate));
                return Some(candidate);
            }
            candidate += 1;
        }
        if !self.clients.contains_key(&candidate) {
            assert(first_free(taken, candidate as int, usize::MAX as int) == Some(candidate));
            return Some(candidate);
        }
        assert(first_free(taken, usize::MAX + 1, usize::MAX as int) is None);
        let mut candidate: usize = 1;
        while candidate < start
            invariant
                taken == self@.live(),
                start == if seed == 0 { 1 } else { seed },
                first_free(taken, start as int, usize::MAX as int) is None,
                1 <= candidate <= start,
                first_free(taken, 1, start - 1) == first_free(taken, candidate as int, start - 1),
            decreases start - candidate,
        {
            if !self.clients.contains_key(&candidate) {
                assert(first_free(taken, candidate as int, start - 1) == Some(candidate));
                return Some(candidate);
            }
            candidate += 1;
        }
        None
    }

    /// Registers a connection in the world that `msg` names, under the
    /// first free id from `seed` on.
    ///
    /// The newcomer is entered in the registry and at the end of the
    /// world's client list. The reply holds its id and the metrics of the
    /// world; the notice tells the clients that were in the world before
    /// that someone joined. Where no world has that name, or no id is free,
    /// nothing changes.
    pub fn connect_with(&mut self, msg: Connect<H>, seed: usize) -> (reply: Result<
        (ConnectionResult, Notice),
        ServerError,
    >)
        requires
            old(self).wf(),
        ensures
            final(self).wf(),
            match reply {
                Ok((result, notice)) => {
                    &&& old(self)@.world_index(msg.world_name@) matches Some(i)
                    &&& fresh_id(old(self)@.live(), seed) == Some(result.id)
                    &&& result.metrics == old(self)@.worlds[i].metrics
                    &&& notice.recipients@ == old(self)@.worlds[i].clients
                    &&& notice.text@ == "Someone joined"@
                    &&& final(self)@ == old(self)@.joined(i, result.id, msg.addr)
                    &&& follows(old(self)@.live(), Change::Joined(result.id), final(self)@.live())
                },
                Err(ServerError::WorldNotFound) => {
                    &&& old(self)@.world_index(msg.world_name@) is None
                    &&& final(self)@ == old(self)@
                },
                Err(ServerError::IdsExhausted) => {
                    &&& old(self)@.world_index(msg.world_name@) is Some
                    &&& fresh_id(old(self)@.live(), seed) is None
                    &&& final(self)@ == old(self)@
                },
            },
    {
        let world = match self.find_world(&msg.world_name) {
            Some(world) => world,
            None => {
                return Err(ServerError::WorldNotFound);
            },
        };
        let id = match self.pick_id(seed) {
            Some(id) => id,
            None => {
                return Err(ServerError::IdsExhausted);
            },
        };
        proof {
            lemma_fresh_id(self@.live(), seed);
        }
        let metrics = self.worlds[world].chunks.metrics();
        let recipients = self.worlds[world].clients.clone();
        assert(recipients@ =~= self.worlds@[world as int].clients@);
        let notice = Notice { recipients, text: "Someone joined".to_owned() };
        self.clients.insert(id, msg.addr);
        self.worlds[world].clients.push(id);
        proof {
            let after = old(self)@.joined(world as int, id, msg.addr);
            assert(self@.worlds =~= after.worlds);
            assert(self@.clients =~= after.clients);
            lemma_joined(old(self)@, world as int, id, msg.addr);
        }
        Ok((ConnectionResult { id, metrics }, notice))
    }

    /// Registers a connection in the world that `msg` names, under an id
    /// that no connected client holds. The search for the id starts at a
    /// number drawn at random; see `connect_with` for the rest.
    pub fn connect(&mut self, msg: Connect<H>) -> (reply: Result<(ConnectionResult, Notice), ServerError>)
        requires
            old(self).wf(),
        ensures
            final(self).wf(),
            match reply {
                Ok((result, notice)) => {
                    &&& old(self)@.world_index(msg.world_name@) matches Some(i)
                    &&& result.id != 0
                    &&& !old(self)@.live().contains(result.id)
                    &&& result.metrics == old(self)@.worlds[i].metrics
                    &&& notice.recipients@ == old(self)@.worlds[i].clients
                    &&& notice.text@ == "Someone joined"@
                    &&& final(self)@ == old(self)@.joined(i, result.id, msg.addr)
                    &&& follows(old(self)@.live(), Change::Joined(result.id), final(self)@.live())
                },
                Err(ServerError::WorldNotFound) => {
                    &&& old(self)@.world_index(msg.world_name@) is None
                    &&& final(self)@ == old(self)@
                },
                Err(ServerError::IdsExhausted) => {
                    &&& old(self)@.world_index(msg.world_name@) is Some
                    &&& old(self)@.live().len() >= usize::MAX
                    &&& final(self)@ == old(self)@
                },
            },
    {
        let seed = random_id();
        proof {
            lemma_fresh_id(self@.live(), seed);
            if self@.live().len() < usize::MAX {
                lemma_room_for_one(self@.live(), seed);
            }
        }
        self.connect_with(msg, seed)
    }
}

/// Copies `ids` without `id`.
fn others(ids: &Vec<usize>, id: usize) -> (rest: Vec<usize>)
    ensures
        rest@ == without(ids@, id),
{
    let mut rest: Vec<usize> = Vec::new();
    let mut i: usize = 0;
    while i < ids.len()
        invariant
            i <= ids.len(),
            rest@ == without(ids@.take(i as int), id),
        decreases ids.len() - i,
    {
        assert(ids@.take(i + 1).drop_last() =~= ids@.take(i as int));
        if ids[i] != id {
            rest.push(ids[i]);
        }
        i += 1;
    }
    assert(ids@.take(i as int) =~= ids@);
    rest
}

} // verus!
