//! The chunks of one world.
//!
//! A chunk comes into being when generation is triggered around it and
//! stays as it is from then on. What its voxels are is not decided here:
//! the store asks a generator for them, once for each chunk.

use crate::coords::{Coords2, WorldMetrics};
use crate::models::ChunkProtocol;
use vstd::prelude::*;

verus! {

/// One generated chunk.
#[derive(Clone, Debug, PartialEq, Eq)]
pub struct Chunk {
    pub coords: Coords2,
    pub voxels: Vec<u32>,
}

/// What a chunk looks like on the wire as plain values: its coordinate and
/// the voxels, where they are sent along.
pub open spec fn protocol_of(coords: Coords2, voxels: Seq<u32>, needs_voxels: bool) -> (
    i32,
    i32,
    Option<Seq<u32>>,
) {
    (
        coords.0,
        coords.1,
        if needs_voxels {
            Some(voxels)
        } else {
            None
        },
    )
}

/// The voxels are sent along if and only if they were asked for, and then
/// they are the voxels of the chunk.
pub proof fn lemma_voxels_as_asked(coords: Coords2, voxels: Seq<u32>, needs_voxels: bool)
    ensures
        protocol_of(coords, voxels, needs_voxels).2 is Some <==> needs_voxels,
        needs_voxels ==> protocol_of(coords, voxels, needs_voxels).2 == Some(voxels),
        protocol_of(coords, voxels, needs_voxels).0 == coords.0,
        protocol_of(coords, voxels, needs_voxels).1 == coords.1,
{
}

impl View for ChunkProtocol {
    type V = (i32, i32, Option<Seq<u32>>);

    open spec fn view(&self) -> (i32, i32, Option<Seq<u32>>) {
        (
            self.x,
            self.z,
            match self.voxels {
                Some(voxels) => Some(voxels@),
                None => None,
            },
        )
    }
}

impl Chunk {
    /// The chunk in the form in which it is sent, with its voxels if and
    /// only if `needs_voxels` says so.
    pub fn get_protocol(&self, needs_voxels: bool) -> (protocol: ChunkProtocol)
        ensures
            protocol@ == protocol_of(self.coords, self.voxels@, needs_voxels),
    {
        let voxels = if needs_voxels {
            let copy = self.voxels.clone();
            assert(copy@ =~= self.voxels@);
            Some(copy)
        } else {
            None
        };
        ChunkProtocol { x: self.coords.0, z: self.coords.1, voxels }
    }
}

/// Whether `coords` lies in the square of chunks that reaches
/// `render_radius` chunks from `center` in each direction.
pub open spec fn in_area(coords: Coords2, center: Coords2, render_radius: i16) -> bool {
    &&& center.0 - render_radius <= coords.0 <= center.0 + render_radius
    &&& center.1 - render_radius <= coords.1 <= center.1 + render_radius
}

/// The chunks of one world, each stored once.
#[derive(Debug)]
pub struct Chunks {
    metrics: WorldMetrics,
    chunks: Vec<Chunk>,
}

impl View for Chunks {
    type V = Map<Coords2, Seq<u32>>;

    /// The voxels of every chunk that exists, by coordinate.
    closed spec fn view(&self) -> Map<Coords2, Seq<u32>> {
        Map::new(
            |coords: Coords2| holds(self.chunks@, coords),
            |coords: Coords2| self.chunks@[place_of(self.chunks@, coords)].voxels@,
        )
    }
}

/// Whether a chunk at `coords` is stored.
spec fn holds(chunks: Seq<Chunk>, coords: Coords2) -> bool {
    exists|i: int| 0 <= i < chunks.len() && (#[trigger] chunks[i]).coords == coords
}

/// Where the chunk at `coords` is stored.
spec fn place_of(chunks: Seq<Chunk>, coords: Coords2) -> int {
    choose|i: int| 0 <= i < chunks.len() && (#[trigger] chunks[i]).coords == coords
}

/// No coordinate is stored twice.
spec fn distinct(chunks: Seq<Chunk>) -> bool {
    forall|i: int, j: int|
        0 <= i < j < chunks.len() ==> (#[trigger] chunks[i]).coords != (#[trigger] chunks[j]).coords
}

impl Chunks {
    /// What holds of every store: its metrics are usable and no chunk is
    /// stored twice.
    pub closed spec fn wf(&self) -> bool {
        self.metrics.wf() && distinct(self.chunks@)
    }

    /// The metrics of the world.
    pub closed spec fn metrics_of(&self) -> WorldMetrics {
        self.metrics
    }

    /// A store without chunks, or nothing where `metrics` holds a zero
    /// divisor.
    pub fn new(metrics: WorldMetrics) -> (store: Option<Chunks>)
        ensures
            store is Some <==> metrics.wf(),
            store matches Some(store) ==> store.wf() && store.metrics_of() == metrics && store@
                == Map::<Coords2, Seq<u32>>::empty(),
    {
        if metrics.is_valid() {
            let store = Chunks { metrics, chunks: Vec::new() };
            assert(store@ =~= Map::<Coords2, Seq<u32>>::empty());
            Some(store)
        } else {
            None
        }
    }

    /// The metrics of the world.
    pub fn metrics(&self) -> (metrics: WorldMetrics)
        requires
            self.wf(),
        ensures
            metrics == self.metrics_of(),
            metrics.wf(),
    {
        self.metrics
    }

    /// The number of chunks that exist.
    pub fn len(&self) -> (count: usize)
        requires
            self.wf(),
        ensures
            count == self@.dom().len(),
            self@.dom().finite(),
    {
        proof {
            lemma_count(self.chunks@);
            assert(self@.dom() =~= coords_of(self.chunks@));
        }
        self.chunks.len()
    }

    /// The chunk at `coords`, if it exists.
    pub fn get(&self, coords: &Coords2) -> (found: Option<&Chunk>)
        requires
            self.wf(),
        ensures
            found is Some <==> self@.contains_key(*coords),
            found matches Some(chunk) ==> chunk.coords == *coords && chunk.voxels@ == self@[*coords],
    {
        let mut i: usize = 0;
        while i < self.chunks.len()
            invariant
                self.wf(),
                i <= self.chunks.len(),
                forall|j: int| 0 <= j < i ==> (#[trigger] self.chunks@[j]).coords != *coords,
            decreases self.chunks.len() - i,
        {
            if self.chunks[i].coords.0 == coords.0 && self.chunks[i].coords.1 == coords.1 {
                proof {
                    let at = place_of(self.chunks@, *coords);
                    assert(self.chunks@[i as int].coords == *coords);
                    if at < i {
                        assert(self.chunks@[at].coords != self.chunks@[i as int].coords);
                    } else if i < at {
                        assert(self.chunks@[i as int].coords != self.chunks@[at].coords);
                    }
                }
                return Some(&self.chunks[i]);
            }
            i += 1;
        }
        None
    }

    /// Generates the chunks around `center` that do not exist yet: those of
    /// the square that reaches `render_radius` chunks in each direction.
    /// `generator` makes the voxels of a chunk from its coordinate. Chunks
    /// that exist stay as they are.
    pub fn generate<G: Fn(i32, i32) -> Vec<u32>>(
        &mut self,
        center: Coords2,
        render_radius: i16,
        generator: &G,
    )
        requires
            old(self).wf(),
            forall|x: i32, z: i32| call_requires(*generator, (x, z)),
        ensures
            final(self).wf(),
            final(self).metrics_of() == old(self).metrics_of(),
            grown(old(self)@, final(self)@, center, render_radius, generator),
    {
        if render_radius < 0 {
            return ;
        }
        let low_x: i64 = center.0 as i64 - render_radius as i64;
        let high_x: i64 = center.0 as i64 + render_radius as i64;
        let low_z: i64 = center.1 as i64 - render_radius as i64;
        let high_z: i64 = center.1 as i64 + render_radius as i64;
        let mut x: i64 = if low_x < i32::MIN as i64 {
            i32::MIN as i64
        } else {
            low_x
        };
        let first_z: i64 = if low_z < i32::MIN as i64 {
            i32::MIN as i64
        } else {
            low_z
        };
        while x <= high_x && x <= i32::MAX as i64
            invariant
                self.wf(),
                self.metrics_of() == old(self).metrics_of(),
                forall|x: i32, z: i32| call_requires(*generator, (x, z)),
                low_x == center.0 - render_radius,
                high_x == center.0 + render_radius,
                low_z == center.1 - render_radius,
                high_z == center.1 + render_radius,
                first_z == if low_z < i32::MIN { i32::MIN as int } else { low_z as int },
                i32::MIN <= x <= i32::MAX + 1,
                low_x <= x,
                grown_up_to(old(self)@, self@, center, render_radius, generator, x as int, first_z as int),
            decreases i32::MAX + 1 - x,
        {
            let mut z: i64 = first_z;
            while z <= high_z && z <= i32::MAX as i64
                invariant
                    self.wf(),
                    self.metrics_of() == old(self).metrics_of(),
                    forall|x: i32, z: i32| call_requires(*generator, (x, z)),
                    low_x == center.0 - render_radius,
                    high_x == center.0 + render_radius,
                    low_z == center.1 - render_radius,
                    high_z == center.1 + render_radius,
                    first_z == if low_z < i32::MIN { i32::MIN as int } else { low_z as int },
                    i32::MIN <= x <= i32::MAX,
                    low_x <= x <= high_x,
                    i32::MIN <= z <= i32::MAX + 1,
                    first_z <= z,
                    grown_up_to(old(self)@, self@, center, render_radius, generator, x as int, z as int),
                decreases i32::MAX + 1 - z,
            {
                let coords = Coords2(x as i32, z as i32);
                let ghost stored = self@;
                assert(in_area(coords, center, render_radius));
                if self.get(&coords).is_none() {
                    let voxels = generator(coords.0, coords.1);
                    let ghost chunks = self.chunks@;
                    let ghost chunk = Chunk { coords, voxels };
                    self.chunks.push(Chunk { coords, voxels });
                    proof {
                        lemma_pushed(chunks, chunk);
                        assert(self@[coords] == voxels@);
                        assert(made_by(generator, coords, self@[coords]));
                        assert forall|other: Coords2| stored.contains_key(other) implies self@[other]
                            == stored[other] by {}
                    }
                }
                proof {
                    let start = old(self)@;
                    assert forall|other: Coords2|
                        passed(other, x as int, z + 1) <==> passed(other, x as int, z as int) || other
                            == coords by {}
                    assert forall|other: Coords2|
                        self@.contains_key(other) <==> start.contains_key(other) || (in_area(
                            other,
                            center,
                            render_radius,
                        ) && passed(other, x as int, z + 1)) by {
                        assert(stored.contains_key(other) <==> start.contains_key(other) || (in_area(
                            other,
                            center,
                            render_radius,
                        ) && passed(other, x as int, z as int)));
                    }
                    assert forall|other: Coords2| start.contains_key(other) implies self@[other]
                        == start[other] by {
                        assert(stored.contains_key(other));
                    }
                    assert forall|other: Coords2|
                        self@.contains_key(other) && !start.contains_key(other) implies made_by(
                        generator,
                        other,
                        #[trigger] self@[other],
                    ) by {
                        if other != coords {
                            assert(stored.contains_key(other));
                            assert(made_by(generator, other, stored[other]));
                        }
                    }
                }
                z += 1;
            }
            x += 1;
        }
    }
}

/// The coordinates that are stored.
spec fn coords_of(chunks: Seq<Chunk>) -> Set<Coords2> {
    Set::new(|coords: Coords2| holds(chunks, coords))
}

/// As many coordinates are stored as there are chunks.
proof fn lemma_count(chunks: Seq<Chunk>)
    requires
        distinct(chunks),
    ensures
        coords_of(chunks).finite(),
        coords_of(chunks).len() == chunks.len(),
    decreases chunks.len(),
{
    if chunks.len() == 0 {
        assert(coords_of(chunks) =~= Set::<Coords2>::empty());
    } else {
        let front = chunks.drop_last();
        let last = chunks.last();
        assert forall|i: int, j: int| 0 <= i < j < front.len() implies (#[trigger] front[i]).coords != (
        #[trigger] front[j]).coords by {
            assert(front[i] == chunks[i] && front[j] == chunks[j]);
        }
        lemma_count(front);
        assert(!coords_of(front).contains(last.coords)) by {
            if holds(front, last.coords) {
                let i = place_of(front, last.coords);
                assert(front[i] == chunks[i]);
                assert(chunks[i].coords != chunks[chunks.len() - 1].coords);
            }
        }
        assert(coords_of(chunks) =~= coords_of(front).insert(last.coords)) by {
            assert forall|coords: Coords2| coords_of(chunks).contains(coords) implies coords_of(
                front,
            ).insert(last.coords).contains(coords) by {
                let i = place_of(chunks, coords);
                if i < front.len() {
                    assert(front[i] == chunks[i]);
                }
            }
            assert forall|coords: Coords2|
                coords_of(front).insert(last.coords).contains(coords) implies coords_of(
                chunks,
            ).contains(coords) by {
                if coords == last.coords {
                    assert(chunks[chunks.len() - 1].coords == coords);
                } else {
                    let i = place_of(front, coords);
                    assert(front[i] == chunks[i]);
                }
            }
        }
    }
}

/// What storing one more chunk at a coordinate that was free does to `holds`
/// and to what is stored where.
proof fn lemma_pushed(chunks: Seq<Chunk>, chunk: Chunk)
    requires
        distinct(chunks),
        !holds(chunks, chunk.coords),
    ensures
        distinct(chunks.push(chunk)),
        forall|coords: Coords2|
            holds(chunks.push(chunk), coords) <==> holds(chunks, coords) || coords == chunk.coords,
        forall|coords: Coords2|
            holds(chunks, coords) ==> chunks.push(chunk)[place_of(chunks.push(chunk), coords)]
                == chunks[place_of(chunks, coords)],
        chunks.push(chunk)[place_of(chunks.push(chunk), chunk.coords)] == chunk,
{
    let more = chunks.push(chunk);
    assert forall|i: int, j: int| 0 <= i < j < more.len() implies (#[trigger] more[i]).coords != (
    #[trigger] more[j]).coords by {
        if j == chunks.len() {
            assert(more[i] == chunks[i]);
        } else {
            assert(more[i] == chunks[i] && more[j] == chunks[j]);
        }
    }
    assert(more[chunks.len() as int].coords == chunk.coords);
    assert forall|coords: Coords2| holds(more, coords) <==> holds(chunks, coords) || coords
        == chunk.coords by {
        if holds(more, coords) {
            let i = place_of(more, coords);
            if i < chunks.len() {
                assert(chunks[i] == more[i]);
            }
        }
        if holds(chunks, coords) {
            let i = place_of(chunks, coords);
            assert(more[i] == chunks[i]);
        }
    }
    assert forall|coords: Coords2| holds(chunks, coords) implies more[place_of(more, coords)]
        == chunks[place_of(chunks, coords)] by {
        let i = place_of(chunks, coords);
        assert(more[i] == chunks[i]);
        let j = place_of(more, coords);
        if i < j {
            assert(more[i].coords != more[j].coords);
        } else if j < i {
            assert(more[j].coords != more[i].coords);
        }
    }
    let at = place_of(more, chunk.coords);
    if at < chunks.len() {
        assert(more[at].coords != more[chunks.len() as int].coords);
    }
}

/// Says that `after` is `before` grown by the chunks around `center`:
/// every chunk of the area exists, no chunk outside it was added, chunks
/// that existed are unchanged, and each new chunk holds what `generator`
/// made for its coordinate.
pub open spec fn grown<G: Fn(i32, i32) -> Vec<u32>>(
    before: Map<Coords2, Seq<u32>>,
    after: Map<Coords2, Seq<u32>>,
    center: Coords2,
    render_radius: i16,
    generator: &G,
) -> bool {
    &&& forall|coords: Coords2|
        after.contains_key(coords) <==> before.contains_key(coords) || in_area(
            coords,
            center,
            render_radius,
        )
    &&& forall|coords: Coords2| before.contains_key(coords) ==> after[coords] == before[coords]
    &&& forall|coords: Coords2|
        after.contains_key(coords) && !before.contains_key(coords) ==> made_by(
            generator,
            coords,
            #[trigger] after[coords],
        )
}

/// Says that `voxels` is what `generator` made for the chunk at `coords`.
pub open spec fn made_by<G: Fn(i32, i32) -> Vec<u32>>(
    generator: &G,
    coords: Coords2,
    voxels: Seq<u32>,
) -> bool {
    exists|made: Vec<u32>| #[trigger] call_ensures(*generator, (coords.0, coords.1), made) && made@ == voxels
}

/// Whether generation, going through the area column by column, has passed
/// `coords` when it stands at (`x`, `z`).
spec fn passed(coords: Coords2, x: int, z: int) -> bool {
    coords.0 < x || (coords.0 == x && coords.1 < z)
}

/// The state of generation when it stands at (`x`, `z`): as `grown`, for
/// the part of the area that has been passed.
spec fn grown_up_to<G: Fn(i32, i32) -> Vec<u32>>(
    before: Map<Coords2, Seq<u32>>,
    after: Map<Coords2, Seq<u32>>,
    center: Coords2,
    render_radius: i16,
    generator: &G,
    x: int,
    z: int,
) -> bool {
    &&& forall|coords: Coords2|
        after.contains_key(coords) <==> before.contains_key(coords) || (in_area(
            coords,
            center,
            render_radius,
        ) && passed(coords, x, z))
    &&& forall|coords: Coords2| before.contains_key(coords) ==> after[coords] == before[coords]
    &&& forall|coords: Coords2|
        after.contains_key(coords) && !before.contains_key(coords) ==> made_by(
            generator,
            coords,
            #[trigger] after[coords],
        )
}

} // verus!
