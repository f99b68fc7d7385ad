//! Nearest-neighbour queries over the bodies of one world.
//!
//! The index is filled once per tick with the position of every body. A
//! query ranks the bodies that pass a filter by their distance to a point
//! and hands out the nearest few. Distances are exact: they are kept as
//! squares of whole world units, so that no result depends on rounding.
//! Bodies at the same distance keep the order in which they were inserted.

use crate::coords::Coords3;
use vstd::prelude::*;

verus! {

/// What a body is: a player, or any other entity.
#[derive(Clone, Copy, Debug, PartialEq, Eq, Structural)]
pub enum EntityKind {
    Player,
    Entity,
}

/// Which bodies a query looks at.
#[derive(Clone, Copy, Debug, PartialEq, Eq, Structural)]
pub enum QueryMode {
    /// Every body.
    All,
    /// Only bodies that are not players.
    Entity,
    /// Only players.
    Player,
}

/// One body in the index.
#[derive(Clone, Copy, Debug, PartialEq, Eq, Structural)]
pub struct Entry {
    pub entity: u32,
    pub kind: EntityKind,
    pub position: Coords3,
}

/// One result of a query: a body and the square of its distance to the
/// point that was asked about.
#[derive(Clone, Copy, Debug, PartialEq, Eq, Structural)]
pub struct Neighbor {
    pub distance: u128,
    pub entity: u32,
    pub position: Coords3,
}

/// The largest square that two coordinates of one axis can be apart.
pub const MAX_AXIS_SQUARE: u128 = 0xFFFF_FFFE_0000_0001;

/// Square of the Euclidean distance between two points.
pub open spec fn squared_distance(a: Coords3, b: Coords3) -> int {
    (a.0 - b.0) * (a.0 - b.0) + (a.1 - b.1) * (a.1 - b.1) + (a.2 - b.2) * (a.2 - b.2)
}

/// Whether a body of kind `kind` passes the filter `mode`.
pub open spec fn admits(mode: QueryMode, kind: EntityKind) -> bool {
    match mode {
        QueryMode::All => true,
        QueryMode::Entity => kind == EntityKind::Entity,
        QueryMode::Player => kind == EntityKind::Player,
    }
}

/// Whether a query considers `entry`: it passes the filter and is not the
/// body that the query leaves out.
pub open spec fn qualifies(entry: Entry, mode: QueryMode, exclude: Option<u32>) -> bool {
    admits(mode, entry.kind) && exclude != Some(entry.entity)
}

/// What a query reports of `entry` when asked about `origin`.
pub open spec fn neighbor_of(entry: Entry, origin: Coords3) -> Neighbor {
    Neighbor {
        distance: squared_distance(origin, entry.position) as u128,
        entity: entry.entity,
        position: entry.position,
    }
}

/// Nearest first.
pub open spec fn ascending(ranked: Seq<Neighbor>) -> bool {
    forall|i: int, j: int| 0 <= i <= j < ranked.len() ==> ranked[i].distance <= ranked[j].distance
}

/// Where a newcomer at `distance` goes in a ranking: behind every body that
/// is not farther away than it is.
pub open spec fn slot(ranked: Seq<Neighbor>, distance: u128) -> int
    decreases ranked.len(),
{
    if ranked.len() == 0 || ranked.last().distance <= distance {
        ranked.len() as int
    } else {
        slot(ranked.drop_last(), distance)
    }
}

/// All bodies of `entries` that a query considers, nearest to `origin`
/// first. Of two bodies at the same distance the one inserted first comes
/// first.
pub open spec fn ranking(
    entries: Seq<Entry>,
    origin: Coords3,
    mode: QueryMode,
    exclude: Option<u32>,
) -> Seq<Neighbor>
    decreases entries.len(),
{
    if entries.len() == 0 {
        Seq::empty()
    } else {
        let rest = ranking(entries.drop_last(), origin, mode, exclude);
        if qualifies(entries.last(), mode, exclude) {
            let newcomer = neighbor_of(entries.last(), origin);
            rest.insert(slot(rest, newcomer.distance), newcomer)
        } else {
            rest
        }
    }
}

/// The first `k` bodies of a ranking, or all of it where it is shorter.
pub open spec fn nearest(ranked: Seq<Neighbor>, k: int) -> Seq<Neighbor> {
    if k <= ranked.len() {
        ranked.take(k)
    } else {
        ranked
    }
}

/// In an ascending ranking every body before the slot is at most
/// `distance` away and every body from the slot on is farther.
pub proof fn lemma_slot(ranked: Seq<Neighbor>, distance: u128)
    requires
        ascending(ranked),
    ensures
        0 <= slot(ranked, distance) <= ranked.len(),
        forall|i: int| 0 <= i < slot(ranked, distance) ==> ranked[i].distance <= distance,
        forall|i: int| slot(ranked, distance) <= i < ranked.len() ==> ranked[i].distance > distance,
    decreases ranked.len(),
{
    if ranked.len() != 0 {
        let front = ranked.drop_last();
        assert forall|i: int| 0 <= i < front.len() implies front[i] == ranked[i] by {}
        if ranked.last().distance > distance {
            lemma_slot(front, distance);
            assert forall|i: int| slot(ranked, distance) <= i < ranked.len() implies ranked[i].distance
                > distance by {
                if i < front.len() {
                    assert(front[i].distance > distance);
                }
            }
        } else {
            assert forall|i: int| 0 <= i < ranked.len() implies ranked[i].distance <= distance by {
                assert(ranked[i].distance <= ranked[ranked.len() - 1].distance);
            }
        }
    }
}

/// The slot is the only place that parts a ranking in this way.
pub proof fn lemma_slot_unique(ranked: Seq<Neighbor>, distance: u128, place: int)
    requires
        0 <= place <= ranked.len(),
        forall|i: int| 0 <= i < place ==> ranked[i].distance <= distance,
        forall|i: int| place <= i < ranked.len() ==> ranked[i].distance > distance,
    ensures
        slot(ranked, distance) == place,
    decreases ranked.len(),
{
    if ranked.len() != 0 && ranked.last().distance > distance {
        lemma_slot_unique(ranked.drop_last(), distance, place);
    }
}

/// A ranking is ascending.
pub proof fn lemma_ranking_ascending(
    entries: Seq<Entry>,
    origin: Coords3,
    mode: QueryMode,
    exclude: Option<u32>,
)
    ensures
        ascending(ranking(entries, origin, mode, exclude)),
    decreases entries.len(),
{
    if entries.len() != 0 {
        let rest = ranking(entries.drop_last(), origin, mode, exclude);
        lemma_ranking_ascending(entries.drop_last(), origin, mode, exclude);
        if qualifies(entries.last(), mode, exclude) {
            let newcomer = neighbor_of(entries.last(), origin);
            lemma_slot(rest, newcomer.distance);
        }
    }
}

/// How many bodies of `entries` a query considers.
pub open spec fn count_qualifying(entries: Seq<Entry>, mode: QueryMode, exclude: Option<u32>) -> nat
    decreases entries.len(),
{
    if entries.len() == 0 {
        0
    } else {
        count_qualifying(entries.drop_last(), mode, exclude) + if qualifies(
            entries.last(),
            mode,
            exclude,
        ) {
            1nat
        } else {
            0nat
        }
    }
}

/// A ranking holds as many bodies as qualify, which is no more than the
/// index holds.
pub proof fn lemma_ranking_len(
    entries: Seq<Entry>,
    origin: Coords3,
    mode: QueryMode,
    exclude: Option<u32>,
)
    ensures
        ranking(entries, origin, mode, exclude).len() == count_qualifying(entries, mode, exclude),
        count_qualifying(entries, mode, exclude) <= entries.len(),
    decreases entries.len(),
{
    if entries.len() != 0 {
        let rest = ranking(entries.drop_last(), origin, mode, exclude);
        lemma_ranking_len(entries.drop_last(), origin, mode, exclude);
        if qualifies(entries.last(), mode, exclude) {
            lemma_ranking_ascending(entries.drop_last(), origin, mode, exclude);
            lemma_slot(rest, neighbor_of(entries.last(), origin).distance);
        }
    }
}

/// Where no body qualifies, the ranking is empty.
pub proof fn lemma_ranking_none(
    entries: Seq<Entry>,
    origin: Coords3,
    mode: QueryMode,
    exclude: Option<u32>,
)
    requires
        forall|i: int| 0 <= i < entries.len() ==> !qualifies(#[trigger] entries[i], mode, exclude),
    ensures
        ranking(entries, origin, mode, exclude) == Seq::<Neighbor>::empty(),
    decreases entries.len(),
{
    if entries.len() != 0 {
        let front = entries.drop_last();
        assert forall|i: int| 0 <= i < front.len() implies !qualifies(
            #[trigger] front[i],
            mode,
            exclude,
        ) by {
            assert(front[i] == entries[i]);
        }
        lemma_ranking_none(front, origin, mode, exclude);
        assert(!qualifies(entries[entries.len() - 1], mode, exclude));
    }
}

/// Where exactly one body qualifies, the ranking holds that body alone.
pub proof fn lemma_ranking_single(
    entries: Seq<Entry>,
    origin: Coords3,
    mode: QueryMode,
    exclude: Option<u32>,
    only: int,
)
    requires
        0 <= only < entries.len(),
        qualifies(entries[only], mode, exclude),
        forall|i: int|
            0 <= i < entries.len() && i != only ==> !qualifies(#[trigger] entries[i], mode, exclude),
    ensures
        ranking(entries, origin, mode, exclude) == seq![neighbor_of(entries[only], origin)],
    decreases entries.len(),
{
    let front = entries.drop_last();
    assert forall|i: int| 0 <= i < front.len() && i != only implies !qualifies(
        #[trigger] front[i],
        mode,
        exclude,
    ) by {
        assert(front[i] == entries[i]);
    }
    if only == entries.len() - 1 {
        lemma_ranking_none(front, origin, mode, exclude);
        assert(ranking(entries, origin, mode, exclude) =~= seq![neighbor_of(entries[only], origin)]);
    } else {
        assert(front[only] == entries[only]);
        lemma_ranking_single(front, origin, mode, exclude, only);
        assert(!qualifies(entries[entries.len() - 1], mode, exclude));
    }
}

/// Every body that qualifies is in the ranking.
pub proof fn lemma_ranking_complete(
    entries: Seq<Entry>,
    origin: Coords3,
    mode: QueryMode,
    exclude: Option<u32>,
    i: int,
)
    requires
        0 <= i < entries.len(),
        qualifies(entries[i], mode, exclude),
    ensures
        ranking(entries, origin, mode, exclude).contains(neighbor_of(entries[i], origin)),
    decreases entries.len(),
{
    let front = entries.drop_last();
    let rest = ranking(front, origin, mode, exclude);
    let whole = ranking(entries, origin, mode, exclude);
    lemma_ranking_ascending(front, origin, mode, exclude);
    if qualifies(entries.last(), mode, exclude) {
        let newcomer = neighbor_of(entries.last(), origin);
        let place = slot(rest, newcomer.distance);
        lemma_slot(rest, newcomer.distance);
        if i == entries.len() - 1 {
            assert(whole[place] == newcomer);
        } else {
            assert(front[i] == entries[i]);
            lemma_ranking_complete(front, origin, mode, exclude, i);
            let at = choose|at: int| 0 <= at < rest.len() && rest[at] == neighbor_of(entries[i], origin);
            if at < place {
                assert(whole[at] == rest[at]);
            } else {
                assert(whole[at + 1] == rest[at]);
            }
        }
    } else {
        assert(front[i] == entries[i]);
        lemma_ranking_complete(front, origin, mode, exclude, i);
    }
}

/// Every body in the ranking is one of the index that qualifies.
pub proof fn lemma_ranking_sound(
    entries: Seq<Entry>,
    origin: Coords3,
    mode: QueryMode,
    exclude: Option<u32>,
    at: int,
)
    requires
        0 <= at < ranking(entries, origin, mode, exclude).len(),
    ensures
        exists|i: int|
            0 <= i < entries.len() && qualifies(#[trigger] entries[i], mode, exclude) && ranking(
                entries,
                origin,
                mode,
                exclude,
            )[at] == neighbor_of(entries[i], origin),
    decreases entries.len(),
{
    let front = entries.drop_last();
    let rest = ranking(front, origin, mode, exclude);
    let last = entries.len() - 1;
    lemma_ranking_ascending(front, origin, mode, exclude);
    if qualifies(entries.last(), mode, exclude) {
        let newcomer = neighbor_of(entries.last(), origin);
        let place = slot(rest, newcomer.distance);
        lemma_slot(rest, newcomer.distance);
        if at == place {
            assert(qualifies(entries[last], mode, exclude));
        } else {
            let before = if at < place {
                at
            } else {
                at - 1
            };
            lemma_ranking_sound(front, origin, mode, exclude, before);
            let i = choose|i: int|
                0 <= i < front.len() && qualifies(#[trigger] front[i], mode, exclude) && rest[before]
                    == neighbor_of(front[i], origin);
            assert(front[i] == entries[i]);
        }
    } else {
        lemma_ranking_sound(front, origin, mode, exclude, at);
        let i = choose|i: int|
            0 <= i < front.len() && qualifies(#[trigger] front[i], mode, exclude) && rest[at]
                == neighbor_of(front[i], origin);
        assert(front[i] == entries[i]);
    }
}

/// Ranking one body more and cutting to `k` is the same as placing that
/// body among the nearest `k` found so far and cutting again.
proof fn lemma_nearest_step(rest: Seq<Neighbor>, newcomer: Neighbor, k: int)
    requires
        ascending(rest),
        0 <= k,
    ensures
        ({
            let kept = nearest(rest, k);
            let place = slot(kept, newcomer.distance);
            let all = rest.insert(slot(rest, newcomer.distance), newcomer);
            &&& 0 <= place <= kept.len()
            &&& nearest(all, k) == if place < k {
                nearest(kept.insert(place, newcomer), k)
            } else {
                kept
            }
        }),
{
    let kept = nearest(rest, k);
    let distance = newcomer.distance;
    let whole = slot(rest, distance);
    lemma_slot(rest, distance);
    lemma_slot(kept, distance);
    let place = slot(kept, distance);
    if whole <= kept.len() {
        lemma_slot_unique(kept, distance, whole);
    } else {
        lemma_slot_unique(kept, distance, kept.len() as int);
    }
    let all = rest.insert(whole, newcomer);
    if place < k {
        assert(nearest(all, k) =~= nearest(kept.insert(place, newcomer), k));
    } else {
        assert(nearest(all, k) =~= kept);
    }
}

/// The square of a distance fits the type that holds it.
pub proof fn lemma_distance_fits(a: Coords3, b: Coords3)
    ensures
        0 <= squared_distance(a, b) <= 3 * MAX_AXIS_SQUARE,
        squared_distance(a, b) as u128 == squared_distance(a, b),
{
    lemma_axis_fits(a.0, b.0);
    lemma_axis_fits(a.1, b.1);
    lemma_axis_fits(a.2, b.2);
}

/// The square of how far two coordinates of one axis are apart.
proof fn lemma_axis_fits(a: i32, b: i32)
    ensures
        0 <= (a - b) * (a - b) <= MAX_AXIS_SQUARE,
{
    assert(0 <= (a - b) * (a - b) <= 0xFFFF_FFFE_0000_0001) by (nonlinear_arith)
        requires
            -0xFFFF_FFFF <= a - b <= 0xFFFF_FFFF,
    ;
}

/// Square of the distance between two coordinates of one axis.
fn axis_square(a: i32, b: i32) -> (square: u128)
    ensures
        square == (a - b) * (a - b),
        square <= MAX_AXIS_SQUARE,
{
    let apart: i64 = a as i64 - b as i64;
    let size: u64 = if apart < 0 {
        (-apart) as u64
    } else {
        apart as u64
    };
    assert(size * size == (a - b) * (a - b)) by (nonlinear_arith)
        requires
            size == a - b || size == -(a - b),
    ;
    assert(size * size <= 0xFFFF_FFFE_0000_0001) by (nonlinear_arith)
        requires
            size <= 0xFFFF_FFFF,
    ;
    (size as u128) * (size as u128)
}

/// Measures the square of the distance between two points.
pub fn measure(a: &Coords3, b: &Coords3) -> (distance: u128)
    ensures
        distance == squared_distance(*a, *b),
        distance <= 3 * MAX_AXIS_SQUARE,
{
    axis_square(a.0, b.0) + axis_square(a.1, b.1) + axis_square(a.2, b.2)
}

/// The bodies of one world, in the order in which they were inserted.
pub struct SpatialIndex {
    entries: Vec<Entry>,
}

impl View for SpatialIndex {
    type V = Seq<Entry>;

    closed spec fn view(&self) -> Seq<Entry> {
        self.entries@
    }
}

impl SpatialIndex {
    /// An index without bodies.
    pub fn new() -> (index: SpatialIndex)
        ensures
            index@ == Seq::<Entry>::empty(),
    {
        SpatialIndex { entries: Vec::new() }
    }

    /// Forgets every body, before the next tick fills the index again.
    pub fn clear(&mut self)
        ensures
            final(self)@ == Seq::<Entry>::empty(),
    {
        self.entries.clear();
    }

    /// Adds a body.
    pub fn insert(&mut self, entity: u32, kind: EntityKind, position: Coords3)
        ensures
            final(self)@ == old(self)@.push(Entry { entity, kind, position }),
    {
        self.entries.push(Entry { entity, kind, position });
    }

    /// The number of bodies.
    pub fn len(&self) -> (count: usize)
        ensures
            count == self@.len(),
    {
        self.entries.len()
    }

    /// Decides whether a query considers `entry`.
    pub fn considers(entry: &Entry, mode: QueryMode, exclude: Option<u32>) -> (yes: bool)
        ensures
            yes == qualifies(*entry, mode, exclude),
    {
        let admitted = match mode {
            QueryMode::All => true,
            QueryMode::Entity => entry.kind == EntityKind::Entity,
            QueryMode::Player => entry.kind == EntityKind::Player,
        };
        let left_out = match exclude {
            Some(entity) => entity == entry.entity,
            None => false,
        };
        admitted && !left_out
    }

    /// The `k` bodies nearest to `origin` among those that pass `mode` and
    /// are not `exclude`, nearest first. A result shorter than `k` says that
    /// fewer than `k` bodies qualify.
    pub fn query(&self, origin: &Coords3, k: usize, mode: QueryMode, exclude: Option<u32>) -> (found:
        Vec<Neighbor>)
        ensures
            found@ == nearest(ranking(self@, *origin, mode, exclude), k as int),
            found@.len() < k <==> count_qualifying(self@, mode, exclude) < k,
    {
        proof {
            lemma_ranking_len(self@, *origin, mode, exclude);
        }
        let mut found: Vec<Neighbor> = Vec::new();
        let mut i: usize = 0;
        while i < self.entries.len()
            invariant
                i <= self.entries.len(),
                found@ == nearest(ranking(self@.take(i as int), *origin, mode, exclude), k as int),
            decreases self.entries.len() - i,
        {
            let entry = self.entries[i];
            let ghost rest = ranking(self@.take(i as int), *origin, mode, exclude);
            proof {
                assert(self@.take(i + 1).drop_last() =~= self@.take(i as int));
                lemma_ranking_ascending(self@.take(i as int), *origin, mode, exclude);
            }
            if Self::considers(&entry, mode, exclude) {
                let newcomer = Neighbor {
                    distance: measure(origin, &entry.position),
                    entity: entry.entity,
                    position: entry.position,
                };
                proof {
                    lemma_nearest_step(rest, newcomer, k as int);
                }
                let mut place: usize = found.len();
                while place > 0 && found[place - 1].distance > newcomer.distance
                    invariant
                        place <= found.len(),
                        forall|j: int| place <= j < found.len() ==> found[j].distance > newcomer.distance,
                    decreases place,
                {
                    place -= 1;
                }
                proof {
                    assert forall|j: int| 0 <= j < place implies found[j].distance
                        <= newcomer.distance by {
                        assert(found[place - 1].distance <= newcomer.distance);
                    }
                    lemma_slot_unique(found@, newcomer.distance, place as int);
                }
                if place < k {
                    found.insert(place, newcomer);
                    let ghost placed = found@;
                    if found.len() > k {
                        found.pop();
                    }
                    assert(found@ =~= nearest(placed, k as int));
                }
            }
            i += 1;
        }
        proof {
            assert(self@.take(i as int) =~= self@);
        }
        found
    }
}

} // verus!
