//! Resolving what each observer is looking at.
//!
//! Once per tick every body that declares a look target is given the
//! nearest body of the kind it watches for, as long as that body is within
//! view and nothing solid stands in between. The search widens one body at
//! a time: where the line of sight to the nearest candidate is blocked, the
//! next nearest is tried.

use crate::coords::Coords3;
use crate::spatial::{
    lemma_distance_fits, lemma_ranking_len, lemma_ranking_none, lemma_ranking_single, qualifies,
    ranking, squared_distance, Entry, Neighbor, QueryMode, SpatialIndex,
};
use vstd::prelude::*;

verus! {

/// What an observer watches for, and the position of what it found.
#[derive(Clone, Copy, Debug, PartialEq, Eq)]
pub enum LookTarget {
    /// The nearest body of any kind.
    All(Option<Coords3>),
    /// The nearest body that is not a player.
    Entity(Option<Coords3>),
    /// The nearest player.
    Player(Option<Coords3>),
}

impl LookTarget {
    /// The filter that this target asks the index for.
    pub open spec fn mode_of(self) -> QueryMode {
        match self {
            LookTarget::All(_) => QueryMode::All,
            LookTarget::Entity(_) => QueryMode::Entity,
            LookTarget::Player(_) => QueryMode::Player,
        }
    }

    /// The position that was resolved, if any.
    pub open spec fn position_of(self) -> Option<Coords3> {
        match self {
            LookTarget::All(position) => position,
            LookTarget::Entity(position) => position,
            LookTarget::Player(position) => position,
        }
    }

    /// The filter that this target asks the index for.
    pub fn mode(&self) -> (mode: QueryMode)
        ensures
            mode == self.mode_of(),
    {
        match self {
            LookTarget::All(_) => QueryMode::All,
            LookTarget::Entity(_) => QueryMode::Entity,
            LookTarget::Player(_) => QueryMode::Player,
        }
    }

    /// The position that was resolved, if any.
    pub fn position(&self) -> (position: Option<Coords3>)
        ensures
            position == self.position_of(),
    {
        match self {
            LookTarget::All(position) => *position,
            LookTarget::Entity(position) => *position,
            LookTarget::Player(position) => *position,
        }
    }

    /// The same kind of target with `position` in place of what it held.
    pub fn insert(target: &LookTarget, position: Option<Coords3>) -> (updated: LookTarget)
        ensures
            updated.mode_of() == target.mode_of(),
            updated.position_of() == position,
    {
        match target {
            LookTarget::All(_) => LookTarget::All(position),
            LookTarget::Entity(_) => LookTarget::Entity(position),
            LookTarget::Player(_) => LookTarget::Player(position),
        }
    }
}

/// The look target of one body.
#[derive(Clone, Copy, Debug, PartialEq, Eq)]
pub struct LookAt(pub LookTarget);

/// How far a body sees, in voxels.
#[derive(Clone, Copy, Debug, PartialEq, Eq)]
pub struct ViewRadius(pub u16);

/// One body that looks for a target: its handle, the position of its head,
/// how far it sees and what it watches for.
#[derive(Clone, Copy, Debug, PartialEq, Eq)]
pub struct Observer {
    pub entity: u32,
    pub head: Coords3,
    pub radius: ViewRadius,
    pub look_at: LookAt,
}

/// Square of the distance up to which an observer sees.
pub open spec fn reach(radius: ViewRadius, dimension: u32) -> int {
    (radius.0 * dimension) * (radius.0 * dimension)
}

/// The position an observer settles on, given the candidates nearest first,
/// the square of its reach and what the line-of-sight test says of each
/// position.
///
/// The nearest candidate decides, unless the line of sight to it is
/// blocked: then the rest of the ranking decides. A candidate out of reach
/// ends the search without a target, since every later one is farther. A
/// candidate at the observer's own position is taken without a test.
pub open spec fn first_visible(
    ranked: Seq<Neighbor>,
    limit: int,
    occluded: spec_fn(Coords3) -> bool,
) -> Option<Coords3>
    decreases ranked.len(),
{
    if ranked.len() == 0 {
        None
    } else if ranked.first().distance > limit {
        None
    } else if ranked.first().distance == 0 || !occluded(ranked.first().position) {
        Some(ranked.first().position)
    } else {
        first_visible(ranked.drop_first(), limit, occluded)
    }
}

/// Says that the test `blocked`, asked from `head`, answers as `occluded`
/// does.
pub open spec fn answers_as<F: Fn(Coords3, Coords3) -> bool>(
    blocked: &F,
    head: Coords3,
    occluded: spec_fn(Coords3) -> bool,
) -> bool {
    forall|position: Coords3, hit: bool|
        call_ensures(*blocked, (head, position), hit) ==> hit == occluded(position)
}

/// Says that `candidate` was tried and found out of sight: it is within
/// reach and away from the observer, and the test called it blocked.
pub open spec fn passed_over<F: Fn(Coords3, Coords3) -> bool>(
    blocked: &F,
    head: Coords3,
    candidate: Neighbor,
    limit: int,
) -> bool {
    0 < candidate.distance <= limit && call_ensures(*blocked, (head, candidate.position), true)
}

/// Says that `candidate` can be seen: it is within reach and either at the
/// observer's own position or called free by the test.
pub open spec fn in_sight<F: Fn(Coords3, Coords3) -> bool>(
    blocked: &F,
    head: Coords3,
    candidate: Neighbor,
    limit: int,
) -> bool {
    candidate.distance <= limit && (candidate.distance == 0 || call_ensures(
        *blocked,
        (head, candidate.position),
        false,
    ))
}

/// Says that the search through `ranked` ends at the place `stop` with
/// `target`: the candidates before that place were passed over, and the
/// one at that place is in sight and is the target; or there is none at
/// that place within reach, and no target.
pub open spec fn stops_at<F: Fn(Coords3, Coords3) -> bool>(
    ranked: Seq<Neighbor>,
    limit: int,
    blocked: &F,
    head: Coords3,
    target: Option<Coords3>,
    stop: int,
) -> bool {
    &&& 0 <= stop <= ranked.len()
    &&& forall|j: int| 0 <= j < stop ==> passed_over(blocked, head, #[trigger] ranked[j], limit)
    &&& match target {
        Some(position) => stop < ranked.len() && in_sight(blocked, head, ranked[stop], limit)
            && ranked[stop].position == position,
        None => stop == ranked.len() || ranked[stop].distance > limit,
    }
}

/// Says that the search through `ranked` ends with `target`, going by the
/// answers that the test `blocked` gave.
pub open spec fn settles<F: Fn(Coords3, Coords3) -> bool>(
    ranked: Seq<Neighbor>,
    limit: int,
    blocked: &F,
    head: Coords3,
    target: Option<Coords3>,
) -> bool {
    exists|stop: int| stops_at(ranked, limit, blocked, head, target, stop)
}

/// What `observer` looks at in `index`: the ranking of the bodies it watches
/// for, itself left out, cut at the first body it can see.
pub open spec fn target_of(
    index: Seq<Entry>,
    dimension: u32,
    observer: Observer,
    occluded: spec_fn(Coords3) -> bool,
) -> Option<Coords3> {
    first_visible(
        ranking(index, observer.head, observer.look_at.0.mode_of(), Some(observer.entity)),
        reach(observer.radius, dimension),
        occluded,
    )
}

/// The per-tick procedure that resolves look targets.
pub struct ObserveSystem;

impl ObserveSystem {
    /// Resolves the target of one observer.
    ///
    /// `blocked(from, to)` is the line-of-sight test: it says whether
    /// something solid lies between the two points. It is asked only about
    /// candidates within reach and away from the observer, nearest first,
    /// and no more once one of them is visible.
    pub fn resolve<F: Fn(Coords3, Coords3) -> bool>(
        index: &SpatialIndex,
        dimension: u32,
        observer: &Observer,
        blocked: &F,
    ) -> (target: Option<Coords3>)
        requires
            forall|from: Coords3, to: Coords3| call_requires(*blocked, (from, to)),
        ensures
            settles(
                ranking(index@, observer.head, observer.look_at.0.mode_of(), Some(observer.entity)),
                reach(observer.radius, dimension),
                blocked,
                observer.head,
                target,
            ),
            forall|occluded: spec_fn(Coords3) -> bool|
                answers_as(blocked, observer.head, occluded) ==> target == #[trigger] target_of(
                    index@,
                    dimension,
                    *observer,
                    occluded,
                ),
    {
        let mode = observer.look_at.0.mode();
        let radius: u64 = observer.radius.0 as u64;
        assert(radius * dimension <= 0xFFFF * 0xFFFF_FFFF) by (nonlinear_arith)
            requires
                radius <= 0xFFFF,
                dimension <= 0xFFFF_FFFF,
        ;
        let span: u64 = radius * dimension as u64;
        assert(span * span <= 0xFFFF_FFFF_FFFF * 0xFFFF_FFFF_FFFF) by (nonlinear_arith)
            requires
                span <= 0xFFFF_FFFF_FFFF,
        ;
        let limit: u128 = span as u128 * span as u128;
        let total = index.len();
        let ghost ranked = ranking(index@, observer.head, mode, Some(observer.entity));
        proof {
            lemma_ranking_len(index@, observer.head, mode, Some(observer.entity));
        }
        let mut offset: usize = 0;
        let mut target: Option<Coords3> = None;
        let mut searching = true;
        while searching
            invariant
                forall|from: Coords3, to: Coords3| call_requires(*blocked, (from, to)),
                ranked == ranking(index@, observer.head, mode, Some(observer.entity)),
                ranked.len() <= total,
                limit == reach(observer.radius, dimension),
                offset <= ranked.len(),
                forall|j: int|
                    0 <= j < offset ==> passed_over(
                        blocked,
                        observer.head,
                        #[trigger] ranked[j],
                        limit as int,
                    ),
                !searching ==> stops_at(
                    ranked,
                    limit as int,
                    blocked,
                    observer.head,
                    target,
                    offset as int,
                ),
            decreases ranked.len() - offset + if searching { 1int } else { 0int },
        {
            if offset == usize::MAX {
                // Every body of the index has been tried.
                target = None;
                searching = false;
            } else {
                let count: usize = offset + 1;
                let candidates = index.query(&observer.head, count, mode, Some(observer.entity));
                if candidates.len() < count {
                    target = None;
                    searching = false;
                } else {
                    let candidate = candidates[offset];
                    assert(candidate == ranked[offset as int]);
                    if candidate.distance > limit {
                        target = None;
                        searching = false;
                    } else if candidate.distance == 0 {
                        target = Some(candidate.position);
                        searching = false;
                    } else {
                        let hit = blocked(observer.head, candidate.position);
                        if hit {
                            offset = offset + 1;
                        } else {
                            target = Some(candidate.position);
                            searching = false;
                        }
                    }
                }
            }
        }
        proof {
            assert forall|occluded: spec_fn(Coords3) -> bool|
                answers_as(blocked, observer.head, occluded) implies target == #[trigger] target_of(
                index@,
                dimension,
                *observer,
                occluded,
            ) by {
                lemma_settles_once(ranked, limit as int, blocked, observer.head, target, occluded);
            }
        }
        target
    }

    /// Resolves the target of every observer, each written into the
    /// observer's own look target and nowhere else.
    pub fn run<F: Fn(Coords3, Coords3) -> bool>(
        &mut self,
        index: &SpatialIndex,
        dimension: u32,
        observers: &mut Vec<Observer>,
        blocked: &F,
    )
        requires
            forall|from: Coords3, to: Coords3| call_requires(*blocked, (from, to)),
        ensures
            final(observers).len() == old(observers).len(),
            forall|i: int|
                0 <= i < old(observers).len() ==> resolved(
                    index@,
                    dimension,
                    old(observers)[i],
                    #[trigger] final(observers)[i],
                    blocked,
                ),
    {
        let mut i: usize = 0;
        while i < observers.len()
            invariant
                forall|from: Coords3, to: Coords3| call_requires(*blocked, (from, to)),
                i <= observers.len(),
                observers.len() == old(observers).len(),
                forall|j: int|
                    0 <= j < i ==> resolved(
                        index@,
                        dimension,
                        old(observers)[j],
                        #[trigger] observers[j],
                        blocked,
                    ),
                forall|j: int| i <= j < observers.len() ==> observers[j] == old(observers)[j],
            decreases observers.len() - i,
        {
            let observer = observers[i];
            let closest = Self::resolve(index, dimension, &observer, blocked);
            let updated = Observer {
                entity: observer.entity,
                head: observer.head,
                radius: observer.radius,
                look_at: LookAt(LookTarget::insert(&observer.look_at.0, closest)),
            };
            observers.set(i, updated);
            i += 1;
        }
    }
}

/// Says that `after` is `before` with its target resolved against `index`:
/// nothing else of it has changed, and it holds what the search finds
/// whenever the line-of-sight test answers as some `occluded` does.
pub open spec fn resolved<F: Fn(Coords3, Coords3) -> bool>(
    index: Seq<Entry>,
    dimension: u32,
    before: Observer,
    after: Observer,
    blocked: &F,
) -> bool {
    &&& after.entity == before.entity
    &&& after.head == before.head
    &&& after.radius == before.radius
    &&& after.look_at.0.mode_of() == before.look_at.0.mode_of()
    &&& settles(
        ranking(index, before.head, before.look_at.0.mode_of(), Some(before.entity)),
        reach(before.radius, dimension),
        blocked,
        before.head,
        after.look_at.0.position_of(),
    )
    &&& forall|occluded: spec_fn(Coords3) -> bool|
        answers_as(blocked, before.head, occluded) ==> after.look_at.0.position_of()
            == #[trigger] target_of(index, dimension, before, occluded)
}

/// Where the line-of-sight test answers as `occluded` does, a search that
/// goes by its answers ends with what `first_visible` says, and so with
/// one result only.
pub proof fn lemma_settles_once<F: Fn(Coords3, Coords3) -> bool>(
    ranked: Seq<Neighbor>,
    limit: int,
    blocked: &F,
    head: Coords3,
    target: Option<Coords3>,
    occluded: spec_fn(Coords3) -> bool,
)
    requires
        settles(ranked, limit, blocked, head, target),
        answers_as(blocked, head, occluded),
    ensures
        target == first_visible(ranked, limit, occluded),
{
    let stop = choose|stop: int| stops_at(ranked, limit, blocked, head, target, stop);
    lemma_stops_at(ranked, limit, blocked, head, target, occluded, stop);
}

/// A search that ends at `stop` ends with what `first_visible` says.
proof fn lemma_stops_at<F: Fn(Coords3, Coords3) -> bool>(
    ranked: Seq<Neighbor>,
    limit: int,
    blocked: &F,
    head: Coords3,
    target: Option<Coords3>,
    occluded: spec_fn(Coords3) -> bool,
    stop: int,
)
    requires
        stops_at(ranked, limit, blocked, head, target, stop),
        answers_as(blocked, head, occluded),
    ensures
        target == first_visible(ranked, limit, occluded),
    decreases stop,
{
    if stop > 0 {
        let rest = ranked.drop_first();
        assert(passed_over(blocked, head, ranked[0], limit));
        assert forall|j: int| 0 <= j < stop - 1 implies passed_over(
            blocked,
            head,
            #[trigger] rest[j],
            limit,
        ) by {
            assert(rest[j] == ranked[j + 1]);
            assert(passed_over(blocked, head, ranked[j + 1], limit));
        }
        if stop < ranked.len() {
            assert(rest[stop - 1] == ranked[stop]);
        }
        lemma_stops_at(rest, limit, blocked, head, target, occluded, stop - 1);
    }
}

/// Without any other body to look at, an observer has no target.
pub proof fn lemma_alone_sees_nothing(
    index: Seq<Entry>,
    dimension: u32,
    observer: Observer,
    occluded: spec_fn(Coords3) -> bool,
)
    requires
        forall|i: int|
            0 <= i < index.len() ==> !qualifies(
                #[trigger] index[i],
                observer.look_at.0.mode_of(),
                Some(observer.entity),
            ),
    ensures
        target_of(index, dimension, observer, occluded) is None,
{
    lemma_ranking_none(index, observer.head, observer.look_at.0.mode_of(), Some(observer.entity));
}

/// With exactly one other body to look at, the observer targets it if and
/// only if it is within reach and either at the observer's own position or
/// in plain sight.
pub proof fn lemma_single_candidate(
    index: Seq<Entry>,
    dimension: u32,
    observer: Observer,
    occluded: spec_fn(Coords3) -> bool,
    only: int,
)
    requires
        0 <= only < index.len(),
        qualifies(index[only], observer.look_at.0.mode_of(), Some(observer.entity)),
        forall|i: int|
            0 <= i < index.len() && i != only ==> !qualifies(
                #[trigger] index[i],
                observer.look_at.0.mode_of(),
                Some(observer.entity),
            ),
    ensures
        ({
            let apart = squared_distance(observer.head, index[only].position);
            let seen = apart <= reach(observer.radius, dimension) && (apart == 0 || !occluded(
                index[only].position,
            ));
            target_of(index, dimension, observer, occluded) == if seen {
                Some(index[only].position)
            } else {
                None
            }
        }),
{
    let mode = observer.look_at.0.mode_of();
    lemma_ranking_single(index, observer.head, mode, Some(observer.entity), only);
    lemma_distance_fits(observer.head, index[only].position);
    let ranked = ranking(index, observer.head, mode, Some(observer.entity));
    assert(ranked.drop_first() =~= Seq::<Neighbor>::empty());
    reveal_with_fuel(first_visible, 2);
}

/// Where every candidate is within reach, away from the observer and out of
/// sight, there is no target.
pub proof fn lemma_all_blocked(
    ranked: Seq<Neighbor>,
    limit: int,
    occluded: spec_fn(Coords3) -> bool,
)
    requires
        forall|i: int|
            0 <= i < ranked.len() ==> 0 < (#[trigger] ranked[i]).distance <= limit && occluded(
                ranked[i].position,
            ),
    ensures
        first_visible(ranked, limit, occluded) is None,
    decreases ranked.len(),
{
    if ranked.len() != 0 {
        let rest = ranked.drop_first();
        assert forall|i: int| 0 <= i < rest.len() implies 0 < (#[trigger] rest[i]).distance <= limit
            && occluded(rest[i].position) by {
            assert(rest[i] == ranked[i + 1]);
        }
        assert(0 < ranked[0].distance <= limit && occluded(ranked[0].position));
        lemma_all_blocked(rest, limit, occluded);
    }
}

/// The search settles on the first candidate that is at the observer's own
/// position or in plain sight, provided that it and every candidate before
/// it are within reach and that those before it are away from the observer
/// and out of sight.
pub proof fn lemma_first_clear(
    ranked: Seq<Neighbor>,
    limit: int,
    occluded: spec_fn(Coords3) -> bool,
    clear: int,
)
    requires
        0 <= clear < ranked.len(),
        forall|i: int|
            0 <= i < clear ==> 0 < (#[trigger] ranked[i]).distance <= limit && occluded(
                ranked[i].position,
            ),
        ranked[clear].distance <= limit,
        ranked[clear].distance == 0 || !occluded(ranked[clear].position),
    ensures
        first_visible(ranked, limit, occluded) == Some(ranked[clear].position),
    decreases clear,
{
    if clear > 0 {
        let rest = ranked.drop_first();
        assert forall|i: int| 0 <= i < clear - 1 implies 0 < (#[trigger] rest[i]).distance <= limit
            && occluded(rest[i].position) by {
            assert(rest[i] == ranked[i + 1]);
        }
        assert(0 < ranked[0].distance <= limit && occluded(ranked[0].position));
        assert(rest[clear - 1] == ranked[clear]);
        lemma_first_clear(rest, limit, occluded, clear - 1);
    }
}

/// A candidate out of reach ends the search: with it, and with every
/// candidate before it out of sight, there is no target.
pub proof fn lemma_out_of_reach(
    ranked: Seq<Neighbor>,
    limit: int,
    occluded: spec_fn(Coords3) -> bool,
    far: int,
)
    requires
        0 <= far < ranked.len(),
        forall|i: int|
            0 <= i < far ==> 0 < (#[trigger] ranked[i]).distance <= limit && occluded(
                ranked[i].position,
            ),
        ranked[far].distance > limit,
    ensures
        first_visible(ranked, limit, occluded) is None,
    decreases far,
{
    if far > 0 {
        let rest = ranked.drop_first();
        assert forall|i: int| 0 <= i < far - 1 implies 0 < (#[trigger] rest[i]).distance <= limit
            && occluded(rest[i].position) by {
            assert(rest[i] == ranked[i + 1]);
        }
        assert(0 < ranked[0].distance <= limit && occluded(ranked[0].position));
        assert(rest[far - 1] == ranked[far]);
        lemma_out_of_reach(rest, limit, occluded, far - 1);
    }
}

} // verus!
