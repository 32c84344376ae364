//! Hits and intersection records, and the order in which records are listed.

use crate::ids::Entity;
use crate::math::{Ray3D, Vec3};
use vstd::prelude::*;

verus! {

/// A distance is carried as the bit pattern of a non-negative
/// single-precision number. For such numbers the unsigned order of the bit
/// patterns is the order of the numbers, so the library compares distances as
/// unsigned integers.
///
/// A hit is recorded only if it is nearer than this bound, the bit pattern of
/// the largest finite number. The patterns from the bound upwards stand for
/// the largest finite length, for an infinite one and for one that is not a
/// number.
pub const MAX_DISTANCE: u32 = 0x7f7f_ffff;

/// The outcome of testing one ray against one triangle that it hits.
#[derive(Debug, Clone, Copy, PartialEq, Eq, Structural)]
pub struct TriangleHit {
    /// The point that was hit, with the surface normal there as direction.
    pub intersection: Ray3D,
    /// The distance from the ray's origin to the point that was hit.
    pub distance: u32,
}

impl TriangleHit {
    pub fn new(intersection: Ray3D, distance: u32) -> (hit: TriangleHit)
        ensures
            hit == (TriangleHit { intersection, distance }),
    {
        TriangleHit { intersection, distance }
    }
}

/// Holds the entity associated with a mesh as well as its computed
/// intersection from a pick ray cast.
#[derive(Debug, Clone, Copy, PartialEq, Eq, Structural)]
pub struct PickIntersection {
    pub entity: Entity,
    pub intersection: Ray3D,
    pub distance: u32,
}

impl PickIntersection {
    pub fn new(entity: Entity, intersection: Ray3D, distance: u32) -> (pick: PickIntersection)
        ensures
            pick == (PickIntersection { entity, intersection, distance }),
    {
        PickIntersection { entity, intersection, distance }
    }

    /// Entity intersected with.
    pub fn entity(&self) -> (entity: Entity)
        ensures
            entity == self.entity,
    {
        self.entity
    }

    /// Position vector describing the intersection position.
    pub fn position(&self) -> (position: &Vec3)
        ensures
            *position == self.intersection.origin,
    {
        self.intersection.origin()
    }

    /// Vector describing the normal of the intersected triangle.
    pub fn normal(&self) -> (normal: &Vec3)
        ensures
            *normal == self.intersection.direction,
    {
        self.intersection.direction()
    }

    /// Depth, distance from the ray's origin to the intersection.
    pub fn distance(&self) -> (distance: u32)
        ensures
            distance == self.distance,
    {
        self.distance
    }
}

/// `hits[i]` is the hit that a scan retains: it is nearer than
/// [`MAX_DISTANCE`], no hit is nearer than it, and every hit before it is
/// strictly farther.
pub open spec fn is_closest(hits: Seq<TriangleHit>, i: int) -> bool {
    &&& 0 <= i < hits.len()
    &&& hits[i].distance < MAX_DISTANCE
    &&& forall|j: int| 0 <= j < hits.len() ==> hits[i].distance <= (#[trigger] hits[j]).distance
    &&& forall|j: int| 0 <= j < i ==> hits[i].distance < (#[trigger] hits[j]).distance
}

/// The hit that a scan retains of `hits`, if it retains one.
pub open spec fn closest(hits: Seq<TriangleHit>) -> Option<TriangleHit> {
    if exists|i: int| is_closest(hits, i) {
        Some(hits[choose|i: int| is_closest(hits, i)])
    } else {
        None
    }
}

/// At most one index of `hits` is that of the closest hit.
pub proof fn lemma_closest_unique(hits: Seq<TriangleHit>, i: int, j: int)
    requires
        is_closest(hits, i),
        is_closest(hits, j),
    ensures
        i == j,
{
    if i < j {
        assert(hits[j].distance < hits[i].distance);
        assert(hits[i].distance <= hits[j].distance);
    } else if j < i {
        assert(hits[i].distance < hits[j].distance);
        assert(hits[j].distance <= hits[i].distance);
    }
}

/// The closest of the hits of one ray on the triangles of one mesh, the
/// first of them where several are equally near; none where no hit is nearer
/// than [`MAX_DISTANCE`].
pub fn closest_hit(hits: &Vec<TriangleHit>) -> (best: Option<TriangleHit>)
    ensures
        best == closest(hits@),
{
    let mut min_pick_distance: u32 = MAX_DISTANCE;
    let mut best: Option<TriangleHit> = None;
    let ghost mut at: int = -1;
    let mut k: usize = 0;
    while k < hits.len()
        invariant
            0 <= k <= hits.len(),
            -1 <= at < k,
            best is None <==> at == -1,
            at == -1 ==> min_pick_distance == MAX_DISTANCE,
            at >= 0 ==> best == Some(hits@[at]) && min_pick_distance == hits@[at].distance
                && min_pick_distance < MAX_DISTANCE,
            forall|j: int| 0 <= j < k ==> min_pick_distance <= (#[trigger] hits@[j]).distance,
            forall|j: int| 0 <= j < at ==> min_pick_distance < (#[trigger] hits@[j]).distance,
        decreases hits.len() - k,
    {
        let hit = hits[k];
        if hit.distance < min_pick_distance {
            min_pick_distance = hit.distance;
            best = Some(hit);
            proof {
                at = k as int;
            }
        }
        k += 1;
    }
    proof {
        if at >= 0 {
            assert(is_closest(hits@, at));
            let i = choose|i: int| is_closest(hits@, i);
            lemma_closest_unique(hits@, i, at);
        } else {
            assert forall|i: int| !is_closest(hits@, i) by {
                if 0 <= i < hits@.len() {
                    assert(MAX_DISTANCE <= hits@[i].distance);
                }
            }
        }
    }
    best
}

/// No record of `s` is listed before a nearer one.
pub open spec fn sorted_by_distance(s: Seq<PickIntersection>) -> bool {
    forall|i: int, j: int| 0 <= i <= j < s.len() ==> s[i].distance <= s[j].distance
}

/// `s` with `pick` placed directly behind the last record that is no farther
/// than `pick`, and in front where every record is farther. In a sorted list
/// that is behind every record that is no farther, and before every other.
pub open spec fn insert_by_distance(s: Seq<PickIntersection>, pick: PickIntersection) -> Seq<
    PickIntersection,
>
    decreases s.len(),
{
    if s.len() == 0 {
        seq![pick]
    } else if s.last().distance <= pick.distance {
        s.push(pick)
    } else {
        insert_by_distance(s.drop_last(), pick).push(s.last())
    }
}

/// The records of `s` from near to far, those at equal distance in the order
/// in which `s` has them.
pub open spec fn sort_by_distance(s: Seq<PickIntersection>) -> Seq<PickIntersection>
    decreases s.len(),
{
    if s.len() == 0 {
        Seq::empty()
    } else {
        insert_by_distance(sort_by_distance(s.drop_last()), s.last())
    }
}

/// The records of `s` whose distance is `distance`, in the order of `s`.
pub open spec fn at_distance(s: Seq<PickIntersection>, distance: u32) -> Seq<PickIntersection>
    decreases s.len(),
{
    if s.len() == 0 {
        Seq::empty()
    } else if s.last().distance == distance {
        at_distance(s.drop_last(), distance).push(s.last())
    } else {
        at_distance(s.drop_last(), distance)
    }
}

/// No two records of `s` name the same entity.
pub open spec fn distinct_entities(s: Seq<PickIntersection>) -> bool {
    forall|i: int, j: int| 0 <= i < j < s.len() ==> s[i].entity != s[j].entity
}

/// Some record of `s` names `entity`.
pub open spec fn names_entity(s: Seq<PickIntersection>, entity: Entity) -> bool {
    exists|i: int| 0 <= i < s.len() && (#[trigger] s[i]).entity == entity
}

/// Where `insert_by_distance` places a record: at an index `at` such that
/// every record from `at` on is strictly farther, and the record before
/// `at`, if there is one, is no farther.
pub proof fn lemma_insert_position(s: Seq<PickIntersection>, pick: PickIntersection) -> (at: int)
    ensures
        0 <= at <= s.len(),
        insert_by_distance(s, pick) == s.insert(at, pick),
        forall|k: int| at <= k < s.len() ==> pick.distance < (#[trigger] s[k]).distance,
        at > 0 ==> s[at - 1].distance <= pick.distance,
    decreases s.len(),
{
    if s.len() == 0 {
        assert(seq![pick] =~= s.insert(0, pick));
        0
    } else if s.last().distance <= pick.distance {
        assert(s.push(pick) =~= s.insert(s.len() as int, pick));
        s.len() as int
    } else {
        let at = lemma_insert_position(s.drop_last(), pick);
        assert(s.drop_last().insert(at, pick).push(s.last()) =~= s.insert(at, pick));
        assert forall|k: int| at <= k < s.len() implies pick.distance < (#[trigger] s[k]).distance by {
            if k < s.len() - 1 {
                assert(s.drop_last()[k] == s[k]);
            }
        }
        at
    }
}

/// A record that is placed at the index that [`lemma_insert_position`]
/// describes is placed as `insert_by_distance` places it.
pub proof fn lemma_insert_at(s: Seq<PickIntersection>, pick: PickIntersection, at: int)
    requires
        0 <= at <= s.len(),
        forall|k: int| at <= k < s.len() ==> pick.distance < (#[trigger] s[k]).distance,
        at > 0 ==> s[at - 1].distance <= pick.distance,
    ensures
        insert_by_distance(s, pick) == s.insert(at, pick),
{
    let found = lemma_insert_position(s, pick);
    if found < at {
        assert(pick.distance < s[at - 1].distance);
    } else if at < found {
        assert(pick.distance < s[found - 1].distance);
    }
}

/// Placing a record into a sorted list leaves the list sorted.
pub proof fn lemma_insert_keeps_sorted(s: Seq<PickIntersection>, pick: PickIntersection)
    requires
        sorted_by_distance(s),
    ensures
        sorted_by_distance(insert_by_distance(s, pick)),
{
    let at = lemma_insert_position(s, pick);
    let t = s.insert(at, pick);
    assert forall|i: int, j: int| 0 <= i <= j < t.len() implies t[i].distance <= t[j].distance by {
        if i < at && j == at {
            assert(s[i].distance <= s[at - 1].distance);
        } else if i < at && j > at {
            assert(t[j] == s[j - 1]);
            assert(s[i].distance <= s[j - 1].distance);
        } else if i == at && j > at {
            assert(t[j] == s[j - 1]);
        } else if i > at {
            assert(t[i] == s[i - 1]);
            assert(t[j] == s[j - 1]);
        }
    }
}

/// A list after a scan is sorted ascending by distance.
pub proof fn lemma_sort_is_sorted(s: Seq<PickIntersection>)
    ensures
        sorted_by_distance(sort_by_distance(s)),
    decreases s.len(),
{
    if s.len() > 0 {
        lemma_sort_is_sorted(s.drop_last());
        lemma_insert_keeps_sorted(sort_by_distance(s.drop_last()), s.last());
    }
}

/// Sorting neither drops a record nor adds one.
pub proof fn lemma_sort_is_permutation(s: Seq<PickIntersection>)
    ensures
        sort_by_distance(s).to_multiset() == s.to_multiset(),
        sort_by_distance(s).len() == s.len(),
    decreases s.len(),
{
    if s.len() > 0 {
        let rest = s.drop_last();
        lemma_sort_is_permutation(rest);
        let sorted = sort_by_distance(rest);
        let at = lemma_insert_position(sorted, s.last());
        vstd::seq_lib::to_multiset_insert(sorted, at, s.last());
        vstd::seq_lib::to_multiset_build(rest, s.last());
        assert(rest.push(s.last()) =~= s);
    } else {
        assert(sort_by_distance(s) =~= s);
    }
}

/// Sorting is stable: the records at any one distance keep the order in
/// which they were encountered.
pub proof fn lemma_sort_is_stable(s: Seq<PickIntersection>, distance: u32)
    ensures
        at_distance(sort_by_distance(s), distance) == at_distance(s, distance),
    decreases s.len(),
{
    if s.len() > 0 {
        lemma_sort_is_stable(s.drop_last(), distance);
        lemma_insert_at_distance(sort_by_distance(s.drop_last()), s.last(), distance);
    }
}

proof fn lemma_insert_at_distance(s: Seq<PickIntersection>, pick: PickIntersection, distance: u32)
    ensures
        at_distance(insert_by_distance(s, pick), distance) == if pick.distance == distance {
            at_distance(s, distance).push(pick)
        } else {
            at_distance(s, distance)
        },
    decreases s.len(),
{
    if s.len() == 0 {
        assert(seq![pick].drop_last() =~= s);
    } else if s.last().distance <= pick.distance {
        assert(s.push(pick).drop_last() =~= s);
    } else {
        lemma_insert_at_distance(s.drop_last(), pick, distance);
        let t = insert_by_distance(s.drop_last(), pick);
        assert(t.push(s.last()).drop_last() =~= t);
    }
}

/// Placing a record adds the entity that it names to those that the list
/// names, and keeps the entities distinct if the list did not name it.
pub proof fn lemma_insert_entities(s: Seq<PickIntersection>, pick: PickIntersection)
    ensures
        forall|entity: Entity|
            names_entity(insert_by_distance(s, pick), entity) <==> names_entity(s, entity) || entity
                == pick.entity,
        distinct_entities(s) && !names_entity(s, pick.entity) ==> distinct_entities(
            insert_by_distance(s, pick),
        ),
{
    let at = lemma_insert_position(s, pick);
    let t = s.insert(at, pick);
    assert forall|entity: Entity|
        names_entity(t, entity) <==> names_entity(s, entity) || entity == pick.entity by {
        if names_entity(t, entity) {
            let i = choose|i: int| 0 <= i < t.len() && (#[trigger] t[i]).entity == entity;
            if i < at {
                assert(s[i].entity == entity);
            } else if i > at {
                assert(s[i - 1].entity == entity);
            }
        }
        if names_entity(s, entity) {
            let i = choose|i: int| 0 <= i < s.len() && (#[trigger] s[i]).entity == entity;
            if i < at {
                assert(t[i].entity == entity);
            } else {
                assert(t[i + 1].entity == entity);
            }
        }
        if entity == pick.entity {
            assert(t[at].entity == entity);
        }
    }
    if distinct_entities(s) && !names_entity(s, pick.entity) {
        assert forall|i: int, j: int| 0 <= i < j < t.len() implies t[i].entity != t[j].entity by {
            let a = if i < at {
                i
            } else {
                i - 1
            };
            let b = if j < at {
                j
            } else {
                j - 1
            };
            if i == at {
                assert(t[j] == s[b]);
            } else if j == at {
                assert(t[i] == s[a]);
            } else {
                assert(t[i] == s[a]);
                assert(t[j] == s[b]);
            }
        }
    }
}

/// Sorting keeps the entities that a list names, and keeps them distinct.
pub proof fn lemma_sort_entities(s: Seq<PickIntersection>)
    ensures
        forall|entity: Entity|
            names_entity(sort_by_distance(s), entity) <==> names_entity(s, entity),
        distinct_entities(s) ==> distinct_entities(sort_by_distance(s)),
    decreases s.len(),
{
    if s.len() > 0 {
        let rest = s.drop_last();
        lemma_sort_entities(rest);
        lemma_insert_entities(sort_by_distance(rest), s.last());
        assert forall|entity: Entity| names_entity(s, entity) <==> names_entity(rest, entity)
            || entity == s.last().entity by {
            if names_entity(s, entity) {
                let i = choose|i: int| 0 <= i < s.len() && (#[trigger] s[i]).entity == entity;
                if i < rest.len() {
                    assert(rest[i].entity == entity);
                }
            }
            if names_entity(rest, entity) {
                let i = choose|i: int| 0 <= i < rest.len() && (#[trigger] rest[i]).entity == entity;
                assert(s[i].entity == entity);
            }
            if entity == s.last().entity {
                assert(s[s.len() - 1].entity == entity);
            }
        }
        if distinct_entities(s) {
            assert(distinct_entities(rest)) by {
                assert forall|i: int, j: int| 0 <= i < j < rest.len() implies rest[i].entity
                    != rest[j].entity by {
                    assert(rest[i] == s[i] && rest[j] == s[j]);
                }
            }
            assert(!names_entity(rest, s.last().entity)) by {
                if names_entity(rest, s.last().entity) {
                    let i = choose|i: int|
                        0 <= i < rest.len() && (#[trigger] rest[i]).entity == s.last().entity;
                    assert(s[i].entity == s[s.len() - 1].entity);
                }
            }
        }
    } else {
        assert forall|entity: Entity| !names_entity(s, entity) by {}
        assert forall|entity: Entity| !names_entity(sort_by_distance(s), entity) by {}
    }
}

} // verus!
