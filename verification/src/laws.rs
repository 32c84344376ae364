//! What holds of every scan.

use crate::error::PickError;
use crate::ids::Entity;
use crate::intersection::{
    distinct_entities, lemma_sort_entities, lemma_sort_is_permutation, lemma_sort_is_sorted,
    names_entity, sort_by_distance, sorted_by_distance, PickIntersection,
};
use crate::math::Ray3D;
use crate::scanner::{encountered, first_malformed, scan_lists, scan_outcome, MeshCandidate};
use crate::state::PickStateView;
use vstd::prelude::*;

verus! {

/// No two candidates name the same entity.
pub open spec fn distinct_candidates(candidates: Seq<MeshCandidate>) -> bool {
    forall|i: int, j: int| 0 <= i < j < candidates.len() ==> candidates[i].entity != candidates[j].entity
}

/// After a scan the list of every channel is sorted ascending by distance,
/// and no list is empty.
pub proof fn lemma_scan_lists_are_sorted(rays: Map<usize, Ray3D>, candidates: Seq<MeshCandidate>)
    ensures
        (PickStateView { rays, lists: scan_lists(rays, candidates) }).wf(),
{
    let lists = scan_lists(rays, candidates);
    assert forall|channel: usize| #[trigger] lists.contains_key(channel) implies lists[channel].len()
        > 0 && sorted_by_distance(lists[channel]) by {
        lemma_sort_is_sorted(encountered(rays, candidates, channel));
        lemma_sort_is_permutation(encountered(rays, candidates, channel));
    }
}

/// The records that a scan comes upon in a channel are exactly the records
/// of the candidates: the closest hit of each candidate that is drawn, is a
/// list of triangles, is in the channel, and is hit by the channel's ray.
pub proof fn lemma_encountered_records(
    rays: Map<usize, Ray3D>,
    candidates: Seq<MeshCandidate>,
    channel: usize,
)
    ensures
        forall|pick: PickIntersection|
            encountered(rays, candidates, channel).contains(pick) <==> exists|i: int|
                0 <= i < candidates.len() && (#[trigger] candidates[i]).record(rays, channel)
                    == Some(pick),
    decreases candidates.len(),
{
    let met = encountered(rays, candidates, channel);
    if candidates.len() > 0 {
        let rest = candidates.drop_last();
        let before = encountered(rays, rest, channel);
        lemma_encountered_records(rays, rest, channel);
        assert forall|pick: PickIntersection|
            met.contains(pick) <==> exists|i: int|
                0 <= i < candidates.len() && (#[trigger] candidates[i]).record(rays, channel)
                    == Some(pick) by {
            if met.contains(pick) {
                let k = choose|k: int| 0 <= k < met.len() && met[k] == pick;
                if k < before.len() {
                    assert(before[k] == pick);
                    assert(before.contains(pick));
                    let i = choose|i: int|
                        0 <= i < rest.len() && (#[trigger] rest[i]).record(rays, channel) == Some(
                            pick,
                        );
                    assert(candidates[i].record(rays, channel) == Some(pick));
                } else {
                    assert(candidates[candidates.len() - 1].record(rays, channel) == Some(pick));
                }
            }
            if exists|i: int|
                0 <= i < candidates.len() && (#[trigger] candidates[i]).record(rays, channel)
                    == Some(pick) {
                let i = choose|i: int|
                    0 <= i < candidates.len() && (#[trigger] candidates[i]).record(rays, channel)
                        == Some(pick);
                if i < rest.len() {
                    assert(rest[i].record(rays, channel) == Some(pick));
                    assert(before.contains(pick));
                    let k = choose|k: int| 0 <= k < before.len() && before[k] == pick;
                    assert(met[k] == pick);
                } else {
                    assert(met[met.len() - 1] == pick);
                }
            }
        }
    } else {
        assert forall|pick: PickIntersection| !met.contains(pick) by {}
    }
}

/// A list after a scan holds exactly the records of the candidates: the scan
/// drops none and adds none.
pub proof fn lemma_listed_records(
    rays: Map<usize, Ray3D>,
    candidates: Seq<MeshCandidate>,
    channel: usize,
)
    ensures
        forall|pick: PickIntersection|
            sort_by_distance(encountered(rays, candidates, channel)).contains(pick) <==> exists|
                i: int,
            |
                0 <= i < candidates.len() && (#[trigger] candidates[i]).record(rays, channel)
                    == Some(pick),
{
    broadcast use vstd::seq_lib::to_multiset_contains;

    let met = encountered(rays, candidates, channel);
    lemma_encountered_records(rays, candidates, channel);
    lemma_sort_is_permutation(met);
    assert forall|pick: PickIntersection| #[trigger]
        sort_by_distance(met).contains(pick) <==> exists|i: int|
            0 <= i < candidates.len() && (#[trigger] candidates[i]).record(rays, channel) == Some(
                pick,
            ) by {
        assert(sort_by_distance(met).to_multiset().count(pick) == met.to_multiset().count(pick));
        assert(sort_by_distance(met).contains(pick) <==> met.contains(pick));
    }
}

/// Every record that a scan comes upon names a candidate, and no two of them
/// name the same one where the candidates are distinct entities.
proof fn lemma_encountered_entities(
    rays: Map<usize, Ray3D>,
    candidates: Seq<MeshCandidate>,
    channel: usize,
)
    requires
        distinct_candidates(candidates),
    ensures
        distinct_entities(encountered(rays, candidates, channel)),
        forall|entity: Entity|
            names_entity(encountered(rays, candidates, channel), entity) ==> exists|i: int|
                0 <= i < candidates.len() && (#[trigger] candidates[i]).entity == entity,
    decreases candidates.len(),
{
    let met = encountered(rays, candidates, channel);
    if candidates.len() > 0 {
        let rest = candidates.drop_last();
        let before = encountered(rays, rest, channel);
        assert(distinct_candidates(rest)) by {
            assert forall|i: int, j: int| 0 <= i < j < rest.len() implies rest[i].entity
                != rest[j].entity by {
                assert(rest[i] == candidates[i] && rest[j] == candidates[j]);
            }
        }
        lemma_encountered_entities(rays, rest, channel);
        assert forall|entity: Entity| names_entity(met, entity) implies exists|i: int|
            0 <= i < candidates.len() && (#[trigger] candidates[i]).entity == entity by {
            let k = choose|k: int| 0 <= k < met.len() && (#[trigger] met[k]).entity == entity;
            if k < before.len() {
                assert(before[k].entity == entity);
                assert(names_entity(before, entity));
                let i = choose|i: int| 0 <= i < rest.len() && (#[trigger] rest[i]).entity == entity;
                assert(candidates[i].entity == entity);
            } else {
                assert(candidates[candidates.len() - 1].entity == entity);
            }
        }
        assert forall|k: int, l: int| 0 <= k < l < met.len() implies met[k].entity
            != met[l].entity by {
            if l < before.len() {
                assert(met[k] == before[k] && met[l] == before[l]);
            } else {
                assert(met[k] == before[k]);
                assert(names_entity(before, met[k].entity));
                let i = choose|i: int|
                    0 <= i < rest.len() && (#[trigger] rest[i]).entity == met[k].entity;
                assert(candidates[i].entity != candidates[candidates.len() - 1].entity);
            }
        }
    } else {
        assert forall|entity: Entity| !names_entity(met, entity) by {}
    }
}

/// A mesh has at most one record in the list of a channel, however many of
/// its triangles the ray of the channel hits and however often its groups
/// name the channel.
pub proof fn lemma_one_record_per_mesh(
    rays: Map<usize, Ray3D>,
    candidates: Seq<MeshCandidate>,
    channel: usize,
)
    requires
        distinct_candidates(candidates),
    ensures
        distinct_entities(sort_by_distance(encountered(rays, candidates, channel))),
        scan_lists(rays, candidates).contains_key(channel) ==> distinct_entities(
            scan_lists(rays, candidates)[channel],
        ),
{
    lemma_encountered_entities(rays, candidates, channel);
    lemma_sort_entities(encountered(rays, candidates, channel));
}

/// Where two scans start from the same rays and go through the same
/// candidates, and the first of them found a ray, both end alike and leave
/// the same lists, whatever lists each of them found.
pub proof fn lemma_scan_forgets_lists(
    first: PickStateView,
    second: PickStateView,
    candidates: Seq<MeshCandidate>,
    after_first: PickStateView,
    after_second: PickStateView,
    first_scanned: Result<(), PickError>,
    second_scanned: Result<(), PickError>,
)
    requires
        first.rays == second.rays,
        !first.rays.is_empty(),
        scan_outcome(first, candidates, after_first, first_scanned),
        scan_outcome(second, candidates, after_second, second_scanned),
    ensures
        after_first == after_second,
        first_scanned == second_scanned,
{
    let rays = first.rays;
    match first_scanned {
        Ok(()) => {
            if second_scanned is Err {
                let k = choose|k: int| first_malformed(rays, candidates, k);
                assert(!candidates[k].malformed(rays));
            }
            assert(first_scanned->Ok_0 =~= second_scanned->Ok_0);
        },
        Err(error) => {
            let k = choose|k: int|
                first_malformed(rays, candidates, k) && error == (PickError::MissingIndices {
                    entity: candidates[k].entity,
                });
            match second_scanned {
                Ok(()) => {
                    assert(!candidates[k].malformed(rays));
                },
                Err(other) => {
                    let l = choose|l: int|
                        first_malformed(rays, candidates, l) && other == (
                        PickError::MissingIndices { entity: candidates[l].entity });
                    if k < l {
                        assert(!candidates[k].malformed(rays));
                    } else if l < k {
                        assert(!candidates[l].malformed(rays));
                    }
                },
            }
        },
    }
}

/// Scanning is idempotent: a second scan of the same candidates, with the
/// rays unchanged, ends as the first did and leaves the state as the first
/// left it.
pub proof fn lemma_scan_is_idempotent(
    before: PickStateView,
    candidates: Seq<MeshCandidate>,
    once: PickStateView,
    twice: PickStateView,
    first_scanned: Result<(), PickError>,
    second_scanned: Result<(), PickError>,
)
    requires
        scan_outcome(before, candidates, once, first_scanned),
        scan_outcome(once, candidates, twice, second_scanned),
    ensures
        twice == once,
        second_scanned == first_scanned,
{
    if !before.rays.is_empty() {
        lemma_scan_forgets_lists(
            before,
            once,
            candidates,
            once,
            twice,
            first_scanned,
            second_scanned,
        );
    } else {
        assert(first_scanned->Ok_0 =~= second_scanned->Ok_0);
    }
}

} // verus!
