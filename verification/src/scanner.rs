//! The mesh intersection scanner: from the hits of each ray on each pickable
//! mesh to the list of intersections of each channel, from near to far.

use crate::error::PickError;
use crate::group::PickingGroup;
use crate::ids::Entity;
use crate::intersection::{
    closest, closest_hit, insert_by_distance, sort_by_distance, PickIntersection, TriangleHit,
};
use crate::math::Ray3D;
use crate::mesh::{Mesh, PickableMesh, PrimitiveTopology};
use crate::state::{PickState, PickStateView};
use vstd::prelude::*;

verus! {

/// The outcome of testing the ray of one channel against the triangles of one
/// mesh: the hits, in the order of the triangles.
#[derive(Debug, Clone)]
pub struct Probe {
    pub group: usize,
    pub hits: Vec<TriangleHit>,
}

impl Probe {
    pub fn new(group: usize, hits: Vec<TriangleHit>) -> (probe: Probe)
        ensures
            probe.group == group,
            probe.hits == hits,
    {
        Probe { group, hits }
    }
}

/// `probes[i]` is the first probe of `channel`.
pub open spec fn first_probe(probes: Seq<Probe>, channel: usize, i: int) -> bool {
    &&& 0 <= i < probes.len()
    &&& probes[i].group == channel
    &&& forall|j: int| 0 <= j < i ==> (#[trigger] probes[j]).group != channel
}

/// A pickable entity as a scan meets it.
#[derive(Debug, Clone)]
pub struct MeshCandidate {
    pub entity: Entity,
    /// Whether the entity is drawn.
    pub visible: bool,
    pub pickable: PickableMesh,
    /// The mesh of the entity; `None` while the asset cannot be found.
    pub mesh: Option<Mesh>,
    /// The probes of the mesh, at most one of which counts for a channel: the
    /// first.
    pub probes: Vec<Probe>,
}

impl MeshCandidate {
    /// A candidate that has not been probed yet.
    pub fn new(entity: Entity, visible: bool, pickable: PickableMesh, mesh: Option<Mesh>) -> (candidate:
        MeshCandidate)
        ensures
            candidate.entity == entity,
            candidate.visible == visible,
            candidate.pickable == pickable,
            candidate.mesh == mesh,
            candidate.probes@ == Seq::<Probe>::empty(),
    {
        MeshCandidate { entity, visible, pickable, mesh, probes: Vec::new() }
    }

    /// Adds the outcome of testing the ray of channel `group` against the
    /// mesh.
    pub fn with_probe(self, group: usize, hits: Vec<TriangleHit>) -> (candidate: MeshCandidate)
        ensures
            candidate.entity == self.entity,
            candidate.visible == self.visible,
            candidate.pickable == self.pickable,
            candidate.mesh == self.mesh,
            candidate.probes@ == self.probes@.push(Probe { group, hits }),
    {
        let mut candidate = self;
        candidate.probes.push(Probe { group, hits });
        candidate
    }

    /// The hits of the ray of `channel` on the mesh: those of the first probe
    /// of the channel, none where the mesh was not probed for it.
    pub open spec fn hits_for(&self, channel: usize) -> Seq<TriangleHit> {
        if exists|i: int| first_probe(self.probes@, channel, i) {
            self.probes@[choose|i: int| first_probe(self.probes@, channel, i)].hits@
        } else {
            Seq::empty()
        }
    }

    /// A scan looks at the geometry of the candidate: it is drawn and its
    /// mesh is found and is a list of triangles.
    pub open spec fn pickable_now(&self) -> bool {
        &&& self.visible
        &&& self.mesh matches Some(mesh) && mesh.primitive_topology
            == PrimitiveTopology::TriangleList
    }

    /// The candidate is in `channel`, and the channel has a ray.
    pub open spec fn shares(&self, rays: Map<usize, Ray3D>, channel: usize) -> bool {
        rays.contains_key(channel) && self.pickable.in_channel(channel)
    }

    /// The scan cannot go on: it has a ray to test against the candidate,
    /// whose triangles have no index buffer.
    pub open spec fn malformed(&self, rays: Map<usize, Ray3D>) -> bool {
        &&& self.pickable_now()
        &&& self.mesh->0.indices is None
        &&& exists|channel: usize| self.shares(rays, channel)
    }

    /// The record that the candidate adds to the list of `channel`: its
    /// closest hit, if the scan tests the ray of the channel against it and
    /// the ray hits.
    pub open spec fn record(&self, rays: Map<usize, Ray3D>, channel: usize) -> Option<
        PickIntersection,
    > {
        if self.pickable_now() && self.shares(rays, channel) {
            match closest(self.hits_for(channel)) {
                Some(hit) => Some(
                    PickIntersection {
                        entity: self.entity,
                        intersection: hit.intersection,
                        distance: hit.distance,
                    },
                ),
                None => None,
            }
        } else {
            None
        }
    }

    /// The hits of the first probe of `channel`, if the candidate was probed
    /// for it.
    pub fn probe(&self, channel: usize) -> (hits: Option<&Vec<TriangleHit>>)
        ensures
            match hits {
                Some(found) => found@ == self.hits_for(channel) && exists|i: int|
                    first_probe(self.probes@, channel, i),
                None => self.hits_for(channel) == Seq::<TriangleHit>::empty() && forall|i: int|
                    0 <= i < self.probes@.len() ==> (#[trigger] self.probes@[i]).group != channel,
            },
    {
        let mut i: usize = 0;
        while i < self.probes.len()
            invariant
                0 <= i <= self.probes.len(),
                forall|j: int| 0 <= j < i ==> (#[trigger] self.probes@[j]).group != channel,
            decreases self.probes.len() - i,
        {
            if self.probes[i].group == channel {
                proof {
                    assert(first_probe(self.probes@, channel, i as int));
                    let chosen = choose|k: int| first_probe(self.probes@, channel, k);
                    assert(chosen == i) by {
                        if chosen < i {
                            assert(self.probes@[chosen].group != channel);
                        } else if i < chosen {
                            assert(self.probes@[i as int].group != channel);
                        }
                    }
                }
                return Some(&self.probes[i].hits);
            }
            i += 1;
        }
        None
    }
}

/// The channels that a mesh with the groups `groups` shares with `rays`, each
/// once and with its ray, in the order in which `groups` first names them.
pub open spec fn shared_rays(groups: Seq<PickingGroup>, rays: Map<usize, Ray3D>) -> Seq<
    (usize, Ray3D),
>
    decreases groups.len(),
{
    if groups.len() == 0 {
        Seq::empty()
    } else {
        let before = shared_rays(groups.drop_last(), rays);
        match groups.last() {
            PickingGroup::Group(channel) => if rays.contains_key(channel)
                && !groups.drop_last().contains(groups.last()) {
                before.push((channel, rays[channel]))
            } else {
                before
            },
            PickingGroup::Disabled => before,
        }
    }
}

/// `shared` lists `channel`.
pub open spec fn lists_channel(shared: Seq<(usize, Ray3D)>, channel: usize) -> bool {
    exists|i: int| 0 <= i < shared.len() && (#[trigger] shared[i]).0 == channel
}

/// What `shared_rays` holds: exactly the channels that are both among
/// `groups` and keys of `rays`, none of them twice, each with its ray.
pub proof fn lemma_shared_rays(groups: Seq<PickingGroup>, rays: Map<usize, Ray3D>)
    ensures
        forall|channel: usize|
            lists_channel(shared_rays(groups, rays), channel) <==> rays.contains_key(channel)
                && groups.contains(PickingGroup::Group(channel)),
        forall|i: int, j: int|
            0 <= i < j < shared_rays(groups, rays).len() ==> shared_rays(groups, rays)[i].0
                != shared_rays(groups, rays)[j].0,
        forall|i: int|
            0 <= i < shared_rays(groups, rays).len() ==> rays.contains_key(
                (#[trigger] shared_rays(groups, rays)[i]).0,
            ) && shared_rays(groups, rays)[i].1 == rays[shared_rays(groups, rays)[i].0],
    decreases groups.len(),
{
    let shared = shared_rays(groups, rays);
    if groups.len() > 0 {
        let rest = groups.drop_last();
        let before = shared_rays(rest, rays);
        lemma_shared_rays(rest, rays);
        assert forall|channel: usize|
            lists_channel(shared, channel) <==> rays.contains_key(channel) && groups.contains(
                PickingGroup::Group(channel),
            ) by {
            let group = PickingGroup::Group(channel);
            if lists_channel(shared, channel) {
                let i = choose|i: int| 0 <= i < shared.len() && (#[trigger] shared[i]).0 == channel;
                if i < before.len() {
                    assert(before[i] == shared[i]);
                    assert(lists_channel(before, channel));
                    let at = choose|at: int| 0 <= at < rest.len() && rest[at] == group;
                    assert(groups[at] == group);
                } else {
                    assert(groups[groups.len() - 1] == group);
                }
            }
            if rays.contains_key(channel) && groups.contains(group) {
                if rest.contains(group) {
                    assert(lists_channel(before, channel));
                    let i = choose|i: int|
                        0 <= i < before.len() && (#[trigger] before[i]).0 == channel;
                    assert(shared[i] == before[i]);
                } else {
                    let at = choose|at: int| 0 <= at < groups.len() && groups[at] == group;
                    if at < rest.len() {
                        assert(rest[at] == group);
                    }
                    assert(shared[shared.len() - 1].0 == channel);
                }
            }
        }
        assert forall|i: int, j: int| 0 <= i < j < shared.len() implies shared[i].0
            != shared[j].0 by {
            if j == before.len() {
                assert(before[i] == shared[i]);
                assert(lists_channel(before, shared[i].0));
            }
        }
    } else {
        assert forall|channel: usize| !lists_channel(shared, channel) by {}
        assert forall|channel: usize| !groups.contains(PickingGroup::Group(channel)) by {}
    }
}

/// The rays that a scan tests against `candidate`, each with its channel: in
/// a scan that looks at the candidate's geometry, the rays of the channels
/// that the candidate shares with this tick's rays; none otherwise. Fails for
/// a candidate on which the scan cannot go on.
pub fn rays_for(pick_state: &PickState, candidate: &MeshCandidate) -> (rays: Result<
    Vec<(usize, Ray3D)>,
    PickError,
>)
    ensures
        match rays {
            Ok(shared) => !candidate.malformed(pick_state@.rays) && shared@ == if candidate.pickable_now() {
                shared_rays(candidate.pickable.group@, pick_state@.rays)
            } else {
                Seq::empty()
            },
            Err(error) => candidate.malformed(pick_state@.rays) && error
                == (PickError::MissingIndices { entity: candidate.entity }),
        },
{
    let mut pick_rays: Vec<(usize, Ray3D)> = Vec::new();
    if !candidate.visible {
        return Ok(pick_rays);
    }
    let groups = &candidate.pickable.group;
    let ghost rays = pick_state@.rays;
    let mut i: usize = 0;
    while i < groups.len()
        invariant
            0 <= i <= groups.len(),
            rays == pick_state@.rays,
            pick_rays@ == shared_rays(groups@.take(i as int), rays),
        decreases groups.len() - i,
    {
        let ghost seen = groups@.take(i as int);
        proof {
            lemma_shared_rays(seen, rays);
            assert(groups@.take(i + 1).drop_last() =~= seen);
        }
        if let PickingGroup::Group(channel) = groups[i] {
            if let Some(ray) = pick_state.channel_ray(channel) {
                let mut listed = false;
                let mut j: usize = 0;
                while j < pick_rays.len()
                    invariant
                        0 <= j <= pick_rays.len(),
                        listed <==> exists|k: int| 0 <= k < j && (#[trigger] pick_rays@[k]).0 == channel,
                    decreases pick_rays.len() - j,
                {
                    if pick_rays[j].0 == channel {
                        listed = true;
                    }
                    j += 1;
                }
                assert(listed <==> lists_channel(pick_rays@, channel));
                if !listed {
                    pick_rays.push((channel, ray));
                }
            }
        }
        i += 1;
    }
    proof {
        assert(groups@.take(i as int) =~= groups@);
        lemma_shared_rays(groups@, rays);
        assert(pick_rays@.len() > 0 <==> exists|channel: usize| candidate.shares(rays, channel)) by {
            if pick_rays@.len() > 0 {
                assert(lists_channel(pick_rays@, pick_rays@[0].0));
                assert(candidate.shares(rays, pick_rays@[0].0));
            }
            if exists|channel: usize| candidate.shares(rays, channel) {
                let channel = choose|channel: usize| candidate.shares(rays, channel);
                assert(lists_channel(pick_rays@, channel));
            }
        }
    }
    if pick_rays.len() == 0 {
        return Ok(pick_rays);
    }
    match &candidate.mesh {
        Some(mesh) => {
            if mesh.primitive_topology != PrimitiveTopology::TriangleList {
                return Ok(Vec::new());
            }
            if mesh.indices.is_none() {
                return Err(PickError::MissingIndices { entity: candidate.entity });
            }
            Ok(pick_rays)
        },
        None => Ok(Vec::new()),
    }
}

/// The records of `channel` that a scan of `candidates` comes upon, in the
/// order of the candidates.
pub open spec fn encountered(
    rays: Map<usize, Ray3D>,
    candidates: Seq<MeshCandidate>,
    channel: usize,
) -> Seq<PickIntersection>
    decreases candidates.len(),
{
    if candidates.len() == 0 {
        Seq::empty()
    } else {
        let before = encountered(rays, candidates.drop_last(), channel);
        match candidates.last().record(rays, channel) {
            Some(pick) => before.push(pick),
            None => before,
        }
    }
}

/// The lists that a scan of `candidates` leaves: one for each channel in
/// which it comes upon a record, with the records of the channel from near to
/// far.
pub open spec fn scan_lists(rays: Map<usize, Ray3D>, candidates: Seq<MeshCandidate>) -> Map<
    usize,
    Seq<PickIntersection>,
> {
    Map::new(
        |channel: usize| encountered(rays, candidates, channel).len() > 0,
        |channel: usize| sort_by_distance(encountered(rays, candidates, channel)),
    )
}

/// `candidates[k]` is the first candidate on which a scan cannot go on.
pub open spec fn first_malformed(
    rays: Map<usize, Ray3D>,
    candidates: Seq<MeshCandidate>,
    k: int,
) -> bool {
    &&& 0 <= k < candidates.len()
    &&& candidates[k].malformed(rays)
    &&& forall|j: int| 0 <= j < k ==> !(#[trigger] candidates[j]).malformed(rays)
}

/// A scan of `candidates` takes the state `before` to the state `after` and
/// ends with `scanned`.
///
/// The rays stay. Without any ray the scan does nothing and succeeds. With a
/// ray it succeeds exactly when it can go on on every candidate, and then
/// leaves the lists of [`scan_lists`], whatever lists there were; it fails on
/// the first candidate on which it cannot go on, and then leaves no list.
pub open spec fn scan_outcome(
    before: PickStateView,
    candidates: Seq<MeshCandidate>,
    after: PickStateView,
    scanned: Result<(), PickError>,
) -> bool {
    &&& after.rays == before.rays
    &&& if before.rays.is_empty() {
        scanned is Ok && after.lists == before.lists
    } else {
        match scanned {
            Ok(()) => {
                &&& forall|k: int|
                    0 <= k < candidates.len() ==> !(#[trigger] candidates[k]).malformed(before.rays)
                &&& after.lists == scan_lists(before.rays, candidates)
            },
            Err(error) => {
                &&& exists|k: int|
                    first_malformed(before.rays, candidates, k) && error
                        == (PickError::MissingIndices { entity: candidates[k].entity })
                &&& after.lists == Map::<usize, Seq<PickIntersection>>::empty()
            },
        }
    }
}

/// The scan of one tick: tests nothing itself, but folds the hits that the
/// candidates carry into the intersection list of each channel.
///
/// See [`scan_outcome`] for what it leaves and when it fails.
pub fn pick_mesh(pick_state: &mut PickState, candidates: &Vec<MeshCandidate>) -> (scanned: Result<
    (),
    PickError,
>)
    ensures
        scan_outcome(old(pick_state)@, candidates@, final(pick_state)@, scanned),
        !old(pick_state)@.rays.is_empty() ==> final(pick_state)@.wf(),
{
    // If there are no rays, then there is nothing to do here
    if !pick_state.has_rays() {
        return Ok(());
    }
    pick_state.clear_lists();
    let ghost rays = pick_state@.rays;
    assert(pick_state@.lists =~= scan_lists(rays, candidates@.take(0)));
    let mut i: usize = 0;
    while i < candidates.len()
        invariant
            0 <= i <= candidates.len(),
            pick_state@.wf(),
            pick_state@.rays == rays,
            rays == old(pick_state)@.rays,
            !rays.is_empty(),
            forall|k: int| 0 <= k < i ==> !(#[trigger] candidates@[k]).malformed(rays),
            pick_state@.lists == scan_lists(rays, candidates@.take(i as int)),
        decreases candidates.len() - i,
    {
        let candidate = &candidates[i];
        let pick_rays = match rays_for(pick_state, candidate) {
            Ok(pick_rays) => pick_rays,
            Err(error) => {
                pick_state.clear_lists();
                assert(first_malformed(rays, candidates@, i as int));
                return Err(error);
            },
        };
        proof {
            lemma_shared_rays(candidate.pickable.group@, rays);
            assert(pick_state@.lists =~= partial_lists(
                rays,
                candidates@,
                i as int,
                pick_rays@.take(0),
            ));
        }
        let mut j: usize = 0;
        while j < pick_rays.len()
            invariant
                0 <= j <= pick_rays.len(),
                0 <= i < candidates.len(),
                candidate == candidates@[i as int],
                pick_state@.wf(),
                pick_state@.rays == rays,
                pick_rays@.len() > 0 ==> candidate.pickable_now(),
                forall|k: int|
                    0 <= k < pick_rays@.len() ==> candidate.shares(rays, (#[trigger] pick_rays@[k]).0),
                forall|k: int, l: int|
                    0 <= k < l < pick_rays@.len() ==> pick_rays@[k].0 != pick_rays@[l].0,
                pick_state@.lists == partial_lists(
                    rays,
                    candidates@,
                    i as int,
                    pick_rays@.take(j as int),
                ),
            decreases pick_rays.len() - j,
        {
            let channel = pick_rays[j].0;
            let ghost done = pick_rays@.take(j as int);
            let ghost lists = pick_state@.lists;
            let ghost met = encountered(rays, candidates@.take(i as int), channel);
            proof {
                lemma_encountered_step(rays, candidates@, i as int, channel);
                assert(!lists_channel(done, channel)) by {
                    if lists_channel(done, channel) {
                        let k = choose|k: int| 0 <= k < done.len() && (#[trigger] done[k]).0 == channel;
                        assert(pick_rays@[k].0 == pick_rays@[j as int].0);
                    }
                }
                assert(lists.contains_key(channel) <==> met.len() > 0);
                assert(lists.contains_key(channel) ==> lists[channel] == sort_by_distance(met));
            }
            let best = match candidate.probe(channel) {
                Some(hits) => closest_hit(hits),
                None => None,
            };
            assert(best == closest(candidate.hits_for(channel)));
            if let Some(hit) = best {
                let pick = PickIntersection::new(candidate.entity, hit.intersection, hit.distance);
                assert(candidate.record(rays, channel) == Some(pick));
                pick_state.record(channel, pick);
                proof {
                    let grown = met.push(pick);
                    assert(grown.drop_last() =~= met);
                    assert(sort_by_distance(grown) == insert_by_distance(
                        sort_by_distance(met),
                        pick,
                    ));
                }
            } else {
                assert(candidate.record(rays, channel) is None);
            }
            proof {
                let next = pick_rays@.take(j + 1);
                assert forall|c: usize|
                    partly_encountered(rays, candidates@, i as int, next, c) == if c == channel {
                        encountered(rays, candidates@.take(i + 1), c)
                    } else {
                        partly_encountered(rays, candidates@, i as int, done, c)
                    } by {
                    lemma_lists_channel_take(pick_rays@, j as int, c);
                }
                assert(pick_state@.lists =~= partial_lists(rays, candidates@, i as int, next));
            }
            j += 1;
        }
        proof {
            assert(pick_rays@.take(j as int) =~= pick_rays@);
            assert forall|c: usize|
                partly_encountered(rays, candidates@, i as int, pick_rays@, c) == encountered(
                    rays,
                    candidates@.take(i + 1),
                    c,
                ) by {
                lemma_encountered_step(rays, candidates@, i as int, c);
            }
            assert(pick_state@.lists =~= scan_lists(rays, candidates@.take(i + 1)));
        }
        i += 1;
    }
    assert(candidates@.take(i as int) =~= candidates@);
    Ok(())
}

/// The records of `channel` in the middle of a scan: the scan has gone
/// through `candidates[..i]` and, for the channels of `done`, through
/// `candidates[i]` as well.
spec fn partly_encountered(
    rays: Map<usize, Ray3D>,
    candidates: Seq<MeshCandidate>,
    i: int,
    done: Seq<(usize, Ray3D)>,
    channel: usize,
) -> Seq<PickIntersection> {
    if lists_channel(done, channel) {
        encountered(rays, candidates.take(i + 1), channel)
    } else {
        encountered(rays, candidates.take(i), channel)
    }
}

spec fn partial_lists(
    rays: Map<usize, Ray3D>,
    candidates: Seq<MeshCandidate>,
    i: int,
    done: Seq<(usize, Ray3D)>,
) -> Map<usize, Seq<PickIntersection>> {
    Map::new(
        |channel: usize| partly_encountered(rays, candidates, i, done, channel).len() > 0,
        |channel: usize| sort_by_distance(partly_encountered(rays, candidates, i, done, channel)),
    )
}

proof fn lemma_encountered_step(
    rays: Map<usize, Ray3D>,
    candidates: Seq<MeshCandidate>,
    i: int,
    channel: usize,
)
    requires
        0 <= i < candidates.len(),
    ensures
        encountered(rays, candidates.take(i + 1), channel) == match candidates[i].record(
            rays,
            channel,
        ) {
            Some(pick) => encountered(rays, candidates.take(i), channel).push(pick),
            None => encountered(rays, candidates.take(i), channel),
        },
{
    assert(candidates.take(i + 1).drop_last() =~= candidates.take(i));
}

proof fn lemma_lists_channel_take(shared: Seq<(usize, Ray3D)>, j: int, channel: usize)
    requires
        0 <= j < shared.len(),
    ensures
        lists_channel(shared.take(j + 1), channel) <==> lists_channel(shared.take(j), channel)
            || shared[j].0 == channel,
{
    let next = shared.take(j + 1);
    let done = shared.take(j);
    if lists_channel(next, channel) {
        let k = choose|k: int| 0 <= k < next.len() && (#[trigger] next[k]).0 == channel;
        if k < j {
            assert(done[k].0 == channel);
        }
    }
    if lists_channel(done, channel) {
        let k = choose|k: int| 0 <= k < done.len() && (#[trigger] done[k]).0 == channel;
        assert(next[k].0 == channel);
    }
    if shared[j].0 == channel {
        assert(next[j].0 == channel);
    }
}

} // verus!
