//! The pick source resolver: from what the pick sources contribute to a tick
//! to the ray of each channel.

use crate::error::PickError;
use crate::math::Ray3D;
use crate::state::PickState;
use vstd::prelude::*;

verus! {

/// What one pick source contributes to a tick.
#[derive(Debug, Clone, Copy, PartialEq, Eq, Structural)]
pub enum SourceRay {
    /// The source asked for no ray.
    Skipped,
    /// The ray that was built at the request of the source, for channel
    /// `group`.
    Cast { group: usize, ray: Ray3D },
    /// The source could not be resolved.
    Failed(PickError),
}

impl SourceRay {
    pub open spec fn casts_into(self, channel: usize) -> bool {
        self matches SourceRay::Cast { group, .. } && group == channel
    }
}

/// The tick fails at `sources[k]`: the source could not be resolved, or it
/// casts into a channel that an earlier source casts into.
pub open spec fn offends(sources: Seq<SourceRay>, k: int) -> bool {
    match sources[k] {
        SourceRay::Skipped => false,
        SourceRay::Cast { group, .. } => exists|j: int|
            0 <= j < k && (#[trigger] sources[j]).casts_into(group),
        SourceRay::Failed(_) => true,
    }
}

/// The fault with which the tick fails at `sources[k]`.
pub open spec fn offence(sources: Seq<SourceRay>, k: int) -> PickError
    recommends
        0 <= k < sources.len(),
        offends(sources, k),
{
    match sources[k] {
        SourceRay::Failed(error) => error,
        SourceRay::Cast { group, .. } => PickError::DuplicateSource { group },
        SourceRay::Skipped => arbitrary(),
    }
}

/// `sources[k]` casts into `channel`.
pub open spec fn casts_at(sources: Seq<SourceRay>, channel: usize, k: int) -> bool {
    0 <= k < sources.len() && sources[k].casts_into(channel)
}

/// The ray of each channel that a source casts into.
pub open spec fn cast_rays(sources: Seq<SourceRay>) -> Map<usize, Ray3D> {
    Map::new(
        |channel: usize| exists|k: int| casts_at(sources, channel, k),
        |channel: usize| sources[choose|k: int| casts_at(sources, channel, k)]->ray,
    )
}

/// Where no source offends, at most one source casts into a channel.
pub proof fn lemma_one_source_per_channel(sources: Seq<SourceRay>, channel: usize, i: int, j: int)
    requires
        forall|k: int| 0 <= k < sources.len() ==> !offends(sources, k),
        casts_at(sources, channel, i),
        casts_at(sources, channel, j),
    ensures
        i == j,
{
    if i < j {
        assert(offends(sources, j));
    } else if j < i {
        assert(offends(sources, i));
    }
}

/// Rebuilds the rays of all channels from what the pick sources contribute,
/// taken in their order.
///
/// Succeeds exactly when no source offends; each channel that a source casts
/// into then has that source's ray, and no other channel has one. Otherwise
/// the fault is that of the first source that offends, and no channel keeps a
/// ray. The intersection lists are left as they are.
pub fn build_rays(pick_state: &mut PickState, sources: &Vec<SourceRay>) -> (built: Result<
    (),
    PickError,
>)
    ensures
        final(pick_state)@.lists == old(pick_state)@.lists,
        match built {
            Ok(()) => {
                &&& forall|k: int| 0 <= k < sources@.len() ==> !offends(sources@, k)
                &&& final(pick_state)@.rays == cast_rays(sources@)
            },
            Err(error) => {
                &&& exists|k: int|
                    {
                        &&& 0 <= k < sources@.len()
                        &&& offends(sources@, k)
                        &&& forall|j: int| 0 <= j < k ==> !offends(sources@, j)
                        &&& error == offence(sources@, k)
                    }
                &&& final(pick_state)@.rays == Map::<usize, Ray3D>::empty()
            },
        },
{
    pick_state.clear_rays();
    assert(pick_state@.rays =~= cast_rays(sources@.take(0)));
    let mut k: usize = 0;
    while k < sources.len()
        invariant
            0 <= k <= sources.len(),
            pick_state@.lists == old(pick_state)@.lists,
            forall|j: int| 0 <= j < k ==> !offends(sources@, j),
            pick_state@.rays == cast_rays(sources@.take(k as int)),
        decreases sources.len() - k,
    {
        let ghost seen = sources@.take(k as int);
        let ghost next = sources@.take(k + 1);
        match sources[k] {
            SourceRay::Skipped => {
                assert(cast_rays(next) =~= cast_rays(seen)) by {
                    lemma_cast_rays_extend(sources@, k as int);
                }
            },
            SourceRay::Failed(error) => {
                pick_state.clear_rays();
                assert(offends(sources@, k as int));
                return Err(error);
            },
            SourceRay::Cast { group, ray } => {
                if pick_state.insert_ray(group, ray) {
                    let ghost j = choose|j: int| casts_at(seen, group, j);
                    assert(sources@[j] == seen[j]);
                    assert(offends(sources@, k as int));
                    pick_state.clear_rays();
                    return Err(PickError::DuplicateSource { group });
                }
                proof {
                    assert(!offends(sources@, k as int)) by {
                        if offends(sources@, k as int) {
                            let j = choose|j: int|
                                0 <= j < k && (#[trigger] sources@[j]).casts_into(group);
                            assert(casts_at(seen, group, j));
                        }
                    }
                    lemma_cast_rays_extend(sources@, k as int);
                }
            },
        }
        k += 1;
    }
    assert(sources@.take(k as int) =~= sources@);
    Ok(())
}

/// How the rays grow with one more source that does not offend.
proof fn lemma_cast_rays_extend(sources: Seq<SourceRay>, k: int)
    requires
        0 <= k < sources.len(),
        forall|j: int| 0 <= j <= k ==> !offends(sources, j),
    ensures
        cast_rays(sources.take(k + 1)) == match sources[k] {
            SourceRay::Cast { group, ray } => cast_rays(sources.take(k)).insert(group, ray),
            _ => cast_rays(sources.take(k)),
        },
{
    let seen = sources.take(k);
    let next = sources.take(k + 1);
    assert forall|j: int| 0 <= j < next.len() implies !offends(next, j) by {
        if offends(next, j) {
            assert(!offends(sources, j));
            if next[j] is Cast {
                let group = next[j]->group;
                let i = choose|i: int| 0 <= i < j && (#[trigger] next[i]).casts_into(group);
                assert(sources[i].casts_into(group));
            }
        }
    }
    let grown = match sources[k] {
        SourceRay::Cast { group, ray } => cast_rays(seen).insert(group, ray),
        _ => cast_rays(seen),
    };
    assert forall|channel: usize| #[trigger]
        cast_rays(next).contains_key(channel) implies grown.contains_key(channel) && grown[channel]
        == cast_rays(next)[channel] by {
        let i = choose|i: int| casts_at(next, channel, i);
        if i < k {
            assert(casts_at(seen, channel, i));
            let j = choose|j: int| casts_at(seen, channel, j);
            assert(casts_at(next, channel, j));
            lemma_one_source_per_channel(next, channel, i, j);
            if sources[k].casts_into(channel) {
                assert(casts_at(next, channel, k));
                lemma_one_source_per_channel(next, channel, i, k);
            }
        }
    }
    assert forall|channel: usize| #[trigger]
        grown.contains_key(channel) implies cast_rays(next).contains_key(channel) by {
        if cast_rays(seen).contains_key(channel) {
            let j = choose|j: int| casts_at(seen, channel, j);
            assert(casts_at(next, channel, j));
        } else {
            assert(casts_at(next, channel, k));
        }
    }
    assert(cast_rays(next) =~= grown);
}

} // verus!
