//! The state of picking: per channel, the ray of this tick and the list of
//! intersections that the last scan found.

use crate::group::PickingGroup;
use crate::ids::Entity;
use crate::intersection::{
    insert_by_distance, lemma_insert_at, lemma_insert_keeps_sorted, sorted_by_distance,
    PickIntersection,
};
use crate::math::Ray3D;
use std::collections::HashMap;
use vstd::prelude::*;

verus! {

broadcast use vstd::std_specs::hash::group_hash_axioms;

/// What a [`PickState`] holds, as maps from channel numbers.
pub struct PickStateView {
    /// The ray of each channel that a pick source cast into this tick.
    pub rays: Map<usize, Ray3D>,
    /// The records of each channel in which the last scan found any.
    pub lists: Map<usize, Seq<PickIntersection>>,
}

impl PickStateView {
    /// The nearest record of `channel`: the first of its list.
    pub open spec fn top(self, channel: usize) -> Option<PickIntersection> {
        if self.lists.contains_key(channel) && self.lists[channel].len() > 0 {
            Some(self.lists[channel][0])
        } else {
            None
        }
    }

    /// `entity` is hovered: it is the nearest of the default group, group 0.
    pub open spec fn hovers(self, entity: Entity) -> bool {
        self.top(0) matches Some(nearest) && nearest.entity == entity
    }

    /// Every list is non-empty and sorted ascending by distance.
    pub open spec fn wf(self) -> bool {
        forall|g: usize| #[trigger]
            self.lists.contains_key(g) ==> self.lists[g].len() > 0 && sorted_by_distance(
                self.lists[g],
            )
    }
}

/// The rays and intersection lists of all channels.
///
/// A state is well formed when its view is: every list that it holds is
/// non-empty and sorted ascending by distance. A new state is well formed,
/// and so is every state that a scan leaves.
pub struct PickState {
    ray_map: HashMap<usize, Ray3D>,
    ordered_pick_list_map: HashMap<usize, Vec<PickIntersection>>,
}

impl View for PickState {
    type V = PickStateView;

    closed spec fn view(&self) -> PickStateView {
        PickStateView {
            rays: self.ray_map@,
            lists: Map::new(
                |g: usize| self.ordered_pick_list_map@.contains_key(g),
                |g: usize| self.ordered_pick_list_map@[g]@,
            ),
        }
    }
}

impl PickState {
    /// A state without rays and without lists.
    pub fn new() -> (state: PickState)
        ensures
            state@.wf(),
            state@.rays == Map::<usize, Ray3D>::empty(),
            state@.lists == Map::<usize, Seq<PickIntersection>>::empty(),
    {
        let state = PickState { ray_map: HashMap::new(), ordered_pick_list_map: HashMap::new() };
        assert(state@.lists =~= Map::<usize, Seq<PickIntersection>>::empty());
        state
    }

    /// The records of `group` from near to far, if the last scan found any.
    pub fn list(&self, group: PickingGroup) -> (list: Option<&Vec<PickIntersection>>)
        ensures
            match group {
                PickingGroup::Group(g) => match list {
                    Some(records) => self@.lists.contains_key(g) && records@ == self@.lists[g],
                    None => !self@.lists.contains_key(g),
                },
                PickingGroup::Disabled => list is None,
            },
    {
        match group {
            PickingGroup::Group(g) => self.ordered_pick_list_map.get(&g),
            PickingGroup::Disabled => None,
        }
    }

    /// The nearest record of `group`, if the last scan found any.
    pub fn top(&self, group: PickingGroup) -> (top: Option<&PickIntersection>)
        ensures
            match group {
                PickingGroup::Group(g) => match top {
                    Some(nearest) => self@.top(g) == Some(*nearest),
                    None => self@.top(g) is None,
                },
                PickingGroup::Disabled => top is None,
            },
    {
        match self.list(group) {
            Some(list) => list.first(),
            None => None,
        }
    }

    /// The ray of `group` in this tick, if a pick source cast one.
    pub fn ray(&self, group: PickingGroup) -> (ray: Option<&Ray3D>)
        ensures
            match group {
                PickingGroup::Group(g) => match ray {
                    Some(cast) => self@.rays.contains_key(g) && *cast == self@.rays[g],
                    None => !self@.rays.contains_key(g),
                },
                PickingGroup::Disabled => ray is None,
            },
    {
        match group {
            PickingGroup::Group(g) => self.ray_map.get(&g),
            PickingGroup::Disabled => None,
        }
    }

    pub(crate) fn has_rays(&self) -> (any: bool)
        ensures
            any == !self@.rays.is_empty(),
    {
        !self.ray_map.is_empty()
    }

    pub(crate) fn channel_ray(&self, g: usize) -> (ray: Option<Ray3D>)
        ensures
            match ray {
                Some(cast) => self@.rays.contains_key(g) && cast == self@.rays[g],
                None => !self@.rays.contains_key(g),
            },
    {
        match self.ray_map.get(&g) {
            Some(ray) => Some(*ray),
            None => None,
        }
    }

    pub(crate) fn clear_rays(&mut self)
        ensures
            final(self)@.rays == Map::<usize, Ray3D>::empty(),
            final(self)@.lists == old(self)@.lists,
    {
        self.ray_map.clear();
    }

    /// Sets the ray of channel `g`; says whether the channel had one.
    pub(crate) fn insert_ray(&mut self, g: usize, ray: Ray3D) -> (had: bool)
        ensures
            had == old(self)@.rays.contains_key(g),
            final(self)@.rays == old(self)@.rays.insert(g, ray),
            final(self)@.lists == old(self)@.lists,
    {
        self.ray_map.insert(g, ray).is_some()
    }

    pub(crate) fn clear_lists(&mut self)
        ensures
            final(self)@.rays == old(self)@.rays,
            final(self)@.lists == Map::<usize, Seq<PickIntersection>>::empty(),
    {
        self.ordered_pick_list_map.clear();
        assert(self@.lists =~= Map::<usize, Seq<PickIntersection>>::empty());
    }

    /// Places `pick` in the list of channel `g`, which it starts if the
    /// channel has none.
    pub(crate) fn record(&mut self, g: usize, pick: PickIntersection)
        requires
            old(self)@.wf(),
        ensures
            final(self)@.wf(),
            final(self)@.rays == old(self)@.rays,
            final(self)@.lists == old(self)@.lists.insert(
                g,
                insert_by_distance(
                    if old(self)@.lists.contains_key(g) {
                        old(self)@.lists[g]
                    } else {
                        Seq::empty()
                    },
                    pick,
                ),
            ),
    {
        let mut list: Vec<PickIntersection> = match self.ordered_pick_list_map.remove(&g) {
            Some(list) => list,
            None => Vec::new(),
        };
        let ghost before = list@;
        proof {
            if old(self)@.lists.contains_key(g) {
                assert(before == old(self)@.lists[g]);
            }
            assert(sorted_by_distance(before));
        }
        let mut at: usize = list.len();
        while at > 0 && list[at - 1].distance > pick.distance
            invariant
                list@ == before,
                0 <= at <= list.len(),
                forall|k: int| at <= k < list.len() ==> pick.distance < (#[trigger] list@[k]).distance,
            decreases at,
        {
            at -= 1;
        }
        list.insert(at, pick);
        proof {
            lemma_insert_at(before, pick, at as int);
            lemma_insert_keeps_sorted(before, pick);
        }
        self.ordered_pick_list_map.insert(g, list);
        assert(self@.lists =~= old(self)@.lists.insert(g, insert_by_distance(before, pick)));
    }
}

impl Default for PickState {
    fn default() -> (state: PickState)
        ensures
            state@.wf(),
            state@.rays == Map::<usize, Ray3D>::empty(),
            state@.lists == Map::<usize, Seq<PickIntersection>>::empty(),
    {
        PickState::new()
    }
}

} // verus!
