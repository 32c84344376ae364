//! Picking groups: the channels that rays and intersection lists are scoped to.

use vstd::prelude::*;

verus! {

/// Used to group pickable meshes with a pick source into sets.
///
/// `Disabled` opts out of picking altogether; `Group(n)` is channel `n`.
#[derive(Debug, Hash, Eq, PartialEq, Copy, Clone, Structural)]
pub enum PickingGroup {
    Disabled,
    Group(usize),
}

impl PickingGroup {
    /// The channel number, if the group names a channel.
    pub open spec fn channel(self) -> Option<usize> {
        match self {
            PickingGroup::Disabled => None,
            PickingGroup::Group(n) => Some(n),
        }
    }
}

impl Default for PickingGroup {
    fn default() -> (group: PickingGroup)
        ensures
            group == PickingGroup::Group(0),
    {
        PickingGroup::Group(0)
    }
}

} // verus!
