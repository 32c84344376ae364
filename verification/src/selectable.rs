//! Selecting the hovered mesh with a click.

use crate::group::PickingGroup;
use crate::ids::Entity;
use crate::state::PickState;
use vstd::prelude::*;

verus! {

/// Meshes with `SelectablePickMesh` will have selection state managed.
#[derive(Debug, Clone, Copy, PartialEq, Eq, Structural)]
pub struct SelectablePickMesh {
    pub selected: bool,
}

impl SelectablePickMesh {
    pub fn new() -> (mesh: SelectablePickMesh)
        ensures
            !mesh.selected,
    {
        SelectablePickMesh { selected: false }
    }

    pub fn selected(&self) -> (selected: bool)
        ensures
            selected == self.selected,
    {
        self.selected
    }
}

impl Default for SelectablePickMesh {
    fn default() -> (mesh: SelectablePickMesh)
        ensures
            !mesh.selected,
    {
        SelectablePickMesh { selected: false }
    }
}

/// Given the currently hovered mesh, the nearest of the default group, and
/// whether the select button was just pressed, updates the selectable
/// meshes: a press selects the hovered mesh and deselects every other one;
/// without a press nothing changes.
pub fn select_mesh(
    pick_state: &PickState,
    just_pressed: bool,
    selectables: &mut Vec<(Entity, SelectablePickMesh)>,
)
    ensures
        final(selectables)@.len() == old(selectables)@.len(),
        forall|i: int|
            0 <= i < old(selectables)@.len() ==> (#[trigger] final(selectables)@[i]).0 == old(
                selectables,
            )@[i].0,
        forall|i: int|
            0 <= i < old(selectables)@.len() ==> (#[trigger] final(selectables)@[i]).1.selected
                == if just_pressed {
                pick_state@.hovers(old(selectables)@[i].0)
            } else {
                old(selectables)@[i].1.selected
            },
{
    if just_pressed {
        let top = pick_state.top(PickingGroup::Group(0));
        let mut i: usize = 0;
        while i < selectables.len()
            invariant
                0 <= i <= selectables.len(),
                selectables@.len() == old(selectables)@.len(),
                match top {
                    Some(nearest) => pick_state@.top(0) == Some(*nearest),
                    None => pick_state@.top(0) is None,
                },
                forall|k: int|
                    0 <= k < selectables@.len() ==> (#[trigger] selectables@[k]).0 == old(
                        selectables,
                    )@[k].0,
                forall|k: int|
                    0 <= k < i ==> (#[trigger] selectables@[k]).1.selected == pick_state@.hovers(
                        old(selectables)@[k].0,
                    ),
            decreases selectables.len() - i,
        {
            let entity = selectables[i].0;
            let selected = match top {
                Some(pick_depth) => pick_depth.entity == entity,
                None => false,
            };
            selectables.set(i, (entity, SelectablePickMesh { selected }));
            i += 1;
        }
    }
}

} // verus!
