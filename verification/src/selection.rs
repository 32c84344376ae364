//! Selection by pointer: which entities a pointer event selects or deselects.

use crate::ids::Entity;
use crate::input::PointerId;
use vstd::prelude::*;

verus! {

/// Tracks the current selection state of the entity.
#[derive(Debug, Clone, Copy, PartialEq, Eq, Structural)]
pub struct PickSelection {
    pub is_selected: bool,
}

impl Default for PickSelection {
    fn default() -> (selection: PickSelection)
        ensures
            !selection.is_selected,
    {
        PickSelection { is_selected: false }
    }
}

/// Marks pickable entities for which no deselection is wanted when they are
/// picked, such as gizmos and other pickable parts of a user interface.
#[derive(Debug, Clone, Copy, PartialEq, Eq, Structural)]
pub struct NoDeselect;

/// Whether the multiselect control of a pointer is held.
#[derive(Debug, Clone, Copy, PartialEq, Eq, Structural)]
pub struct PointerMultiselect {
    pub is_pressed: bool,
}

/// A pointer went down on an entity, or clicked it.
#[derive(Debug, Clone, Copy, PartialEq, Eq, Structural)]
pub struct PointerEvent {
    pub id: PointerId,
    pub target: Entity,
}

impl PointerEvent {
    pub fn new(id: PointerId, target: Entity) -> (event: PointerEvent)
        ensures
            event == (PointerEvent { id, target }),
    {
        PointerEvent { id, target }
    }

    pub fn id(&self) -> (id: PointerId)
        ensures
            id == self.id,
    {
        self.id
    }

    pub fn target(&self) -> (target: Entity)
        ensures
            target == self.target,
    {
        self.target
    }
}

#[derive(Debug, Clone, Copy, PartialEq, Eq, Structural)]
pub enum PointerSelectionEvent {
    JustSelected(Entity),
    JustDeselected(Entity),
}

impl PointerSelectionEvent {
    /// The entity that the event selects or deselects.
    pub open spec fn entity(self) -> Entity {
        match self {
            PointerSelectionEvent::JustSelected(entity) => entity,
            PointerSelectionEvent::JustDeselected(entity) => entity,
        }
    }

    /// Brings the selection state of every entity up to date with `events`.
    pub fn receive(events: &Vec<PointerSelectionEvent>, selectables: &mut Vec<(Entity, PickSelection)>)
        ensures
            final(selectables)@.len() == old(selectables)@.len(),
            forall|i: int|
                0 <= i < old(selectables)@.len() ==> (#[trigger] final(selectables)@[i]) == (
                    old(selectables)@[i].0,
                    selection_after(events@, old(selectables)@[i].0, old(selectables)@[i].1),
                ),
    {
        let mut n: usize = 0;
        while n < events.len()
            invariant
                0 <= n <= events.len(),
                selectables@.len() == old(selectables)@.len(),
                forall|i: int|
                    0 <= i < selectables@.len() ==> (#[trigger] selectables@[i]) == (
                        old(selectables)@[i].0,
                        selection_after(
                            events@.take(n as int),
                            old(selectables)@[i].0,
                            old(selectables)@[i].1,
                        ),
                    ),
            decreases events.len() - n,
        {
            let event = events[n];
            assert(events@.take(n + 1).drop_last() =~= events@.take(n as int));
            let (entity, is_selected) = match event {
                PointerSelectionEvent::JustSelected(entity) => (entity, true),
                PointerSelectionEvent::JustDeselected(entity) => (entity, false),
            };
            let mut i: usize = 0;
            while i < selectables.len()
                invariant
                    0 <= i <= selectables.len(),
                    0 <= n < events.len(),
                    event == events@[n as int],
                    entity == event.entity(),
                    is_selected == (event is JustSelected),
                    events@.take(n + 1).drop_last() == events@.take(n as int),
                    selectables@.len() == old(selectables)@.len(),
                    forall|k: int|
                        0 <= k < selectables@.len() ==> (#[trigger] selectables@[k]) == (
                            old(selectables)@[k].0,
                            selection_after(
                                if k < i {
                                    events@.take(n + 1)
                                } else {
                                    events@.take(n as int)
                                },
                                old(selectables)@[k].0,
                                old(selectables)@[k].1,
                            ),
                        ),
                decreases selectables.len() - i,
            {
                if selectables[i].0 == entity {
                    selectables.set(i, (entity, PickSelection { is_selected }));
                }
                i += 1;
            }
            n += 1;
        }
        assert(events@.take(n as int) =~= events@);
    }
}

/// The selection state of `entity` after `events`: the last event that names
/// it decides, and it stays as it was if none does.
pub open spec fn selection_after(
    events: Seq<PointerSelectionEvent>,
    entity: Entity,
    before: PickSelection,
) -> PickSelection
    decreases events.len(),
{
    if events.len() == 0 {
        before
    } else if events.last().entity() == entity {
        PickSelection { is_selected: events.last() is JustSelected }
    } else {
        selection_after(events.drop_last(), entity, before)
    }
}

/// `pointers[i]` is the first pointer with the identifier `id`.
pub open spec fn first_pointer(
    pointers: Seq<(PointerId, PointerMultiselect)>,
    id: PointerId,
    i: int,
) -> bool {
    &&& 0 <= i < pointers.len()
    &&& pointers[i].0 == id
    &&& forall|j: int| 0 <= j < i ==> (#[trigger] pointers[j]).0 != id
}

/// Whether the pointer `id` has its multiselect control held; a pointer that
/// is not among `pointers` has not.
pub open spec fn multiselects(pointers: Seq<(PointerId, PointerMultiselect)>, id: PointerId) -> bool {
    exists|i: int| first_pointer(pointers, id, i) && pointers[i].1.is_pressed
}

/// `selectables[i]` is the first entry of `entity`.
pub open spec fn first_selectable(
    selectables: Seq<(Entity, PickSelection)>,
    entity: Entity,
    i: int,
) -> bool {
    &&& 0 <= i < selectables.len()
    &&& selectables[i].0 == entity
    &&& forall|j: int| 0 <= j < i ==> (#[trigger] selectables[j]).0 != entity
}

/// Whether `entity` is selected, if it is selectable at all.
pub open spec fn selection_of(selectables: Seq<(Entity, PickSelection)>, entity: Entity) -> Option<
    bool,
> {
    if exists|i: int| first_selectable(selectables, entity, i) {
        Some(selectables[choose|i: int| first_selectable(selectables, entity, i)].1.is_selected)
    } else {
        None
    }
}

/// One deselection for each entity that is selected, in the order of
/// `selectables`.
pub open spec fn deselect_all(selectables: Seq<(Entity, PickSelection)>) -> Seq<
    PointerSelectionEvent,
>
    decreases selectables.len(),
{
    if selectables.len() == 0 {
        Seq::empty()
    } else {
        let before = deselect_all(selectables.drop_last());
        if selectables.last().1.is_selected {
            before.push(PointerSelectionEvent::JustDeselected(selectables.last().0))
        } else {
            before
        }
    }
}

/// What a pointer that goes down brings about: everything is deselected,
/// unless the pointer multiselects or its target is marked [`NoDeselect`].
pub open spec fn down_events(
    down: PointerEvent,
    pointers: Seq<(PointerId, PointerMultiselect)>,
    no_deselect: Seq<Entity>,
    selectables: Seq<(Entity, PickSelection)>,
) -> Seq<PointerSelectionEvent> {
    if !multiselects(pointers, down.id) && !no_deselect.contains(down.target) {
        deselect_all(selectables)
    } else {
        Seq::empty()
    }
}

/// What a click brings about: on a target that is selectable, a
/// multiselecting pointer toggles the selection, and any other pointer
/// selects the target if it is not selected yet.
pub open spec fn click_event(
    click: PointerEvent,
    pointers: Seq<(PointerId, PointerMultiselect)>,
    selectables: Seq<(Entity, PickSelection)>,
) -> Option<PointerSelectionEvent> {
    match selection_of(selectables, click.target) {
        Some(is_selected) => if multiselects(pointers, click.id) {
            if is_selected {
                Some(PointerSelectionEvent::JustDeselected(click.target))
            } else {
                Some(PointerSelectionEvent::JustSelected(click.target))
            }
        } else if !is_selected {
            Some(PointerSelectionEvent::JustSelected(click.target))
        } else {
            None
        },
        None => None,
    }
}

/// The events of all of `downs`, in their order.
pub open spec fn all_down_events(
    downs: Seq<PointerEvent>,
    pointers: Seq<(PointerId, PointerMultiselect)>,
    no_deselect: Seq<Entity>,
    selectables: Seq<(Entity, PickSelection)>,
) -> Seq<PointerSelectionEvent>
    decreases downs.len(),
{
    if downs.len() == 0 {
        Seq::empty()
    } else {
        all_down_events(downs.drop_last(), pointers, no_deselect, selectables) + down_events(
            downs.last(),
            pointers,
            no_deselect,
            selectables,
        )
    }
}

/// The events of all of `clicks`, in their order.
pub open spec fn all_click_events(
    clicks: Seq<PointerEvent>,
    pointers: Seq<(PointerId, PointerMultiselect)>,
    selectables: Seq<(Entity, PickSelection)>,
) -> Seq<PointerSelectionEvent>
    decreases clicks.len(),
{
    if clicks.len() == 0 {
        Seq::empty()
    } else {
        let before = all_click_events(clicks.drop_last(), pointers, selectables);
        match click_event(clicks.last(), pointers, selectables) {
            Some(event) => before.push(event),
            None => before,
        }
    }
}

fn is_multiselect(pointers: &Vec<(PointerId, PointerMultiselect)>, id: PointerId) -> (pressed: bool)
    ensures
        pressed == multiselects(pointers@, id),
{
    let mut i: usize = 0;
    while i < pointers.len()
        invariant
            0 <= i <= pointers.len(),
            forall|j: int| 0 <= j < i ==> (#[trigger] pointers@[j]).0 != id,
        decreases pointers.len() - i,
    {
        if pointers[i].0 == id {
            proof {
                assert(first_pointer(pointers@, id, i as int));
                if multiselects(pointers@, id) {
                    let k = choose|k: int|
                        first_pointer(pointers@, id, k) && pointers@[k].1.is_pressed;
                    if k < i {
                        assert(pointers@[k].0 != id);
                    } else if i < k {
                        assert(pointers@[i as int].0 != id);
                    }
                }
            }
            return pointers[i].1.is_pressed;
        }
        i += 1;
    }
    false
}

fn lookup(selectables: &Vec<(Entity, PickSelection)>, entity: Entity) -> (found: Option<bool>)
    ensures
        found == selection_of(selectables@, entity),
{
    let mut i: usize = 0;
    while i < selectables.len()
        invariant
            0 <= i <= selectables.len(),
            forall|j: int| 0 <= j < i ==> (#[trigger] selectables@[j]).0 != entity,
        decreases selectables.len() - i,
    {
        if selectables[i].0 == entity {
            proof {
                assert(first_selectable(selectables@, entity, i as int));
                let k = choose|k: int| first_selectable(selectables@, entity, k);
                if k < i {
                    assert(selectables@[k].0 != entity);
                } else if i < k {
                    assert(selectables@[i as int].0 != entity);
                }
            }
            return Some(selectables[i].1.is_selected);
        }
        i += 1;
    }
    None
}

fn is_marked(no_deselect: &Vec<Entity>, entity: Entity) -> (marked: bool)
    ensures
        marked == no_deselect@.contains(entity),
{
    let mut i: usize = 0;
    while i < no_deselect.len()
        invariant
            0 <= i <= no_deselect.len(),
            forall|j: int| 0 <= j < i ==> no_deselect@[j] != entity,
        decreases no_deselect.len() - i,
    {
        if no_deselect[i] == entity {
            return true;
        }
        i += 1;
    }
    false
}

/// The selection events that the pointer events of a tick bring about: those
/// of the pointers that went down, then those of the clicks. The selection
/// states themselves change only when the events are received.
pub fn send_selection_events(
    pointer_down: &Vec<PointerEvent>,
    pointer_click: &Vec<PointerEvent>,
    pointers: &Vec<(PointerId, PointerMultiselect)>,
    no_deselect: &Vec<Entity>,
    selectables: &Vec<(Entity, PickSelection)>,
) -> (selection_events: Vec<PointerSelectionEvent>)
    ensures
        selection_events@ == all_down_events(
            pointer_down@,
            pointers@,
            no_deselect@,
            selectables@,
        ) + all_click_events(pointer_click@, pointers@, selectables@),
{
    let mut selection_events: Vec<PointerSelectionEvent> = Vec::new();
    let mut d: usize = 0;
    while d < pointer_down.len()
        invariant
            0 <= d <= pointer_down.len(),
            selection_events@ == all_down_events(
                pointer_down@.take(d as int),
                pointers@,
                no_deselect@,
                selectables@,
            ),
        decreases pointer_down.len() - d,
    {
        let down_event = pointer_down[d];
        let ghost sent = selection_events@;
        assert(pointer_down@.take(d + 1).drop_last() =~= pointer_down@.take(d as int));
        let multiselect = is_multiselect(pointers, down_event.id());
        let target_should_deselect = !is_marked(no_deselect, down_event.target());
        // Deselect everything
        if !multiselect && target_should_deselect {
            let mut i: usize = 0;
            while i < selectables.len()
                invariant
                    0 <= i <= selectables.len(),
                    selection_events@ == sent + deselect_all(selectables@.take(i as int)),
                decreases selectables.len() - i,
            {
                let (entity, selection) = selectables[i];
                assert(selectables@.take(i + 1).drop_last() =~= selectables@.take(i as int));
                if selection.is_selected {
                    selection_events.push(PointerSelectionEvent::JustDeselected(entity));
                    assert(selection_events@ =~= sent + deselect_all(selectables@.take(i + 1)));
                }
                i += 1;
            }
            assert(selectables@.take(i as int) =~= selectables@);
        } else {
            assert(selection_events@ =~= sent + Seq::<PointerSelectionEvent>::empty());
        }
        d += 1;
    }
    assert(pointer_down@.take(d as int) =~= pointer_down@);
    let ghost downs = selection_events@;
    let mut c: usize = 0;
    while c < pointer_click.len()
        invariant
            0 <= c <= pointer_click.len(),
            selection_events@ == downs + all_click_events(
                pointer_click@.take(c as int),
                pointers@,
                selectables@,
            ),
        decreases pointer_click.len() - c,
    {
        let click_event = pointer_click[c];
        assert(pointer_click@.take(c + 1).drop_last() =~= pointer_click@.take(c as int));
        let multiselect = is_multiselect(pointers, click_event.id());
        let entity = click_event.target();
        if let Some(is_selected) = lookup(selectables, entity) {
            if multiselect {
                if is_selected {
                    selection_events.push(PointerSelectionEvent::JustDeselected(entity));
                } else {
                    selection_events.push(PointerSelectionEvent::JustSelected(entity));
                }
            } else if !is_selected {
                selection_events.push(PointerSelectionEvent::JustSelected(entity));
            }
        }
        assert(selection_events@ =~= downs + all_click_events(
            pointer_click@.take(c + 1),
            pointers@,
            selectables@,
        ));
        c += 1;
    }
    assert(pointer_click@.take(c as int) =~= pointer_click@);
    selection_events
}

} // verus!
