//! Pointers: which of their buttons are down, and where they are.

use crate::ids::WindowId;
use crate::math::Vec2;
use vstd::prelude::*;

verus! {

/// Identifies a pointer.
#[derive(Debug, Clone, Copy, PartialEq, Eq, Hash, Structural)]
pub enum PointerId {
    /// The touch with the given identifier.
    Touch(u64),
    /// The mouse.
    Mouse,
    /// A pointer of the application's own, by its 128-bit identifier.
    Custom(u128),
}

impl Default for PointerId {
    fn default() -> (id: PointerId)
        ensures
            id == PointerId::Mouse,
    {
        PointerId::Mouse
    }
}

#[derive(Debug, Clone, Copy, PartialEq, Eq, Structural)]
pub enum PressStage {
    Down,
    Up,
}

#[derive(Debug, Clone, Copy, PartialEq, Eq, Structural)]
pub enum PointerButton {
    Primary,
    Secondary,
    Middle,
}

/// Tracks the state of the pointer's buttons in response to [`InputPress`]s.
#[derive(Debug, Clone, Copy, PartialEq, Eq, Structural)]
pub struct PointerPress {
    pub primary: bool,
    pub secondary: bool,
    pub middle: bool,
}

impl PointerPress {
    pub fn is_primary_down(&self) -> (down: bool)
        ensures
            down == self.primary,
    {
        self.primary
    }

    pub fn is_secondary_down(&self) -> (down: bool)
        ensures
            down == self.secondary,
    {
        self.secondary
    }

    pub fn is_middle_down(&self) -> (down: bool)
        ensures
            down == self.middle,
    {
        self.middle
    }

    /// The buttons after `button` went down or up.
    pub open spec fn after(self, press: PressStage, button: PointerButton) -> PointerPress {
        match button {
            PointerButton::Primary => PointerPress { primary: press == PressStage::Down, ..self },
            PointerButton::Secondary => PointerPress {
                secondary: press == PressStage::Down,
                ..self
            },
            PointerButton::Middle => PointerPress { middle: press == PressStage::Down, ..self },
        }
    }
}

impl Default for PointerPress {
    fn default() -> (press: PointerPress)
        ensures
            press == (PointerPress { primary: false, secondary: false, middle: false }),
    {
        PointerPress { primary: false, secondary: false, middle: false }
    }
}

/// A button of a pointer went down or up.
#[derive(Debug, Clone, Copy, PartialEq, Eq, Structural)]
pub struct InputPress {
    pub id: PointerId,
    pub press: PressStage,
    pub button: PointerButton,
}

/// The buttons of the pointer `id` after `events`, taken in their order: each
/// event that names the pointer sets the button that it names.
pub open spec fn presses_applied(events: Seq<InputPress>, id: PointerId, before: PointerPress) -> PointerPress
    decreases events.len(),
{
    if events.len() == 0 {
        before
    } else {
        let earlier = presses_applied(events.drop_last(), id, before);
        if events.last().id == id {
            earlier.after(events.last().press, events.last().button)
        } else {
            earlier
        }
    }
}

impl InputPress {
    pub fn new_down(id: PointerId, button: PointerButton) -> (event: InputPress)
        ensures
            event == (InputPress { id, press: PressStage::Down, button }),
    {
        InputPress { id, press: PressStage::Down, button }
    }

    pub fn new_up(id: PointerId, button: PointerButton) -> (event: InputPress)
        ensures
            event == (InputPress { id, press: PressStage::Up, button }),
    {
        InputPress { id, press: PressStage::Up, button }
    }

    pub fn is_just_down(&self, id: &PointerId, button: PointerButton) -> (just_down: bool)
        ensures
            just_down == (*self == (InputPress { id: *id, press: PressStage::Down, button })),
    {
        *self == InputPress::new_down(*id, button)
    }

    pub fn is_just_up(&self, id: &PointerId, button: PointerButton) -> (just_up: bool)
        ensures
            just_up == (*self == (InputPress { id: *id, press: PressStage::Up, button })),
    {
        *self == InputPress::new_up(*id, button)
    }

    /// Brings the buttons of every pointer up to date with `events`.
    pub fn receive(events: &Vec<InputPress>, pointers: &mut Vec<(PointerId, PointerPress)>)
        ensures
            final(pointers)@.len() == old(pointers)@.len(),
            forall|i: int|
                0 <= i < old(pointers)@.len() ==> (#[trigger] final(pointers)@[i]) == (
                    old(pointers)@[i].0,
                    presses_applied(events@, old(pointers)@[i].0, old(pointers)@[i].1),
                ),
    {
        let mut n: usize = 0;
        while n < events.len()
            invariant
                0 <= n <= events.len(),
                pointers@.len() == old(pointers)@.len(),
                forall|i: int|
                    0 <= i < pointers@.len() ==> (#[trigger] pointers@[i]) == (
                        old(pointers)@[i].0,
                        presses_applied(
                            events@.take(n as int),
                            old(pointers)@[i].0,
                            old(pointers)@[i].1,
                        ),
                    ),
            decreases events.len() - n,
        {
            let press_event = events[n];
            assert(events@.take(n + 1).drop_last() =~= events@.take(n as int));
            let mut i: usize = 0;
            while i < pointers.len()
                invariant
                    0 <= i <= pointers.len(),
                    0 <= n < events.len(),
                    press_event == events@[n as int],
                    events@.take(n + 1).drop_last() == events@.take(n as int),
                    pointers@.len() == old(pointers)@.len(),
                    forall|k: int|
                        0 <= k < pointers@.len() ==> (#[trigger] pointers@[k]) == (
                            old(pointers)@[k].0,
                            presses_applied(
                                if k < i {
                                    events@.take(n + 1)
                                } else {
                                    events@.take(n as int)
                                },
                                old(pointers)@[k].0,
                                old(pointers)@[k].1,
                            ),
                        ),
                decreases pointers.len() - i,
            {
                let (pointer_id, mut pointer) = pointers[i];
                if pointer_id == press_event.id {
                    let new_value = press_event.press == PressStage::Down;
                    match press_event.button {
                        PointerButton::Primary => pointer.primary = new_value,
                        PointerButton::Secondary => pointer.secondary = new_value,
                        PointerButton::Middle => pointer.middle = new_value,
                    }
                    pointers.set(i, (pointer_id, pointer));
                }
                i += 1;
            }
            n += 1;
        }
        assert(events@.take(n as int) =~= events@);
    }
}

/// Where a pointer is: the window that shows what it is over, and its
/// position there in pixels.
#[derive(Debug, Clone, Copy, PartialEq, Eq, Structural)]
pub struct Location {
    pub target: WindowId,
    pub position: Vec2,
}

impl Location {
    /// Whether the pointer is over what a camera that renders to `target`
    /// shows.
    pub fn is_same_target(&self, target: WindowId) -> (same: bool)
        ensures
            same == (self.target == target),
    {
        self.target == target
    }
}

/// Represents an input pointer used for picking.
#[derive(Debug, Clone, Copy, PartialEq, Eq, Structural)]
pub struct PointerPosition {
    pub location: Option<Location>,
}

impl PointerPosition {
    pub fn location(&self) -> (location: Option<&Location>)
        ensures
            match location {
                Some(at) => self.location == Some(*at),
                None => self.location is None,
            },
    {
        self.location.as_ref()
    }
}

impl Default for PointerPosition {
    fn default() -> (position: PointerPosition)
        ensures
            position.location is None,
    {
        PointerPosition { location: None }
    }
}

/// A pointer moved.
#[derive(Debug, Clone, Copy, PartialEq, Eq, Structural)]
pub struct InputMove {
    pub id: PointerId,
    pub location: Location,
}

/// Where the pointer `id` is after `events`: where the last event that names
/// it puts it, and where it was if none does.
pub open spec fn moves_applied(events: Seq<InputMove>, id: PointerId, before: PointerPosition) -> PointerPosition
    decreases events.len(),
{
    if events.len() == 0 {
        before
    } else if events.last().id == id {
        PointerPosition { location: Some(events.last().location) }
    } else {
        moves_applied(events.drop_last(), id, before)
    }
}

impl InputMove {
    pub fn new(id: PointerId, location: Location) -> (event: InputMove)
        ensures
            event == (InputMove { id, location }),
    {
        InputMove { id, location }
    }

    /// Brings the position of every pointer up to date with `events`.
    pub fn receive(events: &Vec<InputMove>, pointers: &mut Vec<(PointerId, PointerPosition)>)
        ensures
            final(pointers)@.len() == old(pointers)@.len(),
            forall|i: int|
                0 <= i < old(pointers)@.len() ==> (#[trigger] final(pointers)@[i]) == (
                    old(pointers)@[i].0,
                    moves_applied(events@, old(pointers)@[i].0, old(pointers)@[i].1),
                ),
    {
        let mut n: usize = 0;
        while n < events.len()
            invariant
                0 <= n <= events.len(),
                pointers@.len() == old(pointers)@.len(),
                forall|i: int|
                    0 <= i < pointers@.len() ==> (#[trigger] pointers@[i]) == (
                        old(pointers)@[i].0,
                        moves_applied(
                            events@.take(n as int),
                            old(pointers)@[i].0,
                            old(pointers)@[i].1,
                        ),
                    ),
            decreases events.len() - n,
        {
            let event_pointer = events[n];
            assert(events@.take(n + 1).drop_last() =~= events@.take(n as int));
            let mut i: usize = 0;
            while i < pointers.len()
                invariant
                    0 <= i <= pointers.len(),
                    0 <= n < events.len(),
                    event_pointer == events@[n as int],
                    events@.take(n + 1).drop_last() == events@.take(n as int),
                    pointers@.len() == old(pointers)@.len(),
                    forall|k: int|
                        0 <= k < pointers@.len() ==> (#[trigger] pointers@[k]) == (
                            old(pointers)@[k].0,
                            moves_applied(
                                if k < i {
                                    events@.take(n + 1)
                                } else {
                                    events@.take(n as int)
                                },
                                old(pointers)@[k].0,
                                old(pointers)@[k].1,
                            ),
                        ),
                decreases pointers.len() - i,
            {
                let id = pointers[i].0;
                if id == event_pointer.id {
                    pointers.set(i, (id, PointerPosition { location: Some(event_pointer.location) }));
                }
                i += 1;
            }
            n += 1;
        }
        assert(events@.take(n as int) =~= events@);
    }
}

} // verus!
