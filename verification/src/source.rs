//! Pick sources, and what each of them asks for in a tick.

use crate::error::PickError;
use crate::group::PickingGroup;
use crate::ids::WindowId;
use crate::math::Vec2;
use vstd::prelude::*;

verus! {

/// How a pick source chooses the point that its ray passes through.
#[derive(Debug, Clone, Copy, PartialEq, Eq, Structural)]
pub enum PickingMethod {
    /// Through the cursor, while it moves over the given window.
    Cursor(WindowId),
    /// Through a fixed point in normalized device coordinates.
    ScreenSpace(Vec2),
    /// Along the forward axis of the source.
    Center,
}

impl PickingMethod {
    /// Whether the method unprojects a screen point, and so needs the
    /// projection of a camera.
    pub open spec fn needs_camera(self) -> bool {
        self is Cursor || self is ScreenSpace
    }
}

/// The latest movement of the cursor: the window it moved over and its
/// position there in pixels.
#[derive(Debug, Clone, Copy, PartialEq, Eq, Structural)]
pub struct CursorMoved {
    pub id: WindowId,
    pub position: Vec2,
}

/// The point that a ray is to pass through.
#[derive(Debug, Clone, Copy, PartialEq, Eq, Structural)]
pub enum RayTarget {
    /// A position in pixels on the given window.
    Pixel { window: WindowId, position: Vec2 },
    /// A point in normalized device coordinates.
    ScreenSpace(Vec2),
    /// The point one unit ahead of the source on its forward axis.
    Center,
}

/// The ray that a pick source needs built: the channel it is for and the
/// point it passes through.
#[derive(Debug, Clone, Copy, PartialEq, Eq, Structural)]
pub struct RayRequest {
    pub group: usize,
    pub target: RayTarget,
}

/// Marks an entity to be used for picking, probably a camera.
#[derive(Debug, Clone, Copy, PartialEq, Eq, Structural)]
pub struct PickingSource {
    pub group: PickingGroup,
    pub pick_method: PickingMethod,
}

impl PickingSource {
    pub fn new(group: PickingGroup, pick_method: PickingMethod) -> (source: PickingSource)
        ensures
            source == (PickingSource { group, pick_method }),
    {
        PickingSource { group, pick_method }
    }

    pub fn with_group(self, group: PickingGroup) -> (source: PickingSource)
        ensures
            source == (PickingSource { group, pick_method: self.pick_method }),
    {
        PickingSource { group, pick_method: self.pick_method }
    }

    pub fn with_pick_method(self, pick_method: PickingMethod) -> (source: PickingSource)
        ensures
            source == (PickingSource { group: self.group, pick_method }),
    {
        PickingSource { group: self.group, pick_method }
    }

    /// What the source asks for in a tick in which its entity has a camera
    /// projection or not (`has_camera`) and `cursor` is the latest cursor
    /// movement since the source last looked, if there was one.
    ///
    /// A source without a channel asks for nothing. A method that needs a
    /// camera fails without one, whatever the cursor did. A source that
    /// follows the cursor asks for nothing while the cursor rests or moves
    /// over another window.
    pub open spec fn resolution(self, has_camera: bool, cursor: Option<CursorMoved>) -> Result<
        Option<RayRequest>,
        PickError,
    > {
        match self.group {
            PickingGroup::Disabled => Ok(None),
            PickingGroup::Group(group) => if self.pick_method.needs_camera() && !has_camera {
                Err(PickError::MissingCamera { group, method: self.pick_method })
            } else {
                match self.pick_method {
                    PickingMethod::Cursor(window) => match cursor {
                        Some(moved) => if moved.id == window {
                            Ok(
                                Some(
                                    RayRequest {
                                        group,
                                        target: RayTarget::Pixel {
                                            window,
                                            position: moved.position,
                                        },
                                    },
                                ),
                            )
                        } else {
                            Ok(None)
                        },
                        None => Ok(None),
                    },
                    PickingMethod::ScreenSpace(ndc) => Ok(
                        Some(RayRequest { group, target: RayTarget::ScreenSpace(ndc) }),
                    ),
                    PickingMethod::Center => Ok(Some(RayRequest { group, target: RayTarget::Center })),
                }
            },
        }
    }

    /// Decides what the source contributes to this tick: nothing, a request
    /// for a ray, or a fault.
    pub fn resolve(&self, has_camera: bool, cursor: Option<CursorMoved>) -> (resolved: Result<
        Option<RayRequest>,
        PickError,
    >)
        ensures
            resolved == self.resolution(has_camera, cursor),
    {
        let group = match self.group {
            PickingGroup::Group(num) => num,
            PickingGroup::Disabled => {
                return Ok(None);
            },
        };
        match self.pick_method {
            PickingMethod::Cursor(window) => {
                if !has_camera {
                    return Err(PickError::MissingCamera { group, method: self.pick_method });
                }
                let position = match cursor {
                    Some(moved) => {
                        if moved.id == window {
                            moved.position
                        } else {
                            return Ok(None);
                        }
                    },
                    None => {
                        return Ok(None);
                    },
                };
                Ok(Some(RayRequest { group, target: RayTarget::Pixel { window, position } }))
            },
            PickingMethod::ScreenSpace(ndc) => {
                if !has_camera {
                    return Err(PickError::MissingCamera { group, method: self.pick_method });
                }
                Ok(Some(RayRequest { group, target: RayTarget::ScreenSpace(ndc) }))
            },
            PickingMethod::Center => Ok(Some(RayRequest { group, target: RayTarget::Center })),
        }
    }
}

impl Default for PickingSource {
    fn default() -> (source: PickingSource)
        ensures
            source == (PickingSource {
                group: PickingGroup::Group(0),
                pick_method: PickingMethod::Cursor(WindowId { uuid: 0 }),
            }),
    {
        PickingSource {
            group: PickingGroup::Group(0),
            pick_method: PickingMethod::Cursor(WindowId::primary()),
        }
    }
}

} // verus!
