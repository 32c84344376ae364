//! Which colour a highlightable mesh is shown in.

use crate::group::PickingGroup;
use crate::ids::Entity;
use crate::state::PickState;
use vstd::prelude::*;

verus! {

/// The bit pattern of the number one, the alpha of an opaque colour.
pub const OPAQUE: u32 = 0x3f80_0000;

/// An RGBA colour: the bit patterns of its four single-precision channels.
#[derive(Debug, Clone, Copy, PartialEq, Eq, Hash, Structural)]
pub struct Color {
    pub r: u32,
    pub g: u32,
    pub b: u32,
    pub a: u32,
}

impl Color {
    /// An opaque colour.
    pub fn rgb(r: u32, g: u32, b: u32) -> (color: Color)
        ensures
            color == (Color { r, g, b, a: OPAQUE }),
    {
        Color { r, g, b, a: OPAQUE }
    }

    pub fn rgba(r: u32, g: u32, b: u32, a: u32) -> (color: Color)
        ensures
            color == (Color { r, g, b, a }),
    {
        Color { r, g, b, a }
    }
}

/// The colours of highlighting.
#[derive(Debug, Clone, Copy, PartialEq, Eq, Structural)]
pub struct PickHighlightParams {
    pub hover_color: Color,
    pub selection_color: Color,
}

impl PickHighlightParams {
    pub fn hover_color_mut(&mut self) -> (color: &mut Color)
        ensures
            *color == old(self).hover_color,
            *final(self) == (PickHighlightParams {
                hover_color: *final(color),
                selection_color: old(self).selection_color,
            }),
    {
        &mut self.hover_color
    }

    pub fn selection_color_mut(&mut self) -> (color: &mut Color)
        ensures
            *color == old(self).selection_color,
            *final(self) == (PickHighlightParams {
                hover_color: old(self).hover_color,
                selection_color: *final(color),
            }),
    {
        &mut self.selection_color
    }

    pub fn set_hover_color(&mut self, color: Color)
        ensures
            *final(self) == (PickHighlightParams {
                hover_color: color,
                selection_color: old(self).selection_color,
            }),
    {
        self.hover_color = color;
    }

    pub fn set_selection_color(&mut self, color: Color)
        ensures
            *final(self) == (PickHighlightParams {
                hover_color: old(self).hover_color,
                selection_color: color,
            }),
    {
        self.selection_color = color;
    }
}

impl Default for PickHighlightParams {
    /// Hovered meshes in (0.3, 0.5, 0.8), selected ones in (0.3, 0.8, 0.5).
    fn default() -> (params: PickHighlightParams)
        ensures
            params.hover_color == (Color {
                r: 0x3e99_999a,
                g: 0x3f00_0000,
                b: 0x3f4c_cccd,
                a: OPAQUE,
            }),
            params.selection_color == (Color {
                r: 0x3e99_999a,
                g: 0x3f4c_cccd,
                b: 0x3f00_0000,
                a: OPAQUE,
            }),
    {
        PickHighlightParams {
            hover_color: Color::rgb(0x3e99_999a, 0x3f00_0000, 0x3f4c_cccd),
            selection_color: Color::rgb(0x3e99_999a, 0x3f4c_cccd, 0x3f00_0000),
        }
    }
}

/// Meshes with `HighlightablePickMesh` will be highlighted when hovered over.
/// If the mesh is also selectable, it will highlight when selected.
#[derive(Debug, Clone, Copy, PartialEq, Eq, Structural)]
pub struct HighlightablePickMesh {
    /// The colour of the mesh material prior to selecting or hovering.
    pub initial_color: Option<Color>,
}

impl HighlightablePickMesh {
    pub fn new() -> (mesh: HighlightablePickMesh)
        ensures
            mesh.initial_color is None,
    {
        HighlightablePickMesh { initial_color: None }
    }

    /// The colour that the mesh had before it was first highlighted, which
    /// is `current` if none is remembered yet. It is remembered from now on.
    pub fn remember(&mut self, current: Color) -> (initial: Color)
        ensures
            initial == match old(self).initial_color {
                Some(color) => color,
                None => current,
            },
            final(self).initial_color == Some(initial),
    {
        match self.initial_color {
            None => {
                self.initial_color = Some(current);
                current
            },
            Some(color) => color,
        }
    }

    /// The colour in which a mesh that is selectable is shown: the selection
    /// colour while it is selected, else the colour that it had at first.
    pub fn highlight_selected(
        &mut self,
        params: &PickHighlightParams,
        current: Color,
        selected: bool,
    ) -> (color: Color)
        ensures
            final(self).initial_color == Some(
                match old(self).initial_color {
                    Some(initial) => initial,
                    None => current,
                },
            ),
            color == if selected {
                params.selection_color
            } else {
                final(self).initial_color->0
            },
    {
        let initial_color = self.remember(current);
        if selected {
            params.selection_color
        } else {
            initial_color
        }
    }

    /// The colour in which a pickable mesh is shown: the hover colour while
    /// its entity is the nearest of the default group; else the selection
    /// colour while it is selected, and else the colour that it had at
    /// first. `selected` is `None` for a mesh that is not selectable.
    pub fn highlight_picked(
        &mut self,
        pick_state: &PickState,
        params: &PickHighlightParams,
        entity: Entity,
        current: Color,
        selected: Option<bool>,
    ) -> (color: Color)
        ensures
            final(self).initial_color == Some(
                match old(self).initial_color {
                    Some(initial) => initial,
                    None => current,
                },
            ),
            color == if pick_state@.hovers(entity) {
                params.hover_color
            } else if selected == Some(true) {
                params.selection_color
            } else {
                final(self).initial_color->0
            },
    {
        let initial_color = self.remember(current);
        let mut topmost = false;
        if let Some(pick_depth) = pick_state.top(PickingGroup::Group(0)) {
            topmost = pick_depth.entity == entity;
        }
        if topmost {
            params.hover_color
        } else {
            match selected {
                Some(true) => params.selection_color,
                _ => initial_color,
            }
        }
    }
}

impl Default for HighlightablePickMesh {
    fn default() -> (mesh: HighlightablePickMesh)
        ensures
            mesh.initial_color is None,
    {
        HighlightablePickMesh { initial_color: None }
    }
}

} // verus!
