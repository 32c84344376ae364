//! The configuration and asset faults that end a picking tick.

use crate::ids::Entity;
use crate::source::PickingMethod;
use vstd::prelude::*;

verus! {

/// A fault that ends the tick in which it is found.
#[derive(Debug, Clone, Copy, PartialEq, Eq, Structural)]
pub enum PickError {
    /// The pick source of channel `group` picks by `method`, which needs a
    /// camera projection, and its entity has none.
    MissingCamera { group: usize, method: PickingMethod },
    /// More than one pick source casts a ray into channel `group`.
    DuplicateSource { group: usize },
    /// The mesh of `entity` is a triangle list without an index buffer.
    MissingIndices { entity: Entity },
}

} // verus!
