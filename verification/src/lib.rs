//! The core of mesh picking: which pickable meshes does the ray of each
//! picking group touch, and in what order from near to far?
//!
//! The library holds the decisions of a picking tick. The embedding
//! application measures (it builds rays from cameras and cursors, and tests
//! rays against triangles) and hands the measurements in as plain values.

pub mod error;
pub mod group;
pub mod highlight;
pub mod ids;
pub mod input;
pub mod intersection;
pub mod laws;
pub mod math;
pub mod mesh;
pub mod resolver;
pub mod scanner;
pub mod selectable;
pub mod selection;
pub mod source;
pub mod state;

pub use error::PickError;
pub use group::PickingGroup;
pub use highlight::{Color, HighlightablePickMesh, PickHighlightParams};
pub use ids::{Entity, WindowId};
pub use input::{
    InputMove, InputPress, Location, PointerButton, PointerId, PointerPosition, PointerPress,
    PressStage,
};
pub use intersection::{closest_hit, PickIntersection, TriangleHit, MAX_DISTANCE};
pub use math::{Ray3D, Vec2, Vec3};
pub use mesh::{BoundingSphere, Mesh, PickableMesh, PrimitiveTopology};
pub use resolver::{build_rays, SourceRay};
pub use scanner::{pick_mesh, rays_for, MeshCandidate, Probe};
pub use selectable::{select_mesh, SelectablePickMesh};
pub use selection::{
    send_selection_events, NoDeselect, PickSelection, PointerEvent, PointerMultiselect,
    PointerSelectionEvent,
};
pub use source::{CursorMoved, PickingMethod, PickingSource, RayRequest, RayTarget};
pub use state::{PickState, PickStateView};
