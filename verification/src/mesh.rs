//! What a scan reads of a mesh: its topology, its index buffer, and the
//! picking groups that its entity declares.

use crate::group::PickingGroup;
use crate::math::Vec3;
use vstd::prelude::*;

verus! {

/// How the vertices of a mesh are assembled into primitives.
#[derive(Debug, Clone, Copy, PartialEq, Eq, Hash, Structural)]
pub enum PrimitiveTopology {
    PointList,
    LineList,
    LineStrip,
    TriangleList,
    TriangleStrip,
}

/// The triangles that an index buffer describes: its consecutive triples,
/// without the one or two indices that are left over at the end.
pub open spec fn index_triples(indices: Seq<u32>) -> Seq<(u32, u32, u32)> {
    Seq::new(
        (indices.len() / 3) as nat,
        |t: int| (indices[3 * t], indices[3 * t + 1], indices[3 * t + 2]),
    )
}

/// The part of a mesh asset that picking depends on.
#[derive(Debug, Clone)]
pub struct Mesh {
    pub primitive_topology: PrimitiveTopology,
    pub indices: Option<Vec<u32>>,
}

impl Mesh {
    pub fn new(primitive_topology: PrimitiveTopology, indices: Option<Vec<u32>>) -> (mesh: Mesh)
        ensures
            mesh.primitive_topology == primitive_topology,
            mesh.indices == indices,
    {
        Mesh { primitive_topology, indices }
    }

    /// The vertex indices of each triangle of the mesh, in the order of the
    /// index buffer; `None` for a mesh without an index buffer.
    pub fn triangles(&self) -> (triangles: Option<Vec<(u32, u32, u32)>>)
        ensures
            match self.indices {
                Some(indices) => triangles is Some && triangles.unwrap()@ == index_triples(
                    indices@,
                ),
                None => triangles is None,
            },
    {
        match &self.indices {
            None => None,
            Some(indices) => {
                let count: usize = indices.len() / 3;
                let mut triangles: Vec<(u32, u32, u32)> = Vec::new();
                let mut t: usize = 0;
                while t < count
                    invariant
                        count == indices.len() / 3,
                        0 <= t <= count,
                        triangles@ == index_triples(indices@).take(t as int),
                    decreases count - t,
                {
                    let base: usize = t * 3;
                    triangles.push((indices[base], indices[base + 1], indices[base + 2]));
                    t += 1;
                    assert(triangles@ =~= index_triples(indices@).take(t as int));
                }
                assert(triangles@ =~= index_triples(indices@));
                Some(triangles)
            },
        }
    }
}

/// A sphere that encloses a mesh: its centre and the bit pattern of its
/// radius.
#[derive(Debug, Clone, Copy, PartialEq, Eq, Structural)]
pub struct BoundingSphere {
    pub origin: Vec3,
    pub radius: u32,
}

/// Marks an entity as pickable.
#[derive(Debug, Clone)]
pub struct PickableMesh {
    /// The groups whose rays are tested against the mesh.
    pub group: Vec<PickingGroup>,
    /// Kept for the embedding application; no scan reads it.
    pub bounding_sphere: Option<BoundingSphere>,
}

impl PickableMesh {
    pub fn new(picking_group: Vec<PickingGroup>) -> (pickable: PickableMesh)
        ensures
            pickable.group == picking_group,
            pickable.bounding_sphere is None,
    {
        PickableMesh { group: picking_group, bounding_sphere: None }
    }

    /// Whether the mesh declares channel `channel` among its groups.
    pub open spec fn in_channel(&self, channel: usize) -> bool {
        self.group@.contains(PickingGroup::Group(channel))
    }
}

impl Default for PickableMesh {
    fn default() -> (pickable: PickableMesh)
        ensures
            pickable.group@ == seq![PickingGroup::Group(0)],
            pickable.bounding_sphere is None,
    {
        let mut group: Vec<PickingGroup> = Vec::new();
        group.push(PickingGroup::default());
        PickableMesh { group, bounding_sphere: None }
    }
}

} // verus!
