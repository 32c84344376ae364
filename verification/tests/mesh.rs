//! Index buffers and pickable meshes.

use picking_core::{Mesh, PickableMesh, PickingGroup, PrimitiveTopology};

#[test]
fn indices_are_read_in_consecutive_triples() {
    let mesh = Mesh::new(PrimitiveTopology::TriangleList, Some(vec![0, 1, 2, 2, 1, 3, 7, 8, 9]));
    assert_eq!(mesh.triangles(), Some(vec![(0, 1, 2), (2, 1, 3), (7, 8, 9)]));
}

#[test]
fn partial_last_triangle_is_dropped() {
    let topology = PrimitiveTopology::TriangleList;
    assert_eq!(Mesh::new(topology, Some(vec![0, 1, 2, 3])).triangles(), Some(vec![(0, 1, 2)]));
    assert_eq!(Mesh::new(topology, Some(vec![0, 1, 2, 3, 4])).triangles(), Some(vec![(0, 1, 2)]));
    assert_eq!(Mesh::new(topology, Some(vec![5, 6])).triangles(), Some(vec![]));
    assert_eq!(Mesh::new(topology, Some(vec![])).triangles(), Some(vec![]));
}

#[test]
fn mesh_without_index_buffer_has_no_triangles_to_read() {
    assert_eq!(Mesh::new(PrimitiveTopology::TriangleList, None).triangles(), None);
}

#[test]
fn default_pickable_mesh_is_in_group_zero() {
    let pickable = PickableMesh::default();
    assert_eq!(pickable.group, vec![PickingGroup::Group(0)]);
    assert!(pickable.bounding_sphere.is_none());
    let pickable = PickableMesh::new(vec![PickingGroup::Group(2), PickingGroup::Disabled]);
    assert_eq!(pickable.group, vec![PickingGroup::Group(2), PickingGroup::Disabled]);
    assert!(pickable.bounding_sphere.is_none());
}
