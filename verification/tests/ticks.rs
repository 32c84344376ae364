//! Whole ticks: rays are built from pick sources, tested against triangles
//! with single-precision arithmetic, and scanned into intersection lists.

use picking_core::{
    build_rays, pick_mesh, rays_for, CursorMoved, Entity, Mesh, MeshCandidate, PickError,
    PickState, PickableMesh, PickingGroup, PickingMethod, PickingSource, PrimitiveTopology, Ray3D,
    RayTarget, SourceRay, TriangleHit, Vec2, Vec3, WindowId,
};

type P = [f32; 3];

fn v3(p: P) -> Vec3 {
    Vec3::new(p[0].to_bits(), p[1].to_bits(), p[2].to_bits())
}

fn from_v3(v: &Vec3) -> P {
    [f32::from_bits(v.x), f32::from_bits(v.y), f32::from_bits(v.z)]
}

fn sub(a: P, b: P) -> P {
    [a[0] - b[0], a[1] - b[1], a[2] - b[2]]
}

fn cross(a: P, b: P) -> P {
    [a[1] * b[2] - a[2] * b[1], a[2] * b[0] - a[0] * b[2], a[0] * b[1] - a[1] * b[0]]
}

fn dot(a: P, b: P) -> f32 {
    a[0] * b[0] + a[1] * b[1] + a[2] * b[2]
}

fn length(a: P) -> f32 {
    dot(a, a).sqrt()
}

fn normalize(a: P) -> P {
    let l = length(a);
    [a[0] / l, a[1] / l, a[2] / l]
}

/// Moller-Trumbore; the hit point and the normal of the winding.
fn intersect(origin: P, direction: P, triangle: [P; 3]) -> Option<(P, P)> {
    let edge1 = sub(triangle[1], triangle[0]);
    let edge2 = sub(triangle[2], triangle[0]);
    let p = cross(direction, edge2);
    let det = dot(edge1, p);
    if det.abs() < f32::EPSILON {
        return None;
    }
    let inv = 1.0 / det;
    let t_vec = sub(origin, triangle[0]);
    let u = dot(t_vec, p) * inv;
    if u < 0.0 || u > 1.0 {
        return None;
    }
    let q = cross(t_vec, edge1);
    let v = dot(direction, q) * inv;
    if v < 0.0 || u + v > 1.0 {
        return None;
    }
    let t = dot(edge2, q) * inv;
    if t > f32::EPSILON {
        let point = [
            origin[0] + direction[0] * t,
            origin[1] + direction[1] * t,
            origin[2] + direction[2] * t,
        ];
        Some((point, normalize(cross(edge1, edge2))))
    } else {
        None
    }
}

struct Scene {
    entity: u64,
    visible: bool,
    groups: Vec<PickingGroup>,
    topology: PrimitiveTopology,
    positions: Vec<P>,
    indices: Option<Vec<u32>>,
}

impl Scene {
    /// One triangle at height `z`, facing up the z axis.
    fn triangle(entity: u64, z: f32) -> Scene {
        Scene {
            entity,
            visible: true,
            groups: vec![PickingGroup::Group(0)],
            topology: PrimitiveTopology::TriangleList,
            positions: vec![[0.0, 0.0, z], [1.0, 0.0, z], [0.0, 1.0, z]],
            indices: Some(vec![0, 1, 2]),
        }
    }
}

/// Probes every scene for the rays that the state asks to test against it.
fn candidates(state: &PickState, scenes: &[Scene]) -> Vec<MeshCandidate> {
    let mut out = Vec::new();
    for scene in scenes {
        let mesh = Mesh::new(scene.topology, scene.indices.clone());
        let triangles = mesh.triangles();
        let mut candidate = MeshCandidate::new(
            Entity::from_bits(scene.entity),
            scene.visible,
            PickableMesh::new(scene.groups.clone()),
            Some(mesh),
        );
        if let Ok(rays) = rays_for(state, &candidate) {
            for (group, ray) in rays {
                let mut hits = Vec::new();
                for (a, b, c) in triangles.clone().unwrap() {
                    let triangle = [
                        scene.positions[a as usize],
                        scene.positions[b as usize],
                        scene.positions[c as usize],
                    ];
                    let origin = from_v3(ray.origin());
                    if let Some((point, normal)) =
                        intersect(origin, from_v3(ray.direction()), triangle)
                    {
                        let distance = length(sub(point, origin)).abs();
                        hits.push(TriangleHit::new(
                            Ray3D::new(v3(point), v3(normal)),
                            distance.to_bits(),
                        ));
                    }
                }
                candidate = candidate.with_probe(group, hits);
            }
        }
        out.push(candidate);
    }
    out
}

fn ray_down_from(x: f32, y: f32, z: f32) -> Ray3D {
    Ray3D::new(v3([x, y, z]), v3([0.0, 0.0, -1.0]))
}

fn state_with_ray(group: usize, ray: Ray3D) -> PickState {
    let mut state = PickState::new();
    build_rays(&mut state, &vec![SourceRay::Cast { group, ray }]).unwrap();
    state
}

fn entities(state: &PickState, group: usize) -> Vec<u64> {
    match state.list(PickingGroup::Group(group)) {
        Some(list) => list.iter().map(|pick| pick.entity().to_bits()).collect(),
        None => Vec::new(),
    }
}

#[test]
fn ray_at_the_centre_of_a_triangle_hits_it_at_the_plane_distance() {
    let third = 1.0 / 3.0;
    let mut state = state_with_ray(0, ray_down_from(third, third, 2.0));
    let scenes = [Scene::triangle(7, 0.0)];
    let probed = candidates(&state, &scenes);
    assert_eq!(pick_mesh(&mut state, &probed), Ok(()));

    let top = state.top(PickingGroup::Group(0)).expect("the triangle is hit");
    assert_eq!(top.entity(), Entity::from_bits(7));
    assert!((f32::from_bits(top.distance()) - 2.0).abs() < 1e-6);
    let position = from_v3(top.position());
    assert!((position[0] - third).abs() < 1e-6);
    assert!((position[1] - third).abs() < 1e-6);
    assert!(position[2].abs() < 1e-6);
    assert_eq!(from_v3(top.normal()), [0.0, 0.0, 1.0]);
    assert_eq!(state.list(PickingGroup::Group(0)).unwrap().len(), 1);
}

#[test]
fn reported_distance_is_the_length_from_origin_to_hit_point() {
    let origin = [0.2, 0.3, 4.0];
    let direction = [0.05, -0.02, -1.0];
    let mut state = state_with_ray(0, Ray3D::new(v3(origin), v3(direction)));
    let probed = candidates(&state, &[Scene::triangle(1, 1.5)]);
    pick_mesh(&mut state, &probed).unwrap();
    let top = state.top(PickingGroup::Group(0)).unwrap();
    let euclidean = length(sub(from_v3(top.position()), origin));
    assert!((f32::from_bits(top.distance()) - euclidean).abs() < 1e-6);
}

#[test]
fn triangle_behind_the_origin_is_not_hit() {
    let mut state = state_with_ray(0, ray_down_from(0.25, 0.25, 2.0));
    let probed = candidates(&state, &[Scene::triangle(1, 3.0)]);
    assert!(probed[0].probes[0].hits.is_empty());
    pick_mesh(&mut state, &probed).unwrap();
    assert!(state.list(PickingGroup::Group(0)).is_none());
    assert!(state.top(PickingGroup::Group(0)).is_none());
}

#[test]
fn two_stacked_meshes_are_listed_near_first() {
    let mut state = state_with_ray(0, ray_down_from(0.25, 0.25, 5.0));
    // The far mesh is met first: the order of the list is by distance.
    let scenes = [Scene::triangle(20, 1.0), Scene::triangle(10, 3.0)];
    let probed = candidates(&state, &scenes);
    pick_mesh(&mut state, &probed).unwrap();

    assert_eq!(entities(&state, 0), vec![10, 20]);
    let list = state.list(PickingGroup::Group(0)).unwrap();
    assert_eq!(list.len(), 2);
    assert!((f32::from_bits(list[0].distance()) - 2.0).abs() < 1e-6);
    assert!((f32::from_bits(list[1].distance()) - 4.0).abs() < 1e-6);
    assert_eq!(state.top(PickingGroup::Group(0)).unwrap().entity(), Entity::from_bits(10));
}

#[test]
fn invisible_mesh_in_the_path_never_appears() {
    let mut state = state_with_ray(0, ray_down_from(0.25, 0.25, 5.0));
    let mut hidden = Scene::triangle(1, 3.0);
    hidden.visible = false;
    let scenes = [hidden, Scene::triangle(2, 1.0)];
    let mut probed = candidates(&state, &scenes);
    assert!(probed[0].probes.is_empty());
    // Even a probe that reports a hit does not put a hidden mesh on a list.
    let hit = TriangleHit::new(ray_down_from(0.25, 0.25, 3.0), 2.0f32.to_bits());
    probed[0] = probed[0].clone().with_probe(0, vec![hit]);
    pick_mesh(&mut state, &probed).unwrap();
    assert_eq!(entities(&state, 0), vec![2]);
}

#[test]
fn two_sources_for_one_group_halt_the_resolver() {
    let camera = |group| PickingSource::new(group, PickingMethod::Center);
    let first = camera(PickingGroup::Group(0)).resolve(true, None).unwrap().unwrap();
    let second = camera(PickingGroup::Group(0)).resolve(true, None).unwrap().unwrap();
    assert_eq!(first.group, 0);
    assert_eq!(first.target, RayTarget::Center);

    let mut state = state_with_ray(0, ray_down_from(0.25, 0.25, 5.0));
    let probed = candidates(&state, &[Scene::triangle(1, 0.0)]);
    pick_mesh(&mut state, &probed).unwrap();

    let sources = vec![
        SourceRay::Cast { group: first.group, ray: ray_down_from(0.0, 0.0, 1.0) },
        SourceRay::Cast { group: second.group, ray: ray_down_from(0.0, 0.0, 2.0) },
    ];
    assert_eq!(build_rays(&mut state, &sources), Err(PickError::DuplicateSource { group: 0 }));
    // No ray is left, so a scan that follows does nothing.
    assert!(state.ray(PickingGroup::Group(0)).is_none());
    let probed = candidates(&state, &[Scene::triangle(2, 0.0)]);
    assert_eq!(pick_mesh(&mut state, &probed), Ok(()));
    assert_eq!(entities(&state, 0), vec![1]);
}

#[test]
fn tick_without_rays_keeps_the_previous_lists() {
    let mut state = state_with_ray(0, ray_down_from(0.25, 0.25, 5.0));
    let probed = candidates(&state, &[Scene::triangle(1, 0.0), Scene::triangle(2, 1.0)]);
    pick_mesh(&mut state, &probed).unwrap();
    let before: Vec<_> = state.list(PickingGroup::Group(0)).unwrap().clone();

    // The cursor rests: the only source follows it and is skipped.
    let source = PickingSource::default();
    assert_eq!(source.resolve(true, None), Ok(None));
    build_rays(&mut state, &vec![SourceRay::Skipped]).unwrap();
    assert!(state.ray(PickingGroup::Group(0)).is_none());

    let other = [Scene::triangle(3, 2.0)];
    let probed = candidates(&state, &other);
    assert_eq!(pick_mesh(&mut state, &probed), Ok(()));
    assert_eq!(state.list(PickingGroup::Group(0)), Some(&before));
    assert_eq!(state.top(PickingGroup::Group(0)), Some(&before[0]));
    assert!(state.list(PickingGroup::Group(1)).is_none());
}

#[test]
fn ray_in_one_group_clears_the_stale_list_of_another() {
    let mut state = PickState::new();
    let rays = vec![
        SourceRay::Cast { group: 0, ray: ray_down_from(0.25, 0.25, 5.0) },
        SourceRay::Cast { group: 1, ray: ray_down_from(0.25, 0.25, 6.0) },
    ];
    build_rays(&mut state, &rays).unwrap();
    let mut both = Scene::triangle(1, 0.0);
    both.groups = vec![PickingGroup::Group(0), PickingGroup::Group(1)];
    let probed = candidates(&state, &[both]);
    pick_mesh(&mut state, &probed).unwrap();
    assert_eq!(entities(&state, 0), vec![1]);
    assert_eq!(entities(&state, 1), vec![1]);
    assert!((f32::from_bits(state.top(PickingGroup::Group(1)).unwrap().distance()) - 6.0).abs() < 1e-6);

    // Next tick only group 0 has a ray: the list of group 1 goes too.
    build_rays(&mut state, &vec![rays[0]]).unwrap();
    let mut both = Scene::triangle(1, 0.0);
    both.groups = vec![PickingGroup::Group(0), PickingGroup::Group(1)];
    let probed = candidates(&state, &[both]);
    pick_mesh(&mut state, &probed).unwrap();
    assert_eq!(entities(&state, 0), vec![1]);
    assert!(state.list(PickingGroup::Group(1)).is_none());
}

#[test]
fn mesh_hit_in_many_triangles_is_recorded_once_per_group() {
    let mut state = state_with_ray(0, ray_down_from(0.25, 0.25, 5.0));
    // Three triangles stacked in one mesh, and the group named twice.
    let scene = Scene {
        entity: 9,
        visible: true,
        groups: vec![PickingGroup::Group(0), PickingGroup::Disabled, PickingGroup::Group(0)],
        topology: PrimitiveTopology::TriangleList,
        positions: vec![
            [0.0, 0.0, 1.0],
            [1.0, 0.0, 1.0],
            [0.0, 1.0, 1.0],
            [0.0, 0.0, 3.0],
            [1.0, 0.0, 3.0],
            [0.0, 1.0, 3.0],
            [0.0, 0.0, 2.0],
            [1.0, 0.0, 2.0],
            [0.0, 1.0, 2.0],
        ],
        indices: Some(vec![0, 1, 2, 3, 4, 5, 6, 7, 8]),
    };
    let probed = candidates(&state, &[scene]);
    assert_eq!(probed[0].probes.len(), 1);
    assert_eq!(probed[0].probes[0].hits.len(), 3);
    pick_mesh(&mut state, &probed).unwrap();
    let list = state.list(PickingGroup::Group(0)).unwrap();
    assert_eq!(list.len(), 1);
    assert!((f32::from_bits(list[0].distance()) - 2.0).abs() < 1e-6);
    assert!((from_v3(list[0].position())[2] - 3.0).abs() < 1e-6);
}

#[test]
fn scanning_twice_gives_the_same_lists() {
    let mut state = state_with_ray(0, ray_down_from(0.25, 0.25, 5.0));
    let scenes = [Scene::triangle(1, 0.0), Scene::triangle(2, 2.0), Scene::triangle(3, 1.0)];
    let probed = candidates(&state, &scenes);
    pick_mesh(&mut state, &probed).unwrap();
    let once: Vec<_> = state.list(PickingGroup::Group(0)).unwrap().clone();
    assert_eq!(entities(&state, 0), vec![2, 3, 1]);

    let probed = candidates(&state, &scenes);
    pick_mesh(&mut state, &probed).unwrap();
    assert_eq!(state.list(PickingGroup::Group(0)), Some(&once));
}

#[test]
fn mesh_outside_the_groups_with_rays_is_skipped() {
    let mut state = state_with_ray(1, ray_down_from(0.25, 0.25, 5.0));
    let mut disabled = Scene::triangle(2, 1.0);
    disabled.groups = vec![PickingGroup::Disabled];
    let mut indexless = Scene::triangle(3, 1.0);
    indexless.indices = None;
    // Group 0 has no ray, so not even the mesh without indices is looked at.
    let probed = candidates(&state, &[Scene::triangle(1, 0.0), disabled, indexless]);
    assert_eq!(pick_mesh(&mut state, &probed), Ok(()));
    assert!(state.list(PickingGroup::Group(0)).is_none());
    assert!(state.list(PickingGroup::Group(1)).is_none());
    assert!(state.list(PickingGroup::Disabled).is_none());
    assert!(state.top(PickingGroup::Disabled).is_none());
}

#[test]
fn mesh_that_is_no_triangle_list_is_skipped() {
    let mut state = state_with_ray(0, ray_down_from(0.25, 0.25, 5.0));
    let mut strip = Scene::triangle(1, 1.0);
    strip.topology = PrimitiveTopology::TriangleStrip;
    let mut lines = Scene::triangle(2, 1.0);
    lines.topology = PrimitiveTopology::LineList;
    lines.indices = None;
    let probed = candidates(&state, &[strip, lines, Scene::triangle(3, 0.0)]);
    assert!(probed[0].probes.is_empty());
    assert_eq!(pick_mesh(&mut state, &probed), Ok(()));
    assert_eq!(entities(&state, 0), vec![3]);
}

#[test]
fn mesh_whose_asset_is_missing_is_skipped() {
    let mut state = state_with_ray(0, ray_down_from(0.25, 0.25, 5.0));
    let hit = TriangleHit::new(ray_down_from(0.25, 0.25, 3.0), 2.0f32.to_bits());
    let missing = MeshCandidate::new(
        Entity::from_bits(1),
        true,
        PickableMesh::default(),
        None,
    )
    .with_probe(0, vec![hit]);
    assert_eq!(rays_for(&state, &missing), Ok(vec![]));
    assert_eq!(pick_mesh(&mut state, &vec![missing]), Ok(()));
    assert!(state.list(PickingGroup::Group(0)).is_none());
}

#[test]
fn triangle_list_without_indices_aborts_the_tick() {
    let mut state = state_with_ray(0, ray_down_from(0.25, 0.25, 5.0));
    let probed = candidates(&state, &[Scene::triangle(1, 0.0)]);
    pick_mesh(&mut state, &probed).unwrap();
    assert_eq!(entities(&state, 0), vec![1]);

    let mut broken = Scene::triangle(5, 1.0);
    broken.indices = None;
    let mut later = Scene::triangle(6, 1.0);
    later.indices = None;
    let probed = candidates(&state, &[Scene::triangle(4, 0.0), broken, later]);
    assert_eq!(
        rays_for(&state, &probed[1]),
        Err(PickError::MissingIndices { entity: Entity::from_bits(5) })
    );
    assert_eq!(
        pick_mesh(&mut state, &probed),
        Err(PickError::MissingIndices { entity: Entity::from_bits(5) })
    );
    assert!(state.list(PickingGroup::Group(0)).is_none());
    assert!(state.ray(PickingGroup::Group(0)).is_some());
}

#[test]
fn cursor_source_asks_for_a_ray_through_the_cursor() {
    let window = WindowId::from_u128(42);
    let source = PickingSource::new(PickingGroup::Group(3), PickingMethod::Cursor(window));
    let position = Vec2::new(320.0f32.to_bits(), 240.0f32.to_bits());
    let moved = CursorMoved { id: window, position };
    let request = source.resolve(true, Some(moved)).unwrap().unwrap();
    assert_eq!(request.group, 3);
    assert_eq!(request.target, RayTarget::Pixel { window, position });

    let elsewhere = CursorMoved { id: WindowId::primary(), position };
    assert_eq!(source.resolve(true, Some(elsewhere)), Ok(None));
    assert_eq!(source.resolve(true, None), Ok(None));
}
