//! The plain values that the library carries.

use picking_core::{
    BoundingSphere, Entity, PickIntersection, Probe, Ray3D, TriangleHit, Vec2, Vec3,
};

#[test]
fn coordinates_are_carried_bit_for_bit() {
    let origin = Vec3::new(1.5f32.to_bits(), (-0.0f32).to_bits(), f32::NAN.to_bits());
    let direction = Vec3::new(0, 0, 1.0f32.to_bits());
    let ray = Ray3D::new(origin, direction);
    assert_eq!(ray.origin(), &origin);
    assert_eq!(ray.direction(), &direction);
    assert_eq!(f32::from_bits(ray.origin().x), 1.5);
    assert!(f32::from_bits(ray.origin().y).is_sign_negative());
    assert!(f32::from_bits(ray.origin().z).is_nan());
    assert_eq!(Vec2::new(3, 4), Vec2 { x: 3, y: 4 });
    assert_ne!(Vec3::new(0.0f32.to_bits(), 0, 0), Vec3::new((-0.0f32).to_bits(), 0, 0));
}

#[test]
fn record_hands_back_what_it_was_made_of() {
    let intersection = Ray3D::new(Vec3::new(1, 2, 3), Vec3::new(4, 5, 6));
    let pick = PickIntersection::new(Entity::from_bits(77), intersection, 2.5f32.to_bits());
    assert_eq!(pick.entity(), Entity::from_bits(77));
    assert_eq!(pick.entity().to_bits(), 77);
    assert_eq!(pick.position(), &Vec3::new(1, 2, 3));
    assert_eq!(pick.normal(), &Vec3::new(4, 5, 6));
    assert_eq!(pick.distance(), 2.5f32.to_bits());
    assert_eq!(f32::from_bits(pick.distance()), 2.5);
}

#[test]
fn probe_and_hit_hold_their_fields() {
    let intersection = Ray3D::new(Vec3::new(1, 2, 3), Vec3::new(4, 5, 6));
    let hit = TriangleHit::new(intersection, 9);
    assert_eq!(hit.intersection, intersection);
    assert_eq!(hit.distance, 9);
    let probe = Probe::new(3, vec![hit]);
    assert_eq!(probe.group, 3);
    assert_eq!(probe.hits, vec![hit]);
    let sphere = BoundingSphere { origin: Vec3::new(0, 0, 0), radius: 1.0f32.to_bits() };
    assert_eq!(sphere.radius, 0x3f80_0000);
}
