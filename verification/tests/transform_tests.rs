use boids::transform::{clamp_to_arena, Rotation, Transform, POS_LIMIT};
use boids::vec3::{Vec3, UNIT};

#[test]
fn with_pos_places_and_keeps_unit_scale() {
    let t = Transform::with_pos(Vec3::new(5, -7, 9));
    let p = t.get_pos();
    assert_eq!((p.x, p.y, p.z), (5, -7, 9));
    let s = t.get_scale();
    assert_eq!((s.x, s.y, s.z), (UNIT, UNIT, UNIT));
}

#[test]
fn default_rotation_faces_forward() {
    let r = Rotation::default();
    assert_eq!((r.direction.x, r.direction.y, r.direction.z), (0, 0, -UNIT));
    assert_eq!(r.angle, 0);
    let t = Transform::default();
    assert_eq!(t.get_rotation(), r);
    let p = t.get_pos();
    assert_eq!((p.x, p.y, p.z), (0, 0, 0));
}

#[test]
fn update_pos_translates_exactly() {
    let mut t = Transform::with_pos(Vec3::new(100, 200, 300));
    t.update_pos(Vec3::new(-150, 50, 0));
    let p = t.get_pos();
    assert_eq!((p.x, p.y, p.z), (-50, 250, 300));
}

#[test]
fn update_pos_saturates_at_arena_edge() {
    let mut t = Transform::with_pos(Vec3::new(POS_LIMIT, 0, 0));
    t.update_pos(Vec3::new(5, 0, 0));
    assert_eq!(t.get_pos().x, POS_LIMIT);
    t.update_pos(Vec3::new(-5, 0, 0));
    assert_eq!(t.get_pos().x, POS_LIMIT - 5);
}

#[test]
fn set_pos_clamps_into_arena() {
    let mut t = Transform::default();
    t.set_pos(Vec3::new(POS_LIMIT + 1, -(POS_LIMIT + 7), 42));
    let p = t.get_pos();
    assert_eq!((p.x, p.y, p.z), (POS_LIMIT, -POS_LIMIT, 42));
    let c = clamp_to_arena(Vec3::new(1, 2, 3));
    assert_eq!((c.x, c.y, c.z), (1, 2, 3));
}

#[test]
fn with_pos_scale_keeps_both() {
    let t = Transform::with_pos_scale(Vec3::new(1, 2, 3), Vec3::new(4, 5, 6));
    let p = t.get_pos();
    let s = t.get_scale();
    assert_eq!((p.x, p.y, p.z), (1, 2, 3));
    assert_eq!((s.x, s.y, s.z), (4, 5, 6));
}
