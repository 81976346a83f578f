use boids::entity::{Entity, RenderType};
use boids::render::{MeshType, PoseBuffer};
use boids::vec3::Vec3;

#[test]
fn render_type_starts_unsubscribed() {
    assert!(matches!(RenderType::new(true), RenderType::STATIC { subscribed: false }));
    assert!(matches!(RenderType::new(false), RenderType::DYNAMIC));
}

#[test]
fn static_entity_is_batched_once() {
    let mut ground = Entity::new_scale(
        Vec3::new(0, -20, 0),
        Vec3::new(500, 1, 500),
        true,
        MeshType::CUBE,
    );
    let mut batch = PoseBuffer::new();
    ground.draw(&mut batch);
    ground.draw(&mut batch);
    assert_eq!(batch.statics.len(), 1);
    assert_eq!(batch.dynamics.len(), 0);
    assert!(matches!(*ground.get_render_type(), RenderType::STATIC { subscribed: true }));
}

#[test]
fn dynamic_entity_is_batched_every_frame() {
    let mut cursor = Entity::new(Vec3::zero(), false, MeshType::CUBE);
    let mut batch = PoseBuffer::new();
    cursor.draw(&mut batch);
    cursor.draw(&mut batch);
    assert_eq!(batch.dynamics.len(), 2);
    batch.begin_frame();
    assert_eq!(batch.dynamics.len(), 0);
    cursor.draw(&mut batch);
    assert_eq!(batch.dynamics.len(), 1);
}

#[test]
fn entity_transform_is_reachable_and_movable() {
    let mut e = Entity::new(Vec3::new(1, 2, 3), false, MeshType::CUBE);
    assert_eq!(e.get_transform().get_pos(), Vec3::new(1, 2, 3));
    assert_eq!(e.get_transform().get_rotation(), boids::transform::Rotation::default());
    e.get_mut_transform().set_pos(Vec3::new(9, 8, 7));
    assert_eq!(e.get_transform().get_pos(), Vec3::new(9, 8, 7));
}
