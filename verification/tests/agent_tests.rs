use boids::agent::{Agent, MAX_ACCELERATION, MAX_SPEED};
use boids::entity::RenderType;
use boids::message::Message;
use boids::transform::Rotation;
use boids::vec3::{Vec3, UNIT};

fn agent_at(id: u32, x: i64, y: i64, z: i64) -> Agent {
    Agent::new(id, Vec3::new(x, y, z))
}

#[test]
fn new_agent_is_at_rest_with_empty_table() {
    let a = agent_at(7, 1, 2, 3);
    assert_eq!(a.id, 7);
    let p = a.transform.get_pos();
    assert_eq!((p.x, p.y, p.z), (1, 2, 3));
    assert_eq!((a.velocity.x, a.velocity.y, a.velocity.z), (0, 0, 0));
    assert!(a.target.is_none());
    assert!(matches!(a.render_type, RenderType::DYNAMIC));
    assert_eq!(a.table.len(), 0);
    // The fresh pose has unit scale and the default orientation.
    let s = a.transform.get_scale();
    assert_eq!((s.x, s.y, s.z), (UNIT, UNIT, UNIT));
    assert_eq!(a.transform.get_rotation(), Rotation::default());
}

#[test]
fn update_table_inserts_then_overwrites() {
    let mut a = agent_at(1, 0, 0, 0);
    a.update_table(2, Vec3::new(10, 0, 0), Vec3::zero());
    assert_eq!(a.table.len(), 1);
    assert_eq!(a.table[0].id, 2);
    assert_eq!(a.table[0].position.x, 10);
    a.update_table(2, Vec3::new(20, 0, 0), Vec3::new(5, 0, 0));
    assert_eq!(a.table.len(), 1);
    assert_eq!(a.table[0].position.x, 20);
    assert_eq!(a.table[0].velocity.x, 5);
    a.update_table(3, Vec3::new(30, 0, 0), Vec3::zero());
    assert_eq!(a.table.len(), 2);
    assert_eq!(a.table[1].id, 3);
}

#[test]
fn forces_vanish_for_lone_resting_agent() {
    let a = agent_at(1, 0, 0, 0);
    for f in [
        a.get_cohesion_force(),
        a.get_seperation_force(),
        a.get_align_force(),
        a.get_target_force(),
    ] {
        assert_eq!((f.x, f.y, f.z), (0, 0, 0));
    }
}

#[test]
fn forces_brake_a_moving_lone_agent() {
    let mut a = agent_at(1, 0, 0, 0);
    a.velocity = Vec3::new(MAX_SPEED, 0, 0);
    let f = a.get_align_force();
    assert_eq!((f.x, f.y, f.z), (-MAX_SPEED, 0, 0));
    let c = a.get_cohesion_force();
    assert_eq!((c.x, c.y, c.z), (-MAX_SPEED, 0, 0));
}

#[test]
fn perception_excludes_distant_neighbor() {
    // Agents at the origin, one unit away, and a hundred units away; the
    // perception radius is ten units.
    let mut a = agent_at(1, 0, 0, 0);
    a.update_table(2, Vec3::new(UNIT, 0, 0), Vec3::zero());
    a.update_table(3, Vec3::new(100 * UNIT, 0, 0), Vec3::zero());
    let ids = a.neighbors_in_radius();
    assert_eq!(ids, vec![2]);
    // The distant agent still has a cached entry in the table.
    assert_eq!(a.table.len(), 2);
    assert!(a.table.iter().any(|e| e.id == 3));
}

#[test]
fn cohesion_steers_toward_near_neighbor() {
    let mut a = agent_at(1, 0, 0, 0);
    a.update_table(2, Vec3::new(UNIT, 0, 0), Vec3::zero());
    a.update_table(3, Vec3::new(100 * UNIT, 0, 0), Vec3::zero());
    let f = a.get_cohesion_force();
    assert_eq!((f.x, f.y, f.z), (MAX_SPEED, 0, 0));
}

#[test]
fn separation_steers_away_from_near_neighbor() {
    let mut a = agent_at(1, 0, 0, 0);
    a.update_table(2, Vec3::new(UNIT, 0, 0), Vec3::zero());
    let f = a.get_seperation_force();
    assert_eq!((f.x, f.y, f.z), (-MAX_SPEED, 0, 0));
    // Positive component along the direction away from the neighbor.
    let away = a.transform.get_pos().sub(&a.table[0].position);
    assert!(f.x as i128 * away.x as i128 + f.y as i128 * away.y as i128
        + f.z as i128 * away.z as i128 > 0);
}

#[test]
fn alignment_matches_neighbor_velocity() {
    let mut a = agent_at(1, 0, 0, 0);
    a.update_table(2, Vec3::new(UNIT, 0, 0), Vec3::new(0, MAX_SPEED, 0));
    let f = a.get_align_force();
    assert_eq!((f.x, f.y, f.z), (0, MAX_SPEED, 0));
}

#[test]
fn goal_produces_positive_x_acceleration() {
    // A goal at (10, 0, 0) units for an agent at rest at the origin.
    let mut a = agent_at(1, 0, 0, 0);
    let out = a.on_received(Message::TASK { target: Vec3::new(10 * UNIT, 0, 0) });
    assert!(out.is_none());
    let f = a.get_target_force();
    assert!(f.x > 0);
    a.update();
    assert!(a.velocity.x > 0);
    assert_eq!((a.velocity.x, a.velocity.y, a.velocity.z), (MAX_SPEED, 0, 0));
    assert_eq!(a.transform.get_pos().x, MAX_SPEED);
}

#[test]
fn velocity_stays_below_max_speed() {
    let mut a = agent_at(1, 0, 0, 0);
    let _ = a.on_received(Message::TASK { target: Vec3::new(1000 * UNIT, 500 * UNIT, 0) });
    for _ in 0..20 {
        a.update();
        let v = &a.velocity;
        let n = v.x as i128 * v.x as i128 + v.y as i128 * v.y as i128 + v.z as i128 * v.z as i128;
        assert!(n <= (MAX_SPEED as i128) * (MAX_SPEED as i128));
    }
}

#[test]
fn clamped_forces_stay_within_acceleration_budget() {
    let mut a = agent_at(1, 0, 0, 0);
    a.velocity = Vec3::new(0, -MAX_SPEED, 0);
    a.update_table(2, Vec3::new(UNIT, UNIT, 0), Vec3::new(MAX_SPEED, 0, 0));
    a.update_table(3, Vec3::new(-2 * UNIT, 0, UNIT), Vec3::new(0, 0, -MAX_SPEED));
    let budget = (MAX_ACCELERATION as i128) * (MAX_ACCELERATION as i128);
    for f in [a.get_cohesion_force(), a.get_seperation_force(), a.get_align_force()] {
        let n = f.x as i128 * f.x as i128 + f.y as i128 * f.y as i128 + f.z as i128 * f.z as i128;
        assert!(n <= budget);
    }
}

#[test]
fn clear_target_removes_goal() {
    let mut a = agent_at(1, 0, 0, 0);
    let _ = a.on_received(Message::TASK { target: Vec3::new(UNIT, 0, 0) });
    assert!(a.target.is_some());
    a.clear_target();
    assert!(a.target.is_none());
    let f = a.get_target_force();
    assert_eq!((f.x, f.y, f.z), (0, 0, 0));
}

#[test]
fn departed_peer_can_be_forgotten() {
    let mut a = agent_at(1, 0, 0, 0);
    a.update_table(2, Vec3::new(UNIT, 0, 0), Vec3::zero());
    a.update_table(3, Vec3::new(0, UNIT, 0), Vec3::zero());
    a.remove_table_entry(2);
    assert_eq!(a.table.len(), 1);
    assert_eq!(a.table[0].id, 3);
    // Removing an unknown peer changes nothing.
    a.remove_table_entry(42);
    assert_eq!(a.table.len(), 1);
}
