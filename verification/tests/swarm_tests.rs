use boids::render::PoseBuffer;
use boids::swarm::{Swarm, PADDING};
use boids::vec3::{Vec3, UNIT};

#[test]
fn construction_gives_full_tables_without_self() {
    // A side of two cells per axis: eight agents.
    let s = Swarm::new(2);
    let n = s.agents.len();
    assert_eq!(n, 8);
    for a in s.agents.iter() {
        assert_eq!(a.table.len(), n - 1);
        assert!(a.table.iter().all(|e| e.id != a.id));
    }
    // Ids are assigned in construction order, without repetition.
    for (i, a) in s.agents.iter().enumerate() {
        assert_eq!(a.id, (i + 1) as u32);
    }
}

#[test]
fn construction_caches_initial_snapshots() {
    let s = Swarm::new(2);
    // Agent 1's first entry caches agent 2 at its grid position, at rest.
    let first = &s.agents[0].table[0];
    assert_eq!(first.id, 2);
    assert_eq!(first.position, s.agents[1].transform.get_pos());
    assert_eq!(first.velocity, boids::vec3::Vec3::zero());
    // A later agent's first entry caches agent 1.
    let back = &s.agents[3].table[0];
    assert_eq!(back.id, 1);
    assert_eq!(back.position, s.agents[0].transform.get_pos());
}

#[test]
fn construction_spaces_agents_on_the_grid() {
    let s = Swarm::new(2);
    let p0 = s.agents[0].transform.get_pos();
    assert_eq!((p0.x, p0.y, p0.z), (-PADDING, -PADDING, -PADDING));
    let p7 = s.agents[7].transform.get_pos();
    assert_eq!((p7.x, p7.y, p7.z), (0, 0, 0));
    // An odd count rounds down to the same even side.
    let s3 = Swarm::new(3);
    assert_eq!(s3.agents.len(), 8);
}

#[test]
fn construction_of_nothing_is_empty() {
    let s = Swarm::new(0);
    assert_eq!(s.agents.len(), 0);
    let s1 = Swarm::new(1);
    assert_eq!(s1.agents.len(), 0);
}

#[test]
fn set_target_reaches_every_agent() {
    let mut s = Swarm::new(2);
    s.set_target(Vec3::new(10 * UNIT, 0, 0));
    for a in s.agents.iter() {
        let t = a.target.unwrap();
        assert_eq!((t.x, t.y, t.z), (10 * UNIT, 0, 0));
    }
    s.clear_target();
    for a in s.agents.iter() {
        assert!(a.target.is_none());
    }
}

#[test]
fn update_keeps_every_velocity_within_limit() {
    let mut s = Swarm::new(2);
    s.set_target(Vec3::new(100 * UNIT, 50 * UNIT, 0));
    for _ in 0..5 {
        s.update();
        for a in s.agents.iter() {
            let v = &a.velocity;
            let n = v.x as i128 * v.x as i128 + v.y as i128 * v.y as i128 + v.z as i128
                * v.z as i128;
            assert!(n <= 1_000_000);
        }
    }
}

#[test]
fn draw_batches_one_pose_per_agent() {
    let mut s = Swarm::new(2);
    let mut batch = PoseBuffer::new();
    s.draw(&mut batch);
    assert_eq!(batch.dynamics.len(), 8);
    assert_eq!(batch.statics.len(), 0);
    batch.begin_frame();
    assert_eq!(batch.dynamics.len(), 0);
    s.draw(&mut batch);
    assert_eq!(batch.dynamics.len(), 8);
    let pose = batch.dynamics.get(0);
    assert_eq!(pose.get_pos(), s.agents[0].transform.get_pos());
}
