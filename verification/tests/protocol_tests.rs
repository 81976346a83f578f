use boids::agent::{Agent, MAX_SPEED};
use boids::message::{Message, Payload};
use boids::transform::POS_LIMIT;
use boids::vec3::{Vec3, UNIT};

fn no_dup(ids: &[u32]) -> bool {
    for i in 0..ids.len() {
        for j in (i + 1)..ids.len() {
            if ids[i] == ids[j] {
                return false;
            }
        }
    }
    true
}

#[test]
fn heartbeat_names_sender_and_all_recipients() {
    let mut a = Agent::new(1, Vec3::new(5, 6, 7));
    a.update_table(2, Vec3::new(UNIT, 0, 0), Vec3::zero());
    a.update_table(3, Vec3::new(50 * UNIT, 0, 0), Vec3::zero());
    let out = a.send_update_message();
    // The heartbeat goes to every table entry, radius or not.
    assert_eq!(out.recipients, vec![2, 3]);
    match out.message {
        Message::UPDATE { from, received_list, payload } => {
            assert_eq!(from, 1);
            assert_eq!(received_list, vec![1, 2, 3]);
            assert!(no_dup(&received_list));
            assert_eq!(payload.len(), 1);
            assert_eq!(payload[0].id, 1);
            assert_eq!(payload[0].position.x, 5);
            assert_eq!(payload[0].velocity.x, 0);
        },
        _ => panic!("heartbeat must be an update wave"),
    }
}

#[test]
fn goal_message_sets_clamped_target() {
    let mut a = Agent::new(1, Vec3::zero());
    let out = a.on_received(Message::TASK { target: Vec3::new(POS_LIMIT + 9, 4, 5) });
    assert!(out.is_none());
    let t = a.target.unwrap();
    assert_eq!((t.x, t.y, t.z), (POS_LIMIT, 4, 5));
}

#[test]
fn self_originated_wave_is_discarded() {
    let mut a = Agent::new(1, Vec3::zero());
    a.update_table(2, Vec3::new(UNIT, 0, 0), Vec3::zero());
    let out = a.on_received(Message::UPDATE {
        from: 1,
        received_list: vec![1],
        payload: vec![Payload { id: 2, position: Vec3::new(9, 9, 9), velocity: Vec3::zero() }],
    });
    assert!(out.is_none());
    // The stale echo did not touch the table.
    assert_eq!(a.table[0].position.x, UNIT);
}

#[test]
fn wave_refreshes_known_entries_and_relays_onward() {
    // Receiver 2 knows 1 (near) and 3 (near); a wave from 1 arrives.
    let mut a = Agent::new(2, Vec3::zero());
    a.update_table(1, Vec3::new(UNIT, 0, 0), Vec3::zero());
    a.update_table(3, Vec3::new(0, UNIT, 0), Vec3::zero());
    let obs1 = Payload {
        id: 1,
        position: Vec3::new(2 * UNIT, 0, 0),
        velocity: Vec3::new(7, 0, 0),
    };
    let out = a.on_received(Message::UPDATE {
        from: 1,
        received_list: vec![1, 2],
        payload: vec![obs1],
    }).expect("an accepted wave is relayed");
    // The cached snapshot of 1 was refreshed.
    let e1 = a.table.iter().find(|e| e.id == 1).unwrap();
    assert_eq!(e1.position.x, 2 * UNIT);
    assert_eq!(e1.velocity.x, 7);
    // Only 3 has not seen the wave; it gets the same extended list.
    assert_eq!(out.recipients, vec![3]);
    match out.message {
        Message::UPDATE { from, received_list, payload } => {
            assert_eq!(from, 2);
            assert_eq!(received_list, vec![1, 2, 3]);
            assert!(no_dup(&received_list));
            assert_eq!(payload.len(), 2);
            assert_eq!(payload[0].id, 1);
            assert_eq!(payload[1].id, 2);
            assert_eq!(payload[1].position.x, 0);
        },
        _ => panic!("a relay must stay an update wave"),
    }
}

#[test]
fn unknown_ids_are_ignored_not_inserted() {
    let mut a = Agent::new(2, Vec3::zero());
    a.update_table(1, Vec3::new(UNIT, 0, 0), Vec3::zero());
    let out = a.on_received(Message::UPDATE {
        from: 9,
        received_list: vec![9],
        payload: vec![Payload { id: 77, position: Vec3::new(3, 3, 3), velocity: Vec3::zero() }],
    });
    assert!(out.is_some());
    assert_eq!(a.table.len(), 1);
    assert_eq!(a.table[0].id, 1);
}

#[test]
fn unusable_observation_is_dropped() {
    let mut a = Agent::new(2, Vec3::zero());
    a.update_table(1, Vec3::new(UNIT, 0, 0), Vec3::zero());
    // A velocity beyond the speed limit cannot be a real snapshot.
    let _ = a.on_received(Message::UPDATE {
        from: 1,
        received_list: vec![1],
        payload: vec![Payload {
            id: 1,
            position: Vec3::new(2 * UNIT, 0, 0),
            velocity: Vec3::new(5 * MAX_SPEED, 0, 0),
        }],
    });
    assert_eq!(a.table[0].position.x, UNIT);
    assert_eq!(a.table[0].velocity.x, 0);
}

#[test]
fn chain_relay_keeps_seen_list_duplicate_free() {
    // A line of three agents, each only within radius of its neighbor:
    // positions 0, 5 and 10 units on the x axis.
    let mut a1 = Agent::new(1, Vec3::new(0, 0, 0));
    let mut a2 = Agent::new(2, Vec3::new(5 * UNIT, 0, 0));
    let mut a3 = Agent::new(3, Vec3::new(10 * UNIT, 0, 0));
    a1.update_table(2, a2.transform.get_pos(), Vec3::zero());
    a2.update_table(1, a1.transform.get_pos(), Vec3::zero());
    a2.update_table(3, a3.transform.get_pos(), Vec3::zero());
    a3.update_table(2, a2.transform.get_pos(), Vec3::zero());

    let hb = a1.send_update_message();
    assert_eq!(hb.recipients, vec![2]);
    let relay = a2.on_received(hb.message).expect("the wave travels on");
    assert_eq!(relay.recipients, vec![3]);
    match &relay.message {
        Message::UPDATE { received_list, .. } => {
            assert_eq!(received_list, &vec![1, 2, 3]);
            assert!(no_dup(received_list));
        },
        _ => panic!("a relay must stay an update wave"),
    }
    let out3 = a3.on_received(relay.message).expect("the wave is handled");
    // Everyone has seen the wave; the flood stops here.
    assert_eq!(out3.recipients.len(), 0);
    // The relayed observation of 2 reached 3.
    let e2 = a3.table.iter().find(|e| e.id == 2).unwrap();
    assert_eq!(e2.position.x, 5 * UNIT);
}

#[test]
fn broadcast_cycle_converges_tables() {
    // Three agents close together, fully wired with stale entries; after
    // each one broadcasts once and every recipient handles the heartbeat,
    // every table reflects the broadcast positions.
    let positions = [
        Vec3::new(0, 0, 0),
        Vec3::new(UNIT, 0, 0),
        Vec3::new(0, UNIT, 0),
    ];
    let mut agents = vec![
        Agent::new(1, positions[0]),
        Agent::new(2, positions[1]),
        Agent::new(3, positions[2]),
    ];
    // Stale wiring: every entry starts at the origin.
    for i in 0..3 {
        for j in 0..3 {
            if i != j {
                let id = agents[j].id;
                agents[i].update_table(id, Vec3::zero(), Vec3::zero());
            }
        }
    }
    // One full broadcast-and-relay cycle.
    for i in 0..3 {
        let out = agents[i].send_update_message();
        for j in 0..3 {
            if out.recipients.contains(&agents[j].id) {
                let _ = agents[j].on_received(out.message.clone());
            }
        }
    }
    for i in 0..3 {
        for j in 0..3 {
            if i != j {
                let id = agents[j].id;
                let e = agents[i].table.iter().find(|e| e.id == id).unwrap();
                assert_eq!(e.position, positions[j]);
            }
        }
    }
}
