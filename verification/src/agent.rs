//! The flocking agent: steering forces, motion integration, and the gossip
//! protocol that keeps its neighbor table fresh.

use vstd::prelude::*;
use crate::entity::RenderType;
use crate::message::{no_dups, Message, Payload};
use crate::transform::{clamp_pos, Rotation, Transform, POS_LIMIT};
use crate::vec3::{Vec3, V3, COORD_LIMIT, UNIT};

verus! {

/// Neighbors beyond this distance are ignored for steering and relaying.
pub const PERCEPTION_RADIUS: i64 = 10_000_000;

/// `PERCEPTION_RADIUS * PERCEPTION_RADIUS`, precomputed for comparisons
/// against squared distances.
pub const PERCEPTION_RADIUS_SQ: i128 = 100_000_000_000_000;

/// Velocity norms never exceed this after an update.
pub const MAX_SPEED: i64 = 1_000;

/// `MAX_SPEED * MAX_SPEED`, precomputed for comparisons against squared
/// norms.
pub const MAX_SPEED_SQ: i128 = 1_000_000;

/// Each steering force except goal-seeking is clamped to this norm.
pub const MAX_ACCELERATION: i64 = 5_000;

/// Largest number of entries a neighbor table may hold.
pub const TABLE_MAX: i64 = 1_000_000_000;

/// One neighbor table entry: a peer's id and the last snapshot of its
/// kinematic state that gossip delivered (possibly stale).
#[derive(Clone, Copy, Debug, PartialEq, Eq, Structural)]
pub struct Table {
    pub id: u32,
    pub position: Vec3,
    pub velocity: Vec3,
}

/// A cached snapshot the steering rules can safely consume.
pub open spec fn entry_ok(e: Table) -> bool {
    &&& e.position@.in_bounds(POS_LIMIT as int)
    &&& e.velocity@.norm_sq() <= MAX_SPEED * MAX_SPEED
}

pub open spec fn table_has_id(t: Seq<Table>, id: u32) -> bool {
    exists|i: int| 0 <= i < t.len() && (#[trigger] t[i]).id == id
}

pub open spec fn table_index_of(t: Seq<Table>, id: u32) -> int {
    choose|i: int| 0 <= i < t.len() && (#[trigger] t[i]).id == id
}

/// No two table entries share an id.
pub open spec fn ids_distinct(t: Seq<Table>) -> bool {
    forall|i: int, j: int| 0 <= i < j < t.len() ==> (#[trigger] t[i]).id != (#[trigger] t[j]).id
}

/// The entry carrying `id` (meaningful when `table_has_id` holds).
pub open spec fn entry_for(t: Seq<Table>, id: u32) -> Table {
    t[table_index_of(t, id)]
}

/// Well-formed neighbor table of the agent `own`: distinct peer ids, no
/// entry for the agent itself, every snapshot usable, bounded size.
pub open spec fn table_wf(t: Seq<Table>, own: u32) -> bool {
    &&& ids_distinct(t)
    &&& forall|i: int| 0 <= i < t.len() ==> (#[trigger] t[i]).id != own
    &&& forall|i: int| 0 <= i < t.len() ==> entry_ok(#[trigger] t[i])
    &&& t.len() <= TABLE_MAX
}

/// With distinct ids, the index found for `id` is the index of any entry
/// that carries it.
pub proof fn lemma_index_of_unique(t: Seq<Table>, id: u32, i: int)
    requires
        ids_distinct(t),
        0 <= i < t.len(),
        t[i].id == id,
    ensures
        table_has_id(t, id),
        table_index_of(t, id) == i,
{
    assert(table_has_id(t, id));
    let j = table_index_of(t, id);
    assert(0 <= j < t.len() && t[j].id == id);
    if j < i {
        assert(t[j].id != t[i].id);
    }
    if i < j {
        assert(t[i].id != t[j].id);
    }
}

/// Insert a fresh snapshot, overwriting the entry with the same id if one
/// exists and appending otherwise.
pub open spec fn upsert(t: Seq<Table>, e: Table) -> Seq<Table> {
    if table_has_id(t, e.id) {
        t.update(table_index_of(t, e.id), e)
    } else {
        t.push(e)
    }
}

/// Drop the entry carrying `id`, if any: how a table forgets a departed
/// peer.
pub open spec fn without_id(t: Seq<Table>, id: u32) -> Seq<Table> {
    if table_has_id(t, id) {
        t.remove(table_index_of(t, id))
    } else {
        t
    }
}

/// `q` lies strictly within the perception radius of `p`.
pub open spec fn spec_near(q: V3, p: V3) -> bool {
    q.sub(p).norm_sq() < PERCEPTION_RADIUS_SQ as int
}

/// Number of table entries within perception radius of `pos`.
pub open spec fn neighbor_count(t: Seq<Table>, pos: V3) -> int
    decreases t.len(),
{
    if t.len() == 0 {
        0
    } else {
        neighbor_count(t.drop_last(), pos) + if spec_near(t.last().position@, pos) {
            1int
        } else {
            0int
        }
    }
}

/// Sum of the cached positions of the in-radius entries.
pub open spec fn neighbor_pos_sum(t: Seq<Table>, pos: V3) -> V3
    decreases t.len(),
{
    if t.len() == 0 {
        V3::zero()
    } else {
        let rest = neighbor_pos_sum(t.drop_last(), pos);
        if spec_near(t.last().position@, pos) {
            rest.add(t.last().position@)
        } else {
            rest
        }
    }
}

/// Sum of the cached velocities of the in-radius entries.
pub open spec fn neighbor_vel_sum(t: Seq<Table>, pos: V3) -> V3
    decreases t.len(),
{
    if t.len() == 0 {
        V3::zero()
    } else {
        let rest = neighbor_vel_sum(t.drop_last(), pos);
        if spec_near(t.last().position@, pos) {
            rest.add(t.last().velocity@)
        } else {
            rest
        }
    }
}

/// Sum of the unit vectors pointing away from each in-radius entry.
pub open spec fn neighbor_away_sum(t: Seq<Table>, pos: V3) -> V3
    decreases t.len(),
{
    if t.len() == 0 {
        V3::zero()
    } else {
        let rest = neighbor_away_sum(t.drop_last(), pos);
        if spec_near(t.last().position@, pos) {
            rest.add(pos.sub(t.last().position@).renormed(UNIT as int))
        } else {
            rest
        }
    }
}

/// The ids of the in-radius table entries, in table order: the neighbor
/// set the steering rules consume.
pub open spec fn spec_neighbor_ids(t: Seq<Table>, pos: V3) -> Seq<u32>
    decreases t.len(),
{
    if t.len() == 0 {
        Seq::empty()
    } else {
        let rest = spec_neighbor_ids(t.drop_last(), pos);
        if spec_near(t.last().position@, pos) {
            rest.push(t.last().id)
        } else {
            rest
        }
    }
}

/// The neighbor set has exactly one id per in-radius entry.
pub proof fn lemma_neighbor_ids_count(t: Seq<Table>, pos: V3)
    ensures
        spec_neighbor_ids(t, pos).len() == neighbor_count(t, pos),
    decreases t.len(),
{
    if t.len() > 0 {
        lemma_neighbor_ids_count(t.drop_last(), pos);
    }
}

/// Steering toward a desired velocity, clamped to the acceleration budget.
pub open spec fn steer_from_desired(desired: V3, vel: V3) -> V3 {
    desired.sub(vel).clamped(MAX_ACCELERATION as int)
}

/// Cohesion: steer toward the average position of the in-radius neighbors
/// at full speed; with no neighbors the desired velocity is zero.
pub open spec fn spec_cohesion_force(t: Seq<Table>, pos: V3, vel: V3) -> V3 {
    let cnt = neighbor_count(t, pos);
    let desired = if cnt == 0 {
        V3::zero()
    } else {
        neighbor_pos_sum(t, pos).scaled(1, cnt).sub(pos).renormed(MAX_SPEED as int)
    };
    steer_from_desired(desired, vel)
}

/// Separation: steer along the average away-pointing unit vector at full
/// speed; with no neighbors the desired velocity is zero.
pub open spec fn spec_separation_force(t: Seq<Table>, pos: V3, vel: V3) -> V3 {
    let cnt = neighbor_count(t, pos);
    let desired = if cnt == 0 {
        V3::zero()
    } else {
        neighbor_away_sum(t, pos).scaled(1, cnt).renormed(MAX_SPEED as int)
    };
    steer_from_desired(desired, vel)
}

/// Alignment: steer toward the average velocity of the in-radius neighbors
/// at full speed; with no neighbors the desired velocity is zero.
pub open spec fn spec_align_force(t: Seq<Table>, pos: V3, vel: V3) -> V3 {
    let cnt = neighbor_count(t, pos);
    let desired = if cnt == 0 {
        V3::zero()
    } else {
        neighbor_vel_sum(t, pos).scaled(1, cnt).renormed(MAX_SPEED as int)
    };
    steer_from_desired(desired, vel)
}

/// Goal-seeking: the direct (unclamped) steering toward the goal, or zero
/// when no goal is set.
pub open spec fn spec_target_force(target: Option<Vec3>, pos: V3, vel: V3) -> V3 {
    match target {
        None => V3::zero(),
        Some(t) => t@.sub(pos).sub(vel),
    }
}

/// An observation whose numbers the steering rules can consume; gossip
/// carrying anything else is discarded rather than trusted.
pub open spec fn payload_ok(p: Payload) -> bool {
    &&& p.position@.in_bounds(POS_LIMIT as int)
    &&& p.velocity@.norm_sq() <= MAX_SPEED * MAX_SPEED
}

/// Apply one observation: refresh the matching entry's cached state.
/// Unknown ids are ignored (never inserted), as are unusable snapshots.
pub open spec fn refresh_one(t: Seq<Table>, p: Payload) -> Seq<Table> {
    if table_has_id(t, p.id) && payload_ok(p) {
        t.update(
            table_index_of(t, p.id),
            Table { id: p.id, position: p.position, velocity: p.velocity },
        )
    } else {
        t
    }
}

/// Apply a batch of observations in order (a later observation of the same
/// peer wins).
pub open spec fn refresh(t: Seq<Table>, obs: Seq<Payload>) -> Seq<Table>
    decreases obs.len(),
{
    if obs.len() == 0 {
        t
    } else {
        refresh_one(refresh(t, obs.drop_last()), obs.last())
    }
}

/// The ids of the table entries, in table order.
pub open spec fn table_ids(t: Seq<Table>) -> Seq<u32> {
    Seq::new(t.len(), |i: int| t[i].id)
}

/// The relay fanout: ids of entries within perception radius of `pos` that
/// are not yet in `seen`, in table order.
pub open spec fn spec_send_list(t: Seq<Table>, pos: V3, seen: Seq<u32>) -> Seq<u32>
    decreases t.len(),
{
    if t.len() == 0 {
        Seq::empty()
    } else {
        let rest = spec_send_list(t.drop_last(), pos, seen);
        if spec_near(t.last().position@, pos) && !seen.contains(t.last().id) {
            rest.push(t.last().id)
        } else {
            rest
        }
    }
}

/// Separation pushes away: for an agent at rest whose table holds exactly
/// one entry, within perception radius at a position distinct from the
/// agent's own, the separation force has a positive component along the
/// direction pointing away from that neighbor's cached position.
pub proof fn lemma_separation_away(t: Seq<Table>, pos: V3)
    requires
        t.len() == 1,
        spec_near(t[0].position@, pos),
        t[0].position@ != pos,
    ensures
        spec_separation_force(t, pos, V3::zero()).dot(pos.sub(t[0].position@)) > 0,
{
    let b = t[0].position@;
    let d = pos.sub(b);
    assert(d.norm_sq() >= 1) by {
        if d.x == 0 && d.y == 0 && d.z == 0 {
            assert(b == pos);
        }
        if d.x != 0 {
            assert(d.norm_sq() >= 1) by (nonlinear_arith)
                requires
                    d.x != 0 && d.norm_sq() == d.x * d.x + d.y * d.y + d.z * d.z,
            ;
        } else if d.y != 0 {
            assert(d.norm_sq() >= 1) by (nonlinear_arith)
                requires
                    d.y != 0 && d.norm_sq() == d.x * d.x + d.y * d.y + d.z * d.z,
            ;
        } else {
            assert(d.norm_sq() >= 1) by (nonlinear_arith)
                requires
                    d.z != 0 && d.norm_sq() == d.x * d.x + d.y * d.y + d.z * d.z,
            ;
        }
    }
    assert(t.drop_last().len() == 0);
    assert(t.last() == t[0]);
    assert(neighbor_count(t.drop_last(), pos) == 0);
    assert(neighbor_away_sum(t.drop_last(), pos) == V3::zero());
    assert(neighbor_count(t, pos) == 1);
    let u = d.renormed(UNIT as int);
    assert(neighbor_away_sum(t, pos) == V3::zero().add(u));
    assert(V3::zero().add(u) == u);
    crate::vec3::lemma_tdiv_by_one(u.x);
    crate::vec3::lemma_tdiv_by_one(u.y);
    crate::vec3::lemma_tdiv_by_one(u.z);
    assert(u.x * 1 == u.x && u.y * 1 == u.y && u.z * 1 == u.z);
    assert(u.scaled(1, 1) == u);
    crate::vec3::lemma_renorm_direction(d, UNIT as int);
    crate::vec3::lemma_pos_dot_nonzero(u, d);
    let desired = u.renormed(MAX_SPEED as int);
    crate::vec3::lemma_sqrt_ceil(u.norm_sq());
    let dd = crate::vec3::sqrt_ceil(u.norm_sq());
    assert(dd >= 1) by (nonlinear_arith)
        requires
            dd >= 0 && dd * dd >= u.norm_sq() && u.norm_sq() >= 1,
    ;
    crate::vec3::lemma_scaled_norm(u, MAX_SPEED as int, dd);
    assert(desired.norm_sq() <= MAX_SPEED * MAX_SPEED);
    assert(desired.sub(V3::zero()) == desired);
    assert(spec_separation_force(t, pos, V3::zero()) == desired.clamped(
        MAX_ACCELERATION as int,
    ));
    assert(spec_separation_force(t, pos, V3::zero()) == desired);
    crate::vec3::lemma_renorm_twice_direction(d, UNIT as int, MAX_SPEED as int);
}

/// The acceleration one update accumulates: the four forces with their
/// fixed relative weights (alignment 1.1, cohesion 1, separation 100,
/// goal-seeking 0.01), summed in that order.
pub open spec fn spec_combined_acc(a: Agent) -> V3 {
    let pos = a.transform.spec_pos();
    let vel = a.velocity@;
    let align = spec_align_force(a.table@, pos, vel).scaled(11, 10);
    let coh = spec_cohesion_force(a.table@, pos, vel);
    let sep = spec_separation_force(a.table@, pos, vel).scaled(100, 1);
    let tgt = spec_target_force(a.target, pos, vel).scaled(1, 100);
    align.add(coh).add(sep).add(tgt)
}

/// The velocity after one update: old velocity plus the accumulated
/// acceleration, clamped to the speed limit.
pub open spec fn spec_updated_velocity(a: Agent) -> V3 {
    a.velocity@.add(spec_combined_acc(a)).clamped(MAX_SPEED as int)
}

/// How one steering tick relates an agent's state before and after it.
pub open spec fn stepped(a0: Agent, a1: Agent) -> bool {
    &&& a1.wf()
    &&& a1.velocity@ == spec_updated_velocity(a0)
    &&& a1.velocity@.norm_sq() <= MAX_SPEED * MAX_SPEED
    &&& a1.transform.spec_pos() == clamp_pos(a0.transform.spec_pos().add(a1.velocity@))
    &&& a1.transform.spec_scale() == a0.transform.spec_scale()
    &&& a1.transform.spec_rotation() == a0.transform.spec_rotation()
    &&& a1.acceleration@ == V3::zero()
    &&& a1.id == a0.id
    &&& a1.target == a0.target
    &&& a1.table == a0.table
    &&& a1.render_type == a0.render_type
}

/// Gossip never inserts or removes table entries: a refresh keeps the
/// length and, entry by entry, the id.
pub proof fn lemma_refresh_one_ids(t: Seq<Table>, p: Payload)
    ensures
        refresh_one(t, p).len() == t.len(),
        forall|k: int| 0 <= k < t.len() ==> (#[trigger] refresh_one(t, p)[k]).id == t[k].id,
{
    if table_has_id(t, p.id) && payload_ok(p) {
        let ix = table_index_of(t, p.id);
        assert(0 <= ix < t.len() && t[ix].id == p.id);
    }
}

/// Gossip never inserts or removes table entries, over a whole batch of
/// observations.
pub proof fn lemma_refresh_ids(t: Seq<Table>, obs: Seq<Payload>)
    ensures
        refresh(t, obs).len() == t.len(),
        forall|k: int| 0 <= k < t.len() ==> (#[trigger] refresh(t, obs)[k]).id == t[k].id,
    decreases obs.len(),
{
    if obs.len() > 0 {
        lemma_refresh_ids(t, obs.drop_last());
        lemma_refresh_one_ids(refresh(t, obs.drop_last()), obs.last());
    }
}

/// Convergence of one gossip delivery: after a batch of observations is
/// applied to a table with distinct ids, the entry for a peer whose usable
/// observation the batch holds — with no later observation of the same
/// peer — carries exactly the observed position and velocity.
pub proof fn lemma_refresh_applies(t: Seq<Table>, obs: Seq<Payload>, j: int)
    requires
        ids_distinct(t),
        0 <= j < obs.len(),
        payload_ok(obs[j]),
        table_has_id(t, obs[j].id),
        forall|k: int| j < k < obs.len() ==> (#[trigger] obs[k]).id != obs[j].id,
    ensures
        refresh(t, obs).len() == t.len(),
        table_has_id(refresh(t, obs), obs[j].id),
        entry_for(refresh(t, obs), obs[j].id) == (Table {
            id: obs[j].id,
            position: obs[j].position,
            velocity: obs[j].velocity,
        }),
    decreases obs.len(),
{
    let id = obs[j].id;
    let r0 = refresh(t, obs.drop_last());
    let r = refresh(t, obs);
    lemma_refresh_ids(t, obs.drop_last());
    lemma_refresh_ids(t, obs);
    assert(ids_distinct(r0)) by {
        assert forall|a: int, b: int| 0 <= a < b < r0.len() implies (#[trigger] r0[a]).id != (
        #[trigger] r0[b]).id by {
            assert(t[a].id != t[b].id);
        }
    }
    assert(r == refresh_one(r0, obs.last()));
    let i0 = table_index_of(t, id);
    assert(0 <= i0 < t.len() && t[i0].id == id);
    if j == obs.len() - 1 {
        assert(obs.last() == obs[j]);
        lemma_index_of_unique(r0, id, i0);
        assert(table_has_id(r0, id));
        let e = Table { id, position: obs[j].position, velocity: obs[j].velocity };
        assert(r == r0.update(i0, e));
        assert(ids_distinct(r)) by {
            assert forall|a: int, b: int| 0 <= a < b < r.len() implies (#[trigger] r[a]).id != (
            #[trigger] r[b]).id by {
                assert(t[a].id != t[b].id);
            }
        }
        lemma_index_of_unique(r, id, i0);
        assert(entry_for(r, id) == e);
    } else {
        assert(obs.drop_last()[j] == obs[j]);
        lemma_refresh_applies(t, obs.drop_last(), j);
        assert(ids_distinct(r)) by {
            assert forall|a: int, b: int| 0 <= a < b < r.len() implies (#[trigger] r[a]).id != (
            #[trigger] r[b]).id by {
                assert(t[a].id != t[b].id);
            }
        }
        let e = Table { id, position: obs[j].position, velocity: obs[j].velocity };
        lemma_index_of_unique(r0, id, table_index_of(r0, id));
        let ix = table_index_of(r0, id);
        assert(r0[ix] == e);
        let last = obs.last();
        assert(last.id != id);
        if table_has_id(r0, last.id) && payload_ok(last) {
            let ix2 = table_index_of(r0, last.id);
            assert(0 <= ix2 < r0.len() && r0[ix2].id == last.id);
            assert(ix2 != ix);
            assert(r == r0.update(
                ix2,
                Table { id: last.id, position: last.position, velocity: last.velocity },
            ));
            assert(r[ix] == e);
            lemma_index_of_unique(r, id, ix);
            assert(entry_for(r, id) == e);
        } else {
            assert(r == r0);
        }
    }
}

/// Convergence of a whole broadcast cycle in a static population: when
/// the usable observations of distinct, known peers are all applied —
/// in any order, in one batch or one wave at a time, which `refresh`
/// composes the same way — every one of those peers' entries ends at
/// exactly the state that peer broadcast in this cycle.
pub proof fn lemma_cycle_convergence(t: Seq<Table>, waves: Seq<Payload>)
    requires
        ids_distinct(t),
        forall|k: int| 0 <= k < waves.len() ==> payload_ok(#[trigger] waves[k]),
        forall|k: int| 0 <= k < waves.len() ==> table_has_id(t, (#[trigger] waves[k]).id),
        forall|k1: int, k2: int|
            0 <= k1 < k2 < waves.len() ==> (#[trigger] waves[k1]).id != (#[trigger] waves[k2]).id,
    ensures
        refresh(t, waves).len() == t.len(),
        forall|k: int|
            0 <= k < waves.len() ==> table_has_id(refresh(t, waves), (#[trigger] waves[k]).id),
        forall|k: int|
            0 <= k < waves.len() ==> entry_for(refresh(t, waves), (#[trigger] waves[k]).id)
                == (Table {
                id: waves[k].id,
                position: waves[k].position,
                velocity: waves[k].velocity,
            }),
{
    lemma_refresh_ids(t, waves);
    assert forall|k: int| 0 <= k < waves.len() implies table_has_id(
        refresh(t, waves),
        (#[trigger] waves[k]).id,
    ) && entry_for(refresh(t, waves), waves[k].id) == (Table {
        id: waves[k].id,
        position: waves[k].position,
        velocity: waves[k].velocity,
    }) by {
        lemma_refresh_applies(t, waves, k);
    }
}

/// The relay fanout never repeats an id, never names anyone already in
/// `seen`, never names `own`, and only names table entries.
pub proof fn lemma_send_list_props(t: Seq<Table>, pos: V3, seen: Seq<u32>, own: u32)
    requires
        table_wf(t, own),
    ensures
        no_dups(spec_send_list(t, pos, seen)),
        forall|k: int|
            0 <= k < spec_send_list(t, pos, seen).len() ==> !seen.contains(
                #[trigger] spec_send_list(t, pos, seen)[k],
            ),
        forall|k: int|
            0 <= k < spec_send_list(t, pos, seen).len() ==> spec_send_list(t, pos, seen)[k] != own,
        forall|k: int|
            0 <= k < spec_send_list(t, pos, seen).len() ==> table_has_id(
                t,
                spec_send_list(t, pos, seen)[k],
            ),
    decreases t.len(),
{
    if t.len() > 0 {
        let t0 = t.drop_last();
        assert(table_wf(t0, own)) by {
            assert forall|i: int| 0 <= i < t0.len() implies (#[trigger] t0[i]).id != own && entry_ok(
                t0[i],
            ) by {
                assert(t0[i] == t[i]);
            }
            assert forall|i: int, j: int| 0 <= i < j < t0.len() implies (#[trigger] t0[i]).id != (
            #[trigger] t0[j]).id by {
                assert(t0[i] == t[i] && t0[j] == t[j]);
            }
        }
        lemma_send_list_props(t0, pos, seen, own);
        let rest = spec_send_list(t0, pos, seen);
        let sl = spec_send_list(t, pos, seen);
        let last = t.last();
        assert forall|k: int| 0 <= k < rest.len() implies table_has_id(t, #[trigger] rest[k]) by {
            assert(table_has_id(t0, rest[k]));
            let w = table_index_of(t0, rest[k]);
            assert(0 <= w < t0.len() && t0[w].id == rest[k]);
            assert(t[w].id == rest[k]);
        }
        if spec_near(last.position@, pos) && !seen.contains(last.id) {
            assert(sl == rest.push(last.id));
            assert forall|k: int| 0 <= k < rest.len() implies (#[trigger] rest[k]) != last.id by {
                assert(table_has_id(t0, rest[k]));
                let w = table_index_of(t0, rest[k]);
                assert(0 <= w < t0.len() && t0[w].id == rest[k]);
                assert(t[w].id != t[t.len() - 1].id);
            }
            assert forall|a: int, b: int| 0 <= a < b < sl.len() implies sl[a] != sl[b] by {
                if b < rest.len() {
                    assert(rest[a] != rest[b]);
                } else {
                    assert(sl[b] == last.id && sl[a] == rest[a]);
                }
            }
            assert(last.id == t[t.len() - 1].id);
            assert(table_has_id(t, last.id));
        } else {
            assert(sl == rest);
        }
    }
}

/// What one protocol step asks the host loop to transmit: the message and
/// the ids of the mailboxes it goes to.
pub struct Outbound {
    pub recipients: Vec<u32>,
    pub message: Message,
}

/// One autonomous flocking unit.
pub struct Agent {
    pub id: u32,
    pub transform: Transform,
    pub velocity: Vec3,
    pub acceleration: Vec3,
    pub target: Option<Vec3>,
    pub render_type: RenderType,
    pub table: Vec<Table>,
}

impl Agent {
    /// The invariant every constructed agent satisfies between calls:
    /// bounded pose and velocity, acceleration drained, bounded goal, and a
    /// well-formed neighbor table.
    pub open spec fn wf(self) -> bool {
        &&& self.transform.wf()
        &&& self.velocity@.norm_sq() <= MAX_SPEED * MAX_SPEED
        &&& self.acceleration@ == V3::zero()
        &&& (self.target matches Some(t) ==> t@.in_bounds(POS_LIMIT as int))
        &&& table_wf(self.table@, self.id)
    }

    /// A fresh agent at `pos`: at rest, no goal, empty table, drawn as a
    /// dynamic instance. Ids are assigned by the caller (the swarm), which
    /// keeps them unique without hidden global state.
    pub fn new(id: u32, pos: Vec3) -> (a: Agent)
        requires
            pos@.in_bounds(POS_LIMIT as int),
        ensures
            a.wf(),
            a.id == id,
            a.transform.spec_pos() == pos@,
            a.transform.spec_scale() == (V3 { x: UNIT as int, y: UNIT as int, z: UNIT as int }),
            a.transform.spec_rotation() == Rotation::spec_default(),
            a.transform.wf(),
            a.velocity@ == V3::zero(),
            a.acceleration@ == V3::zero(),
            a.target is None,
            a.render_type == RenderType::DYNAMIC,
            a.table@ == Seq::<Table>::empty(),
    {
        Agent {
            id,
            transform: Transform::with_pos(pos),
            velocity: Vec3::zero(),
            acceleration: Vec3::zero(),
            target: None,
            render_type: RenderType::DYNAMIC,
            table: Vec::new(),
        }
    }

    /// `q` lies strictly within the perception radius of `p`, executably.
    fn is_near(q: &Vec3, p: &Vec3) -> (r: bool)
        requires
            q@.in_bounds(POS_LIMIT as int),
            p@.in_bounds(POS_LIMIT as int),
        ensures
            r == spec_near(q@, p@),
    {
        let d = q.sub(p);
        let n = d.norm_sq();
        n < PERCEPTION_RADIUS_SQ
    }

    /// One component of an average: `s / cnt`, truncating, bounded by `b`
    /// whenever every summand was.
    fn avg_comp(s: i128, cnt: i64, b: i64) -> (r: i64)
        requires
            cnt >= 1,
            b >= 0,
            -(cnt * b) <= s <= cnt * b,
        ensures
            r == crate::vec3::tdiv(s as int, cnt as int),
            -b <= r <= b,
    {
        proof {
            assert(s as int > i128::MIN) by (nonlinear_arith)
                requires
                    1 <= cnt <= 0x7fff_ffff_ffff_ffffi64 && 0 <= b <= 0x7fff_ffff_ffff_ffffi64 && -(
                    cnt * b) <= s,
            ;
        }
        let q = crate::vec3::div_trunc_i128(s, cnt as i128);
        proof {
            crate::vec3::lemma_tdiv_basics(s as int, cnt as int);
            let t = crate::vec3::tdiv(s as int, cnt as int);
            assert(-b <= t <= b) by (nonlinear_arith)
                requires
                    cnt >= 1 && b >= 0 && (cnt as int) * vstd::math::abs(t) <= vstd::math::abs(
                        s as int,
                    ) && -(cnt * b) <= s <= cnt * b,
            ;
        }
        q as i64
    }

    /// Cohesion: steer toward the average position of the in-radius
    /// neighbors, at full speed, within the acceleration budget.
    pub fn get_cohesion_force(&self) -> (f: Vec3)
        requires
            self.wf(),
        ensures
            f@ == spec_cohesion_force(self.table@, self.transform.spec_pos(), self.velocity@),
            f@.norm_sq() <= MAX_ACCELERATION * MAX_ACCELERATION,
            f@.in_bounds(COORD_LIMIT as int),
    {
        let pos = self.transform.get_pos();
        proof {
            crate::transform::lemma_wf_bounds(self.transform);
        }
        let mut sx: i128 = 0;
        let mut sy: i128 = 0;
        let mut sz: i128 = 0;
        let mut cnt: i64 = 0;
        let mut i: usize = 0;
        while i < self.table.len()
            invariant
                self.wf(),
                i <= self.table.len(),
                pos@ == self.transform.spec_pos(),
                pos@.in_bounds(POS_LIMIT as int),
                cnt == neighbor_count(self.table@.take(i as int), pos@),
                (V3 { x: sx as int, y: sy as int, z: sz as int }) == neighbor_pos_sum(
                    self.table@.take(i as int),
                    pos@,
                ),
                0 <= cnt <= i,
                -(cnt * POS_LIMIT) <= sx <= cnt * POS_LIMIT,
                -(cnt * POS_LIMIT) <= sy <= cnt * POS_LIMIT,
                -(cnt * POS_LIMIT) <= sz <= cnt * POS_LIMIT,
            decreases self.table.len() - i,
        {
            let e = self.table[i];
            proof {
                assert(entry_ok(self.table@[i as int]));
                assert(self.table@.take(i as int + 1).drop_last() =~= self.table@.take(i as int));
                assert(self.table@.take(i as int + 1).last() == self.table@[i as int]);
            }
            if Self::is_near(&e.position, &pos) {
                sx = sx + e.position.x as i128;
                sy = sy + e.position.y as i128;
                sz = sz + e.position.z as i128;
                cnt = cnt + 1;
            }
            i += 1;
        }
        proof {
            assert(self.table@.take(self.table@.len() as int) =~= self.table@);
        }
        let desired = if cnt == 0 {
            Vec3::zero()
        } else {
            let avg = Vec3 {
                x: Self::avg_comp(sx, cnt, POS_LIMIT),
                y: Self::avg_comp(sy, cnt, POS_LIMIT),
                z: Self::avg_comp(sz, cnt, POS_LIMIT),
            };
            proof {
                assert(sx as int * 1 == sx as int);
                assert(sy as int * 1 == sy as int);
                assert(sz as int * 1 == sz as int);
                assert(avg@ == neighbor_pos_sum(self.table@, pos@).scaled(1, cnt as int));
            }
            let dir = avg.sub(&pos);
            dir.renorm(MAX_SPEED)
        };
        proof {
            crate::vec3::lemma_square_bounds(0, MAX_SPEED as int);
            crate::vec3::lemma_norm_comp_bound(desired@, MAX_SPEED as int);
            crate::vec3::lemma_norm_comp_bound(self.velocity@, MAX_SPEED as int);
        }
        let steer = desired.sub(&self.velocity);
        steer.clamp_norm(MAX_ACCELERATION)
    }

    /// Separation: steer away from the in-radius neighbors, along the
    /// average of the away-pointing unit vectors.
    pub fn get_seperation_force(&self) -> (f: Vec3)
        requires
            self.wf(),
        ensures
            f@ == spec_separation_force(self.table@, self.transform.spec_pos(), self.velocity@),
            f@.norm_sq() <= MAX_ACCELERATION * MAX_ACCELERATION,
            f@.in_bounds(COORD_LIMIT as int),
    {
        let pos = self.transform.get_pos();
        proof {
            crate::transform::lemma_wf_bounds(self.transform);
        }
        let mut sx: i128 = 0;
        let mut sy: i128 = 0;
        let mut sz: i128 = 0;
        let mut cnt: i64 = 0;
        let mut i: usize = 0;
        while i < self.table.len()
            invariant
                self.wf(),
                i <= self.table.len(),
                pos@ == self.transform.spec_pos(),
                pos@.in_bounds(POS_LIMIT as int),
                cnt == neighbor_count(self.table@.take(i as int), pos@),
                (V3 { x: sx as int, y: sy as int, z: sz as int }) == neighbor_away_sum(
                    self.table@.take(i as int),
                    pos@,
                ),
                0 <= cnt <= i,
                -(cnt * UNIT) <= sx <= cnt * UNIT,
                -(cnt * UNIT) <= sy <= cnt * UNIT,
                -(cnt * UNIT) <= sz <= cnt * UNIT,
            decreases self.table.len() - i,
        {
            let e = self.table[i];
            proof {
                assert(entry_ok(self.table@[i as int]));
                assert(self.table@.take(i as int + 1).drop_last() =~= self.table@.take(i as int));
                assert(self.table@.take(i as int + 1).last() == self.table@[i as int]);
            }
            if Self::is_near(&e.position, &pos) {
                let away = pos.sub(&e.position).renorm(UNIT);
                proof {
                    crate::vec3::lemma_norm_comp_bound(away@, UNIT as int);
                }
                sx = sx + away.x as i128;
                sy = sy + away.y as i128;
                sz = sz + away.z as i128;
                cnt = cnt + 1;
            }
            i += 1;
        }
        proof {
            assert(self.table@.take(self.table@.len() as int) =~= self.table@);
        }
        let desired = if cnt == 0 {
            Vec3::zero()
        } else {
            let avg = Vec3 {
                x: Self::avg_comp(sx, cnt, UNIT),
                y: Self::avg_comp(sy, cnt, UNIT),
                z: Self::avg_comp(sz, cnt, UNIT),
            };
            proof {
                assert(sx as int * 1 == sx as int);
                assert(sy as int * 1 == sy as int);
                assert(sz as int * 1 == sz as int);
                assert(avg@ == neighbor_away_sum(self.table@, pos@).scaled(1, cnt as int));
            }
            avg.renorm(MAX_SPEED)
        };
        proof {
            crate::vec3::lemma_square_bounds(0, MAX_SPEED as int);
            crate::vec3::lemma_norm_comp_bound(desired@, MAX_SPEED as int);
            crate::vec3::lemma_norm_comp_bound(self.velocity@, MAX_SPEED as int);
        }
        let steer = desired.sub(&self.velocity);
        steer.clamp_norm(MAX_ACCELERATION)
    }

    /// Alignment: steer toward the average velocity of the in-radius
    /// neighbors.
    pub fn get_align_force(&self) -> (f: Vec3)
        requires
            self.wf(),
        ensures
            f@ == spec_align_force(self.table@, self.transform.spec_pos(), self.velocity@),
            f@.norm_sq() <= MAX_ACCELERATION * MAX_ACCELERATION,
            f@.in_bounds(COORD_LIMIT as int),
    {
        let pos = self.transform.get_pos();
        proof {
            crate::transform::lemma_wf_bounds(self.transform);
        }
        let mut sx: i128 = 0;
        let mut sy: i128 = 0;
        let mut sz: i128 = 0;
        let mut cnt: i64 = 0;
        let mut i: usize = 0;
        while i < self.table.len()
            invariant
                self.wf(),
                i <= self.table.len(),
                pos@ == self.transform.spec_pos(),
                pos@.in_bounds(POS_LIMIT as int),
                cnt == neighbor_count(self.table@.take(i as int), pos@),
                (V3 { x: sx as int, y: sy as int, z: sz as int }) == neighbor_vel_sum(
                    self.table@.take(i as int),
                    pos@,
                ),
                0 <= cnt <= i,
                -(cnt * MAX_SPEED) <= sx <= cnt * MAX_SPEED,
                -(cnt * MAX_SPEED) <= sy <= cnt * MAX_SPEED,
                -(cnt * MAX_SPEED) <= sz <= cnt * MAX_SPEED,
            decreases self.table.len() - i,
        {
            let e = self.table[i];
            proof {
                assert(entry_ok(self.table@[i as int]));
                crate::vec3::lemma_norm_comp_bound(
                    self.table@[i as int].velocity@,
                    MAX_SPEED as int,
                );
                assert(self.table@.take(i as int + 1).drop_last() =~= self.table@.take(i as int));
                assert(self.table@.take(i as int + 1).last() == self.table@[i as int]);
            }
            if Self::is_near(&e.position, &pos) {
                sx = sx + e.velocity.x as i128;
                sy = sy + e.velocity.y as i128;
                sz = sz + e.velocity.z as i128;
                cnt = cnt + 1;
            }
            i += 1;
        }
        proof {
            assert(self.table@.take(self.table@.len() as int) =~= self.table@);
        }
        let desired = if cnt == 0 {
            Vec3::zero()
        } else {
            let avg = Vec3 {
                x: Self::avg_comp(sx, cnt, MAX_SPEED),
                y: Self::avg_comp(sy, cnt, MAX_SPEED),
                z: Self::avg_comp(sz, cnt, MAX_SPEED),
            };
            proof {
                assert(sx as int * 1 == sx as int);
                assert(sy as int * 1 == sy as int);
                assert(sz as int * 1 == sz as int);
                assert(avg@ == neighbor_vel_sum(self.table@, pos@).scaled(1, cnt as int));
            }
            avg.renorm(MAX_SPEED)
        };
        proof {
            crate::vec3::lemma_square_bounds(0, MAX_SPEED as int);
            crate::vec3::lemma_norm_comp_bound(desired@, MAX_SPEED as int);
            crate::vec3::lemma_norm_comp_bound(self.velocity@, MAX_SPEED as int);
        }
        let steer = desired.sub(&self.velocity);
        steer.clamp_norm(MAX_ACCELERATION)
    }

    /// The ids of the table entries currently within perception radius:
    /// exactly the neighbor set cohesion, separation and alignment use.
    pub fn neighbors_in_radius(&self) -> (ids: Vec<u32>)
        requires
            self.wf(),
        ensures
            ids@ == spec_neighbor_ids(self.table@, self.transform.spec_pos()),
            ids@.len() == neighbor_count(self.table@, self.transform.spec_pos()),
    {
        let pos = self.transform.get_pos();
        proof {
            crate::transform::lemma_wf_bounds(self.transform);
        }
        let mut ids: Vec<u32> = Vec::new();
        let mut i: usize = 0;
        while i < self.table.len()
            invariant
                self.wf(),
                i <= self.table.len(),
                pos@ == self.transform.spec_pos(),
                pos@.in_bounds(POS_LIMIT as int),
                ids@ == spec_neighbor_ids(self.table@.take(i as int), pos@),
            decreases self.table.len() - i,
        {
            let e = self.table[i];
            proof {
                assert(entry_ok(self.table@[i as int]));
                assert(self.table@.take(i as int + 1).drop_last() =~= self.table@.take(i as int));
                assert(self.table@.take(i as int + 1).last() == self.table@[i as int]);
            }
            if Self::is_near(&e.position, &pos) {
                ids.push(e.id);
            }
            i += 1;
        }
        proof {
            assert(self.table@.take(self.table@.len() as int) =~= self.table@);
            lemma_neighbor_ids_count(self.table@, pos@);
        }
        ids
    }

    /// Goal-seeking: steer straight at the goal; by design this force is
    /// not clamped to the acceleration budget.
    pub fn get_target_force(&self) -> (f: Vec3)
        requires
            self.wf(),
        ensures
            f@ == spec_target_force(self.target, self.transform.spec_pos(), self.velocity@),
            f@.in_bounds(2 * (POS_LIMIT as int) + MAX_SPEED as int),
            f@.in_bounds(COORD_LIMIT as int),
    {
        proof {
            crate::vec3::lemma_norm_comp_bound(self.velocity@, MAX_SPEED as int);
        }
        match self.target {
            None => Vec3::zero(),
            Some(t) => {
                let pos = self.transform.get_pos();
                proof {
                    crate::transform::lemma_wf_bounds(self.transform);
                }
                let desired = t.sub(&pos);
                desired.sub(&self.velocity)
            },
        }
    }

    /// Linear scan of a deduplication list.
    fn contains_id(s: &Vec<u32>, id: u32) -> (r: bool)
        ensures
            r == s@.contains(id),
    {
        let mut i: usize = 0;
        while i < s.len()
            invariant
                i <= s@.len(),
                forall|k: int| 0 <= k < i ==> s@[k] != id,
            decreases s@.len() - i,
        {
            if s[i] == id {
                proof {
                    assert(s@[i as int] == id);
                }
                return true;
            }
            i += 1;
        }
        false
    }

    /// Apply one observation to the table, executably.
    fn refresh_entry(&mut self, p: Payload)
        requires
            old(self).wf(),
        ensures
            final(self).wf(),
            final(self).table@ == refresh_one(old(self).table@, p),
            final(self).id == old(self).id,
            final(self).transform == old(self).transform,
            final(self).velocity == old(self).velocity,
            final(self).acceleration == old(self).acceleration,
            final(self).target == old(self).target,
            final(self).render_type == old(self).render_type,
    {
        let pos_ok = -POS_LIMIT <= p.position.x && p.position.x <= POS_LIMIT && -POS_LIMIT
            <= p.position.y && p.position.y <= POS_LIMIT && -POS_LIMIT <= p.position.z
            && p.position.z <= POS_LIMIT;
        if !pos_ok {
            return ;
        }
        let vel_comp_ok = -MAX_SPEED <= p.velocity.x && p.velocity.x <= MAX_SPEED && -MAX_SPEED
            <= p.velocity.y && p.velocity.y <= MAX_SPEED && -MAX_SPEED <= p.velocity.z
            && p.velocity.z <= MAX_SPEED;
        if !vel_comp_ok {
            proof {
                if p.velocity@.norm_sq() <= MAX_SPEED * MAX_SPEED {
                    crate::vec3::lemma_norm_comp_bound(p.velocity@, MAX_SPEED as int);
                }
            }
            return ;
        }
        let vel_ok = p.velocity.norm_sq() <= MAX_SPEED_SQ;
        if !vel_ok {
            return ;
        }
        let ghost t0 = self.table@;
        let e = Table { id: p.id, position: p.position, velocity: p.velocity };
        let mut i: usize = 0;
        while i < self.table.len()
            invariant
                i <= self.table.len(),
                self.table@ == t0,
                t0 == old(self).table@,
                old(self).wf(),
                payload_ok(p),
                e == (Table { id: p.id, position: p.position, velocity: p.velocity }),
                self.id == old(self).id,
                self.transform == old(self).transform,
                self.velocity == old(self).velocity,
                self.acceleration == old(self).acceleration,
                self.target == old(self).target,
                self.render_type == old(self).render_type,
                forall|k: int| 0 <= k < i ==> (#[trigger] t0[k]).id != p.id,
            decreases self.table.len() - i,
        {
            if self.table[i].id == p.id {
                let ghost ii = i as int;
                proof {
                    assert(t0[ii].id != old(self).id);
                }
                self.table[i] = e;
                proof {
                    assert(t0[ii].id == p.id);
                    assert(table_has_id(t0, p.id));
                    let j = table_index_of(t0, p.id);
                    assert(0 <= j < t0.len() && t0[j].id == p.id);
                    assert(j == ii) by {
                        if j < ii {
                            assert(t0[j].id != t0[ii].id);
                        }
                        if ii < j {
                            assert(t0[ii].id != t0[j].id);
                        }
                    }
                    assert(self.table@ == refresh_one(t0, p));
                    assert forall|k: int| 0 <= k < t0.len() && k != ii implies (
                    #[trigger] t0[k]).id != p.id by {
                        if ii < k {
                            assert(t0[ii].id != t0[k].id);
                        }
                    }
                    let t1 = self.table@;
                    assert forall|a: int, b: int| 0 <= a < b < t1.len() implies (
                    #[trigger] t1[a]).id != (#[trigger] t1[b]).id by {
                        if a != ii && b != ii {
                            assert(t0[a].id != t0[b].id);
                        }
                    }
                    assert(table_wf(t1, self.id));
                }
                return ;
            }
            i += 1;
        }
        proof {
            assert(!table_has_id(t0, p.id));
        }
    }

    /// The periodic heartbeat: broadcast the agent's own observation to
    /// every direct table entry (no radius gate on the heartbeat), with a
    /// deduplication list already naming the sender and every recipient.
    pub fn send_update_message(&self) -> (out: Outbound)
        requires
            self.wf(),
        ensures
            out.recipients@ == table_ids(self.table@),
            out.message matches Message::UPDATE { from, received_list, payload } && {
                &&& from == self.id
                &&& received_list@ == seq![self.id] + table_ids(self.table@)
                &&& no_dups(received_list@)
                &&& payload@.len() == 1
                &&& payload@[0].id == self.id
                &&& payload@[0].position@ == self.transform.spec_pos()
                &&& payload@[0].velocity == self.velocity
            },
    {
        let me = Payload::from_agent(self);
        let mut payload: Vec<Payload> = Vec::new();
        payload.push(me);
        let mut received_list: Vec<u32> = Vec::new();
        received_list.push(self.id);
        let mut recipients: Vec<u32> = Vec::new();
        let mut i: usize = 0;
        while i < self.table.len()
            invariant
                self.wf(),
                i <= self.table.len(),
                recipients@.len() == i,
                forall|k: int| 0 <= k < i ==> recipients@[k] == self.table@[k].id,
                received_list@.len() == i + 1,
                received_list@[0] == self.id,
                forall|k: int| 1 <= k < i + 1 ==> received_list@[k] == self.table@[k - 1].id,
                payload@.len() == 1,
                payload@[0] == me,
                me.id == self.id,
                me.position@ == self.transform.spec_pos(),
                me.velocity == self.velocity,
            decreases self.table.len() - i,
        {
            let e = self.table[i];
            recipients.push(e.id);
            received_list.push(e.id);
            i += 1;
        }
        proof {
            assert(recipients@ =~= table_ids(self.table@));
            assert(received_list@ =~= seq![self.id] + table_ids(self.table@));
            let rl = received_list@;
            assert forall|a: int, b: int| 0 <= a < b < rl.len() implies rl[a] != rl[b] by {
                if a == 0 {
                    assert(rl[b] == self.table@[b - 1].id);
                    assert(self.table@[b - 1].id != self.id);
                } else {
                    assert(self.table@[a - 1].id != self.table@[b - 1].id);
                }
            }
        }
        Outbound {
            recipients,
            message: Message::UPDATE { from: self.id, received_list, payload },
        }
    }

    /// Handle one inbound message. A goal assignment sets the goal
    /// (clamped into the arena). A gossip wave from someone else refreshes
    /// the table from its observations and is relayed — extended with this
    /// agent's own observation, and with this agent's id where the
    /// deduplication list does not name it yet — to the in-radius neighbors
    /// not yet on that list; every such neighbor is added to the list
    /// before the wave leaves, so all forwards of one relay step carry the
    /// same list. Only a wave claiming to come from this agent itself (a
    /// stale echo of its own wave) is discarded unchanged.
    pub fn on_received(&mut self, msg: Message) -> (out: Option<Outbound>)
        requires
            old(self).wf(),
        ensures
            final(self).wf(),
            final(self).id == old(self).id,
            final(self).velocity == old(self).velocity,
            final(self).acceleration == old(self).acceleration,
            final(self).transform == old(self).transform,
            final(self).render_type == old(self).render_type,
            (msg matches Message::TASK { target } ==> {
                &&& final(self).table == old(self).table
                &&& (final(self).target matches Some(t2) && t2@ == clamp_pos(target@))
                &&& (target@.in_bounds(POS_LIMIT as int) ==> final(self).target == Some(target))
                &&& out is None
            }),
            (msg matches Message::UPDATE { from, received_list, payload } ==> (if (from == old(
                self,
            ).id) {
                &&& final(self).table == old(self).table
                &&& final(self).target == old(self).target
                &&& out is None
            } else {
                let t1 = refresh(old(self).table@, payload@);
                let seen1 = if received_list@.contains(old(self).id) {
                    received_list@
                } else {
                    received_list@.push(old(self).id)
                };
                let sl = spec_send_list(t1, old(self).transform.spec_pos(), seen1);
                &&& final(self).table@ == t1
                &&& final(self).target == old(self).target
                &&& (out matches Some(o) && {
                    &&& o.recipients@ == sl
                    &&& (o.message matches Message::UPDATE {
                        from: f2,
                        received_list: rl2,
                        payload: p2,
                    } && {
                        &&& f2 == old(self).id
                        &&& rl2@ == seen1 + sl
                        &&& p2@.len() == payload@.len() + 1
                        &&& p2@.take(payload@.len() as int) == payload@
                        &&& p2@.last().id == old(self).id
                        &&& p2@.last().position@ == old(self).transform.spec_pos()
                        &&& p2@.last().velocity == old(self).velocity
                        &&& (no_dups(received_list@) ==> no_dups(rl2@))
                    })
                })
            })),
    {
        match msg {
            Message::TASK { target } => {
                self.target = Some(crate::transform::clamp_to_arena(target));
                None
            },
            Message::UPDATE { from, received_list, payload } => {
                if from == self.id {
                    return None;
                }
                let ghost seen0 = received_list@;
                let ghost t_start = self.table@;
                let mut k: usize = 0;
                while k < payload.len()
                    invariant
                        self.wf(),
                        k <= payload@.len(),
                        self.table@ == refresh(t_start, payload@.take(k as int)),
                        t_start == old(self).table@,
                        self.id == old(self).id,
                        self.transform == old(self).transform,
                        self.velocity == old(self).velocity,
                        self.acceleration == old(self).acceleration,
                        self.target == old(self).target,
                        self.render_type == old(self).render_type,
                    decreases payload@.len() - k,
                {
                    let p = payload[k];
                    proof {
                        assert(payload@.take(k as int + 1).drop_last() =~= payload@.take(
                            k as int,
                        ));
                        assert(payload@.take(k as int + 1).last() == payload@[k as int]);
                    }
                    self.refresh_entry(p);
                    k += 1;
                }
                proof {
                    assert(payload@.take(payload@.len() as int) =~= payload@);
                }
                let me = Payload::from_agent(self);
                let mut new_payload = payload;
                new_payload.push(me);
                let mut new_seen = received_list;
                if !Self::contains_id(&new_seen, self.id) {
                    new_seen.push(self.id);
                }
                let ghost seen1 = new_seen@;
                let pos = self.transform.get_pos();
                proof {
                    crate::transform::lemma_wf_bounds(self.transform);
                }
                let mut recipients: Vec<u32> = Vec::new();
                let mut i: usize = 0;
                while i < self.table.len()
                    invariant
                        self.wf(),
                        i <= self.table.len(),
                        pos@ == self.transform.spec_pos(),
                        pos@.in_bounds(POS_LIMIT as int),
                        new_seen@ == seen1,
                        recipients@ == spec_send_list(self.table@.take(i as int), pos@, seen1),
                    decreases self.table.len() - i,
                {
                    let e = self.table[i];
                    proof {
                        assert(entry_ok(self.table@[i as int]));
                        assert(self.table@.take(i as int + 1).drop_last() =~= self.table@.take(
                            i as int,
                        ));
                        assert(self.table@.take(i as int + 1).last() == self.table@[i as int]);
                    }
                    if Self::is_near(&e.position, &pos) && !Self::contains_id(&new_seen, e.id) {
                        recipients.push(e.id);
                    }
                    i += 1;
                }
                proof {
                    assert(self.table@.take(self.table@.len() as int) =~= self.table@);
                }
                let ghost recips = recipients@;
                let mut j: usize = 0;
                while j < recipients.len()
                    invariant
                        j <= recipients@.len(),
                        recipients@ == recips,
                        new_seen@ == seen1 + recips.take(j as int),
                    decreases recipients@.len() - j,
                {
                    proof {
                        assert(seen1 + recips.take(j as int + 1) =~= (seen1 + recips.take(
                            j as int,
                        )).push(recips[j as int]));
                    }
                    let r = recipients[j];
                    new_seen.push(r);
                    j += 1;
                }
                proof {
                    assert(recips.take(recips.len() as int) =~= recips);
                    assert(new_seen@ == seen1 + recips);
                    assert(new_payload@.take(seen0.len() as int) == new_payload@.take(
                        seen0.len() as int,
                    ));
                    lemma_send_list_props(self.table@, pos@, seen1, self.id);
                    if no_dups(seen0) {
                        if seen0.contains(old(self).id) {
                            assert(seen1 == seen0);
                        } else {
                            assert(seen1 == seen0.push(old(self).id));
                            assert forall|a: int, b: int| 0 <= a < b < seen1.len() implies seen1[a]
                                != seen1[b] by {
                                if b == seen0.len() {
                                    assert(seen1[b] == old(self).id);
                                    if seen1[a] == old(self).id {
                                        assert(seen0[a] == old(self).id);
                                        assert(seen0.contains(old(self).id));
                                    }
                                } else {
                                    assert(seen0[a] != seen0[b]);
                                }
                            }
                        }
                        assert(no_dups(seen1));
                        let rl2 = seen1 + recips;
                        assert forall|a: int, b: int| 0 <= a < b < rl2.len() implies rl2[a]
                            != rl2[b] by {
                            if b < seen1.len() {
                                assert(seen1[a] != seen1[b]);
                            } else if a >= seen1.len() {
                                assert(rl2[a] == recips[a - seen1.len()]);
                                assert(rl2[b] == recips[b - seen1.len()]);
                            } else {
                                assert(rl2[b] == recips[b - seen1.len()]);
                                assert(!seen1.contains(recips[b - seen1.len()]));
                                if rl2[a] == rl2[b] {
                                    assert(seen1[a] == recips[b - seen1.len()]);
                                    assert(seen1.contains(recips[b - seen1.len()]));
                                }
                            }
                        }
                        assert(no_dups(rl2));
                    }
                }
                Some(
                    Outbound {
                        recipients,
                        message: Message::UPDATE {
                            from: self.id,
                            received_list: new_seen,
                            payload: new_payload,
                        },
                    },
                )
            },
        }
    }

    /// One steering tick: accumulate the four weighted forces, integrate
    /// the velocity (clamped to `MAX_SPEED`), move, and drain the
    /// acceleration for the next tick.
    pub fn update(&mut self)
        requires
            old(self).wf(),
        ensures
            final(self).wf(),
            final(self).velocity@ == spec_updated_velocity(*old(self)),
            final(self).velocity@.norm_sq() <= MAX_SPEED * MAX_SPEED,
            final(self).transform.spec_pos() == clamp_pos(
                old(self).transform.spec_pos().add(final(self).velocity@),
            ),
            final(self).transform.spec_scale() == old(self).transform.spec_scale(),
            final(self).transform.spec_rotation() == old(self).transform.spec_rotation(),
            final(self).acceleration@ == V3::zero(),
            final(self).id == old(self).id,
            final(self).target == old(self).target,
            final(self).render_type == old(self).render_type,
            final(self).table == old(self).table,
            stepped(*old(self), *final(self)),
    {
        let align = self.get_align_force();
        proof {
            crate::vec3::lemma_norm_comp_bound(align@, MAX_ACCELERATION as int);
        }
        let a_align = align.mul_div(11, 10);
        proof {
            crate::vec3::lemma_scaled_in_bounds(align@, 11, 10, 5_500);
        }
        let a_coh = self.get_cohesion_force();
        proof {
            crate::vec3::lemma_norm_comp_bound(a_coh@, MAX_ACCELERATION as int);
        }
        let sep = self.get_seperation_force();
        proof {
            crate::vec3::lemma_norm_comp_bound(sep@, MAX_ACCELERATION as int);
        }
        let a_sep = sep.mul_div(100, 1);
        proof {
            crate::vec3::lemma_scaled_in_bounds(sep@, 100, 1, 500_000);
        }
        let tgt = self.get_target_force();
        let a_tgt = tgt.mul_div(1, 100);
        proof {
            crate::vec3::lemma_scaled_in_bounds(tgt@, 1, 100, POS_LIMIT as int);
        }
        self.acceleration = self.acceleration.add(&a_align);
        self.acceleration = self.acceleration.add(&a_coh);
        self.acceleration = self.acceleration.add(&a_sep);
        self.acceleration = self.acceleration.add(&a_tgt);
        proof {
            assert(self.acceleration@ == spec_combined_acc(*old(self)));
        }
        proof {
            crate::vec3::lemma_norm_comp_bound(self.velocity@, MAX_SPEED as int);
        }
        let v1 = self.velocity.add(&self.acceleration);
        self.velocity = v1.clamp_norm(MAX_SPEED);
        self.transform.update_pos(self.velocity);
        proof {
            crate::vec3::lemma_norm_comp_bound(self.velocity@, MAX_SPEED as int);
        }
        self.acceleration = Vec3::zero();
    }

    /// Forget the table entry for a departed peer, if one exists. A peer
    /// whose mailbox has gone away is a recoverable condition: its stale
    /// entry is dropped and the agent carries on.
    pub fn remove_table_entry(&mut self, id: u32)
        requires
            old(self).wf(),
        ensures
            final(self).wf(),
            final(self).table@ == without_id(old(self).table@, id),
            final(self).id == old(self).id,
            final(self).transform == old(self).transform,
            final(self).velocity == old(self).velocity,
            final(self).acceleration == old(self).acceleration,
            final(self).target == old(self).target,
            final(self).render_type == old(self).render_type,
    {
        let ghost t0 = self.table@;
        let mut i: usize = 0;
        while i < self.table.len()
            invariant
                i <= self.table.len(),
                self.table@ == t0,
                t0 == old(self).table@,
                old(self).wf(),
                self.id == old(self).id,
                self.transform == old(self).transform,
                self.velocity == old(self).velocity,
                self.acceleration == old(self).acceleration,
                self.target == old(self).target,
                self.render_type == old(self).render_type,
                forall|k: int| 0 <= k < i ==> (#[trigger] t0[k]).id != id,
            decreases self.table.len() - i,
        {
            if self.table[i].id == id {
                let ghost ii = i as int;
                self.table.remove(i);
                proof {
                    lemma_index_of_unique(t0, id, ii);
                    assert(self.table@ == without_id(t0, id));
                    let t1 = self.table@;
                    assert forall|a: int| 0 <= a < t1.len() implies (#[trigger] t1[a]).id
                        != self.id && entry_ok(t1[a]) by {
                        if a < ii {
                            assert(t1[a] == t0[a]);
                        } else {
                            assert(t1[a] == t0[a + 1]);
                        }
                    }
                    assert forall|a: int, b: int| 0 <= a < b < t1.len() implies (
                    #[trigger] t1[a]).id != (#[trigger] t1[b]).id by {
                        let a0 = if a < ii {
                            a
                        } else {
                            a + 1
                        };
                        let b0 = if b < ii {
                            b
                        } else {
                            b + 1
                        };
                        assert(t1[a] == t0[a0] && t1[b] == t0[b0]);
                        assert(t0[a0].id != t0[b0].id);
                    }
                    assert(table_wf(t1, self.id));
                }
                return ;
            }
            i += 1;
        }
        proof {
            assert(!table_has_id(t0, id));
        }
    }

    /// Drop the current goal; goal-seeking contributes zero afterwards.
    pub fn clear_target(&mut self)
        requires
            old(self).wf(),
        ensures
            final(self).wf(),
            final(self).target is None,
            final(self).id == old(self).id,
            final(self).transform == old(self).transform,
            final(self).velocity == old(self).velocity,
            final(self).acceleration == old(self).acceleration,
            final(self).render_type == old(self).render_type,
            final(self).table == old(self).table,
    {
        self.target = None;
    }

    /// Register or refresh the table entry for peer `id`. The agent never
    /// keeps an entry for itself, so `id` must be foreign.
    pub fn update_table(&mut self, id: u32, position: Vec3, velocity: Vec3)
        requires
            old(self).wf(),
            id != old(self).id,
            position@.in_bounds(POS_LIMIT as int),
            velocity@.norm_sq() <= MAX_SPEED * MAX_SPEED,
            old(self).table@.len() < TABLE_MAX,
        ensures
            final(self).wf(),
            final(self).table@ == upsert(old(self).table@, Table { id, position, velocity }),
            final(self).id == old(self).id,
            final(self).transform == old(self).transform,
            final(self).velocity == old(self).velocity,
            final(self).acceleration == old(self).acceleration,
            final(self).target == old(self).target,
            final(self).render_type == old(self).render_type,
    {
        let ghost t0 = self.table@;
        let e = Table { id, position, velocity };
        let mut i: usize = 0;
        while i < self.table.len()
            invariant
                i <= self.table.len(),
                self.table@ == t0,
                t0 == old(self).table@,
                old(self).wf(),
                id != old(self).id,
                e == (Table { id, position, velocity }),
                entry_ok(e),
                self.id == old(self).id,
                self.transform == old(self).transform,
                self.velocity == old(self).velocity,
                self.acceleration == old(self).acceleration,
                self.target == old(self).target,
                self.render_type == old(self).render_type,
                forall|k: int| 0 <= k < i ==> (#[trigger] t0[k]).id != id,
            decreases self.table.len() - i,
        {
            if self.table[i].id == id {
                let ghost ii = i as int;
                self.table[i] = e;
                proof {
                    assert(t0[ii].id == id);
                    assert(table_has_id(t0, id));
                    let j = table_index_of(t0, id);
                    assert(0 <= j < t0.len() && t0[j].id == id);
                    assert(j == ii) by {
                        if j < ii {
                            assert(t0[j].id != t0[ii].id);
                        }
                        if ii < j {
                            assert(t0[ii].id != t0[j].id);
                        }
                    }
                    assert(self.table@ == upsert(t0, e));
                    assert forall|k: int| 0 <= k < t0.len() && k != ii implies (#[trigger] t0[k]).id
                        != id by {
                        if ii < k {
                            assert(t0[ii].id != t0[k].id);
                        }
                    }
                    let t1 = self.table@;
                    assert forall|a: int, b: int| 0 <= a < b < t1.len() implies (
                    #[trigger] t1[a]).id != (#[trigger] t1[b]).id by {
                        if a != ii && b != ii {
                            assert(t0[a].id != t0[b].id);
                        }
                    }
                    assert(table_wf(t1, self.id));
                }
                return ;
            }
            i += 1;
        }
        self.table.push(e);
        proof {
            assert(forall|k: int| 0 <= k < t0.len() ==> (#[trigger] t0[k]).id != id);
            assert(!table_has_id(t0, id));
            assert(self.table@ == t0.push(e));
            let t1 = self.table@;
            assert forall|a: int, b: int| 0 <= a < b < t1.len() implies (#[trigger] t1[a]).id != (
            #[trigger] t1[b]).id by {
                if b < t0.len() {
                    assert(t0[a].id != t0[b].id);
                } else {
                    assert(t1[b] == e);
                    assert(t0[a].id != id);
                }
            }
            assert(table_wf(t1, self.id));
        }
    }
}

} // verus!
