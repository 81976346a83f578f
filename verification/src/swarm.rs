//! The swarm: a fixed population of agents on a 3-D grid, cross-wired for
//! full initial connectivity, with the synchronous per-frame sweeps the
//! host loop drives.

use vstd::prelude::*;
use crate::agent::{table_has_id, Agent, MAX_SPEED, TABLE_MAX};
use crate::entity::RenderType;
use crate::message::Message;
use crate::render::PoseBuffer;
use crate::transform::{clamp_pos, Rotation, POS_LIMIT};
use crate::vec3::{Vec3, V3, UNIT};

verus! {

/// Grid spacing: five spatial units between adjacent agents.
pub const PADDING: i64 = 5_000_000;

/// Agents per grid axis: `count / 2` cells on each side of the origin.
pub open spec fn grid_side(count: int) -> int {
    2 * (count / 2)
}

/// Initial position of the agent at flat grid index `idx`.
pub open spec fn grid_pos(count: int, idx: int) -> V3 {
    let s = grid_side(count);
    let a = idx / (s * s);
    let b = (idx / s) % s;
    let c = idx % s;
    V3 {
        x: (a - s / 2) * (PADDING as int),
        y: (b - s / 2) * (PADDING as int),
        z: (c - s / 2) * (PADDING as int),
    }
}

/// Full pairwise connectivity: every agent's table has an entry for every
/// other agent.
pub open spec fn fully_wired(agents: Seq<Agent>) -> bool {
    forall|i: int, j: int|
        #![trigger agents[i], agents[j]]
        0 <= i < agents.len() && 0 <= j < agents.len() && i != j ==> table_has_id(
            agents[i].table@,
            agents[j].id,
        )
}

/// The construction-time snapshot cached at index `k` of agent `i`'s
/// table: the peer with zero-based index `k` for `k < i` and `k + 1`
/// past the gap where `i` itself would sit, at its grid position, at rest.
pub open spec fn initial_snapshot(count: int, agents: Seq<Agent>, i: int, k: int) -> bool {
    let p = if k < i {
        k
    } else {
        k + 1
    };
    &&& agents[i].table@[k].id == p + 1
    &&& agents[i].table@[k].position@ == grid_pos(count, p)
    &&& agents[i].table@[k].velocity@ == V3::zero()
}

/// The registry that owns the population.
pub struct Swarm {
    pub agents: Vec<Agent>,
}

impl Swarm {
    /// Position of flat grid index `idx`, executably.
    fn grid_pos_exec(count: i32, idx: usize, side: usize) -> (p: Vec3)
        requires
            0 <= count <= 100,
            side == grid_side(count as int),
            1 <= side <= 100,
            idx < side * side * side,
        ensures
            p@ == grid_pos(count as int, idx as int),
            p@.in_bounds(POS_LIMIT as int),
    {
        proof {
            assert(1 <= side * side <= 10_000) by (nonlinear_arith)
                requires
                    1 <= side <= 100,
            ;
        }
        let s2 = side * side;
        let a = idx / s2;
        let b = (idx / side) % side;
        let c = idx % side;
        proof {
            assert(a < side && b < side && c < side) by (nonlinear_arith)
                requires
                    1 <= side && idx < side * side * side && a == idx as int / (side as int
                        * side as int) && b == (idx as int / side as int) % side as int && c
                        == idx as int % side as int,
            ;
            assert((side as int) / 2 == count as int / 2);
        }
        let half = (count / 2) as i64;
        let x = (a as i64 - half) * PADDING;
        let y = (b as i64 - half) * PADDING;
        let z = (c as i64 - half) * PADDING;
        Vec3 { x, y, z }
    }

    /// Build `grid_side(count)` cubed agents, spaced on the grid, and
    /// cross-wire every pair's neighbor tables: full initial connectivity,
    /// with each agent's table holding exactly one entry per peer.
    pub fn new(count: i32) -> (s: Swarm)
        requires
            0 <= count <= 100,
        ensures
            s.agents@.len() == grid_side(count as int) * grid_side(count as int) * grid_side(
                count as int,
            ),
            forall|i: int| 0 <= i < s.agents@.len() ==> (#[trigger] s.agents@[i]).wf(),
            forall|i: int| 0 <= i < s.agents@.len() ==> (#[trigger] s.agents@[i]).id == i + 1,
            forall|i: int|
                0 <= i < s.agents@.len() ==> (#[trigger] s.agents@[i]).transform.spec_pos()
                    == grid_pos(count as int, i),
            forall|i: int|
                0 <= i < s.agents@.len() ==> (#[trigger] s.agents@[i]).transform.spec_scale()
                    == (V3 { x: UNIT as int, y: UNIT as int, z: UNIT as int }),
            forall|i: int|
                0 <= i < s.agents@.len() ==> (#[trigger] s.agents@[i]).transform.spec_rotation()
                    == Rotation::spec_default(),
            forall|i: int|
                0 <= i < s.agents@.len() ==> (#[trigger] s.agents@[i]).velocity@ == V3::zero(),
            forall|i: int| 0 <= i < s.agents@.len() ==> (#[trigger] s.agents@[i]).target is None,
            forall|i: int|
                0 <= i < s.agents@.len() ==> (#[trigger] s.agents@[i]).render_type
                    == RenderType::DYNAMIC,
            forall|i: int|
                0 <= i < s.agents@.len() ==> (#[trigger] s.agents@[i]).table@.len()
                    == s.agents@.len() - 1,
            forall|i: int, k: int|
                #![trigger s.agents@[i].table@[k]]
                0 <= i < s.agents@.len() && 0 <= k < s.agents@.len() - 1 ==> initial_snapshot(
                    count as int,
                    s.agents@,
                    i,
                    k,
                ),
            fully_wired(s.agents@),
    {
        let side: usize = (2 * (count / 2)) as usize;
        let mut agents: Vec<Agent> = Vec::new();
        if side == 0 {
            proof {
                assert(grid_side(count as int) * grid_side(count as int) * grid_side(count as int)
                    == 0) by (nonlinear_arith)
                    requires
                        grid_side(count as int) == 0,
                ;
            }
            return Swarm { agents };
        }
        proof {
            assert(side * side <= 10_000 && side * side * side <= 1_000_000) by (nonlinear_arith)
                requires
                    side <= 100,
            ;
        }
        let n: usize = side * side * side;
        let mut m: usize = 0;
        while m < n
            invariant
                0 <= count <= 100,
                side == grid_side(count as int),
                1 <= side <= 100,
                n == side * side * side,
                n <= 1_000_000,
                m <= n,
                agents@.len() == m,
                forall|a: int| 0 <= a < m ==> (#[trigger] agents@[a]).wf(),
                forall|a: int| 0 <= a < m ==> (#[trigger] agents@[a]).id == a + 1,
                forall|a: int|
                    0 <= a < m ==> (#[trigger] agents@[a]).transform.spec_pos() == grid_pos(
                        count as int,
                        a,
                    ),
                forall|a: int|
                    0 <= a < m ==> (#[trigger] agents@[a]).transform.spec_scale() == (V3 {
                        x: UNIT as int,
                        y: UNIT as int,
                        z: UNIT as int,
                    }),
                forall|a: int|
                    0 <= a < m ==> (#[trigger] agents@[a]).transform.spec_rotation()
                        == Rotation::spec_default(),
                forall|a: int| 0 <= a < m ==> (#[trigger] agents@[a]).velocity@ == V3::zero(),
                forall|a: int| 0 <= a < m ==> (#[trigger] agents@[a]).target is None,
                forall|a: int|
                    0 <= a < m ==> (#[trigger] agents@[a]).render_type == RenderType::DYNAMIC,
                forall|a: int| 0 <= a < m ==> (#[trigger] agents@[a]).table@.len() == m - 1,
                forall|a: int, k: int|
                    #![trigger agents@[a].table@[k]]
                    0 <= a < m && 0 <= k < m - 1 ==> initial_snapshot(count as int, agents@, a, k),
                forall|a: int, b: int|
                    #![trigger agents@[a], agents@[b]]
                    0 <= a < m && 0 <= b < m && a != b ==> table_has_id(
                        agents@[a].table@,
                        agents@[b].id,
                    ),
                forall|a: int, k: int|
                    0 <= a < m && 0 <= k < agents@[a].table@.len() ==> 1 <= (
                    #[trigger] agents@[a].table@[k]).id <= m,
            decreases n - m,
        {
            let pos = Self::grid_pos_exec(count, m, side);
            let mut fresh = Agent::new((m + 1) as u32, pos);
            let ghost fresh_id = fresh.id;
            let mut w: usize = 0;
            while w < m
                invariant
                    0 <= count <= 100,
                    w <= m < n <= 1_000_000,
                    agents@.len() == m,
                    fresh.wf(),
                    fresh.id == m + 1,
                    fresh.transform.spec_pos() == grid_pos(count as int, m as int),
                    fresh.transform.spec_pos() == pos@,
                    fresh.transform.spec_scale() == (V3 {
                        x: UNIT as int,
                        y: UNIT as int,
                        z: UNIT as int,
                    }),
                    fresh.transform.spec_rotation() == Rotation::spec_default(),
                    pos@.in_bounds(POS_LIMIT as int),
                    fresh.velocity@ == V3::zero(),
                    fresh.target is None,
                    fresh.render_type == RenderType::DYNAMIC,
                    fresh.table@.len() == w,
                    forall|b: int|
                        0 <= b < w ==> table_has_id(fresh.table@, (#[trigger] agents@[b]).id),
                    forall|k: int|
                        0 <= k < fresh.table@.len() ==> 1 <= (#[trigger] fresh.table@[k]).id <= w,
                    forall|a: int| 0 <= a < m ==> (#[trigger] agents@[a]).wf(),
                    forall|a: int| 0 <= a < m ==> (#[trigger] agents@[a]).id == a + 1,
                    forall|a: int|
                        0 <= a < m ==> (#[trigger] agents@[a]).transform.spec_pos() == grid_pos(
                            count as int,
                            a,
                        ),
                    forall|a: int|
                        0 <= a < m ==> (#[trigger] agents@[a]).transform.spec_scale() == (V3 {
                            x: UNIT as int,
                            y: UNIT as int,
                            z: UNIT as int,
                        }),
                    forall|a: int|
                        0 <= a < m ==> (#[trigger] agents@[a]).transform.spec_rotation()
                            == Rotation::spec_default(),
                    forall|a: int| 0 <= a < m ==> (#[trigger] agents@[a]).velocity@ == V3::zero(),
                    forall|a: int| 0 <= a < m ==> (#[trigger] agents@[a]).target is None,
                    forall|a: int|
                        0 <= a < m ==> (#[trigger] agents@[a]).render_type == RenderType::DYNAMIC,
                    forall|a: int|
                        0 <= a < m ==> (#[trigger] agents@[a]).table@.len() == m - 1 + (if a < w {
                            1int
                        } else {
                            0int
                        }),
                    forall|a: int, k: int|
                        #![trigger agents@[a].table@[k]]
                        0 <= a < m && 0 <= k < agents@[a].table@.len() ==> initial_snapshot(
                            count as int,
                            agents@,
                            a,
                            k,
                        ),
                    forall|k: int|
                        0 <= k < w ==> ((#[trigger] fresh.table@[k]).id == k + 1
                            && fresh.table@[k].position@ == grid_pos(count as int, k)
                            && fresh.table@[k].velocity@ == V3::zero()),
                    forall|a: int, b: int|
                        #![trigger agents@[a], agents@[b]]
                        0 <= a < m && 0 <= b < m && a != b ==> table_has_id(
                            agents@[a].table@,
                            agents@[b].id,
                        ),
                    forall|a: int|
                        0 <= a < w ==> table_has_id((#[trigger] agents@[a]).table@, (m + 1) as u32),
                    forall|a: int, k: int|
                        0 <= a < m && 0 <= k < agents@[a].table@.len() ==> 1 <= (
                        #[trigger] agents@[a].table@[k]).id <= (if a < w {
                            m + 1int
                        } else {
                            m as int
                        }),
                decreases m - w,
            {
                let ghost agents0 = agents@;
                let ghost fresh0 = fresh;
                let wid = agents[w].id;
                let wpos = agents[w].transform.get_pos();
                let wvel = agents[w].velocity;
                proof {
                    assert(agents@[w as int].wf());
                    crate::transform::lemma_wf_bounds(agents@[w as int].transform);
                }
                fresh.update_table(wid, wpos, wvel);
                proof {
                    assert(!table_has_id(fresh0.table@, wid));
                    assert(fresh.table@ == fresh0.table@.push(
                        crate::agent::Table { id: wid, position: wpos, velocity: wvel },
                    ));
                    assert forall|b: int| 0 <= b < w + 1 implies table_has_id(
                        fresh.table@,
                        (#[trigger] agents@[b]).id,
                    ) by {
                        if b < w {
                            assert(table_has_id(fresh0.table@, agents@[b].id));
                            let x = crate::agent::table_index_of(fresh0.table@, agents@[b].id);
                            assert(fresh.table@[x].id == agents@[b].id);
                        } else {
                            assert(fresh.table@[w as int].id == wid);
                        }
                    }
                }
                let fid = fresh.id;
                proof {
                    assert(V3::zero().norm_sq() == 0);
                    assert(MAX_SPEED * MAX_SPEED >= 0);
                    assert(agents@[w as int].table@.len() < TABLE_MAX);
                }
                let aw = &mut agents[w];
                aw.update_table(fid, pos, Vec3::zero());
                proof {
                    let wi = w as int;
                    assert(agents@ == agents0.update(wi, agents@[wi]));
                    assert(!table_has_id(agents0[wi].table@, (m + 1) as u32));
                    assert(agents@[wi].table@ == agents0[wi].table@.push(
                        crate::agent::Table {
                            id: (m + 1) as u32,
                            position: pos,
                            velocity: Vec3 { x: 0, y: 0, z: 0 },
                        },
                    ));
                    assert forall|a: int, b: int|
                        #![trigger agents@[a], agents@[b]]
                        0 <= a < m && 0 <= b < m && a != b implies table_has_id(
                        agents@[a].table@,
                        agents@[b].id,
                    ) by {
                        assert(agents@[b].id == agents0[b].id);
                        assert(table_has_id(agents0[a].table@, agents0[b].id));
                        if a == wi {
                            let x = crate::agent::table_index_of(agents0[a].table@, agents0[b].id);
                            assert(agents@[a].table@[x].id == agents0[b].id);
                        } else {
                            assert(agents@[a].table@ == agents0[a].table@);
                        }
                    }
                    assert forall|a: int| 0 <= a < w + 1 implies table_has_id(
                        (#[trigger] agents@[a]).table@,
                        (m + 1) as u32,
                    ) by {
                        if a < wi {
                            assert(agents@[a].table@ == agents0[a].table@);
                            assert(table_has_id(agents0[a].table@, (m + 1) as u32));
                        } else {
                            assert(agents@[wi].table@[(agents@[wi].table@.len() - 1) as int].id == (
                            m + 1) as u32);
                        }
                    }
                }
                w += 1;
            }
            let ghost before_push = agents@;
            agents.push(fresh);
            proof {
                let mi = m as int;
                assert(agents@.len() == m + 1);
                assert(agents@[mi] == fresh);
                assert forall|a: int| 0 <= a < m + 1 implies (#[trigger] agents@[a]).table@.len()
                    == (m + 1) - 1 by {
                    if a < mi {
                        assert(agents@[a] == before_push[a]);
                    }
                }
                assert forall|a: int, b: int|
                    #![trigger agents@[a], agents@[b]]
                    0 <= a < m + 1 && 0 <= b < m + 1 && a != b implies table_has_id(
                    agents@[a].table@,
                    agents@[b].id,
                ) by {
                    if a < mi && b < mi {
                        assert(agents@[a] == before_push[a] && agents@[b] == before_push[b]);
                        assert(table_has_id(before_push[a].table@, before_push[b].id));
                    } else if a == mi {
                        assert(agents@[a] == fresh && agents@[b] == before_push[b]);
                        assert(table_has_id(fresh.table@, before_push[b].id));
                    } else {
                        assert(agents@[a] == before_push[a] && agents@[b] == fresh);
                        assert(table_has_id(before_push[a].table@, (m + 1) as u32));
                    }
                }
            }
            m += 1;
        }
        Swarm { agents }
    }

    /// Fan a goal assignment out to every agent, as the host's input
    /// handler does on a click.
    pub fn set_target(&mut self, target: Vec3)
        requires
            forall|i: int| 0 <= i < old(self).agents@.len() ==> (#[trigger] old(self).agents@[i]).wf(),
        ensures
            final(self).agents@.len() == old(self).agents@.len(),
            forall|i: int|
                0 <= i < final(self).agents@.len() ==> (#[trigger] final(self).agents@[i]).wf(),
            forall|i: int|
                0 <= i < final(self).agents@.len() ==> ((#[trigger] final(self).agents@[i]).target matches Some(t2) && t2@ == clamp_pos(target@)),
            target@.in_bounds(POS_LIMIT as int) ==> forall|i: int|
                0 <= i < final(self).agents@.len() ==> (#[trigger] final(self).agents@[i]).target
                    == Some(target),
            forall|i: int|
                0 <= i < final(self).agents@.len() ==> unchanged_but_target(
                    #[trigger] old(self).agents@[i],
                    final(self).agents@[i],
                ),
    {
        let mut i: usize = 0;
        while i < self.agents.len()
            invariant
                self.agents@.len() == old(self).agents@.len(),
                i <= self.agents@.len(),
                forall|k: int|
                    i <= k < self.agents@.len() ==> #[trigger] self.agents@[k] == old(self).agents@[k],
                forall|k: int| 0 <= k < self.agents@.len() ==> (#[trigger] self.agents@[k]).wf(),
                forall|k: int|
                    0 <= k < i ==> ((#[trigger] self.agents@[k]).target matches Some(t2) && t2@
                        == clamp_pos(target@)),
                target@.in_bounds(POS_LIMIT as int) ==> forall|k: int|
                    0 <= k < i ==> (#[trigger] self.agents@[k]).target == Some(target),
                forall|k: int|
                    0 <= k < i ==> unchanged_but_target(
                        old(self).agents@[k],
                        #[trigger] self.agents@[k],
                    ),
            decreases self.agents@.len() - i,
        {
            let a = &mut self.agents[i];
            let _ = a.on_received(Message::TASK { target });
            i += 1;
        }
    }

    /// Clear every agent's goal.
    pub fn clear_target(&mut self)
        requires
            forall|i: int| 0 <= i < old(self).agents@.len() ==> (#[trigger] old(self).agents@[i]).wf(),
        ensures
            final(self).agents@.len() == old(self).agents@.len(),
            forall|i: int|
                0 <= i < final(self).agents@.len() ==> (#[trigger] final(self).agents@[i]).wf(),
            forall|i: int|
                0 <= i < final(self).agents@.len() ==> (#[trigger] final(self).agents@[i]).target is None,
            forall|i: int|
                0 <= i < final(self).agents@.len() ==> unchanged_but_target(
                    #[trigger] old(self).agents@[i],
                    final(self).agents@[i],
                ),
    {
        let mut i: usize = 0;
        while i < self.agents.len()
            invariant
                self.agents@.len() == old(self).agents@.len(),
                i <= self.agents@.len(),
                forall|k: int|
                    i <= k < self.agents@.len() ==> #[trigger] self.agents@[k] == old(self).agents@[k],
                forall|k: int| 0 <= k < self.agents@.len() ==> (#[trigger] self.agents@[k]).wf(),
                forall|k: int| 0 <= k < i ==> (#[trigger] self.agents@[k]).target is None,
                forall|k: int|
                    0 <= k < i ==> unchanged_but_target(
                        old(self).agents@[k],
                        #[trigger] self.agents@[k],
                    ),
            decreases self.agents@.len() - i,
        {
            let a = &mut self.agents[i];
            a.clear_target();
            i += 1;
        }
    }

    /// The per-frame steering sweep: every agent takes one steering tick.
    pub fn update(&mut self)
        requires
            forall|i: int| 0 <= i < old(self).agents@.len() ==> (#[trigger] old(self).agents@[i]).wf(),
        ensures
            final(self).agents@.len() == old(self).agents@.len(),
            forall|i: int|
                0 <= i < final(self).agents@.len() ==> crate::agent::stepped(
                    #[trigger] old(self).agents@[i],
                    final(self).agents@[i],
                ),
            forall|i: int|
                0 <= i < final(self).agents@.len() ==> (#[trigger] final(self).agents@[i]).velocity@.norm_sq() <= MAX_SPEED * MAX_SPEED,
    {
        let mut i: usize = 0;
        while i < self.agents.len()
            invariant
                self.agents@.len() == old(self).agents@.len(),
                i <= self.agents@.len(),
                forall|k: int|
                    0 <= k < old(self).agents@.len() ==> (#[trigger] old(self).agents@[k]).wf(),
                forall|k: int|
                    i <= k < self.agents@.len() ==> #[trigger] self.agents@[k] == old(self).agents@[k],
                forall|k: int|
                    0 <= k < i ==> crate::agent::stepped(
                        old(self).agents@[k],
                        #[trigger] self.agents@[k],
                    ),
            decreases self.agents@.len() - i,
        {
            let a = &mut self.agents[i];
            a.update();
            i += 1;
        }
        proof {
            assert forall|i: int| 0 <= i < final(self).agents@.len() implies (#[trigger] final(self).agents@[i]).velocity@.norm_sq() <= MAX_SPEED * MAX_SPEED by {
                assert(crate::agent::stepped(old(self).agents@[i], final(self).agents@[i]));
            }
        }
    }

    /// The per-frame draw sweep: hand every agent's pose to the batch.
    pub fn draw(&mut self, batch: &mut PoseBuffer)
        requires
            forall|i: int|
                0 <= i < old(self).agents@.len() ==> (#[trigger] old(self).agents@[i]).render_type
                    == RenderType::DYNAMIC,
        ensures
            final(self).agents@ == old(self).agents@,
            final(batch).statics.spec_poses() == old(batch).statics.spec_poses(),
            final(batch).dynamics.spec_poses() == old(batch).dynamics.spec_poses() + agent_poses(
                old(self).agents@,
            ),
    {
        let ghost poses = agent_poses(old(self).agents@);
        let mut i: usize = 0;
        while i < self.agents.len()
            invariant
                self.agents@ == old(self).agents@,
                i <= self.agents@.len(),
                forall|k: int|
                    0 <= k < self.agents@.len() ==> (#[trigger] self.agents@[k]).render_type
                        == RenderType::DYNAMIC,
                poses == agent_poses(old(self).agents@),
                batch.statics.spec_poses() == old(batch).statics.spec_poses(),
                batch.dynamics.spec_poses() == old(batch).dynamics.spec_poses() + poses.take(
                    i as int,
                ),
            decreases self.agents@.len() - i,
        {
            let ghost agents0 = self.agents@;
            let ghost dyn0 = batch.dynamics.spec_poses();
            let a = &mut self.agents[i];
            batch.subscribe(a.transform, &mut a.render_type);
            proof {
                assert(self.agents@ =~= agents0);
                assert(batch.dynamics.spec_poses() == dyn0.push(agents0[i as int].transform));
                assert(old(batch).dynamics.spec_poses() + poses.take(i as int + 1) =~= (old(batch).dynamics.spec_poses() + poses.take(i as int)).push(poses[i as int]));
            }
            i += 1;
        }
        proof {
            assert(poses.take(poses.len() as int) =~= poses);
        }
    }
}

/// The poses of the agents, in registry order.
pub open spec fn agent_poses(agents: Seq<Agent>) -> Seq<crate::transform::Transform> {
    Seq::new(agents.len(), |i: int| agents[i].transform)
}

/// Everything but the goal is untouched.
pub open spec fn unchanged_but_target(a0: Agent, a1: Agent) -> bool {
    &&& a1.id == a0.id
    &&& a1.transform == a0.transform
    &&& a1.velocity == a0.velocity
    &&& a1.acceleration == a0.acceleration
    &&& a1.render_type == a0.render_type
    &&& a1.table == a0.table
}

} // verus!
