//! The two message kinds agents exchange: goal assignment and gossip
//! updates carrying a deduplication list and a batch of observations.

use vstd::prelude::*;
use crate::agent::Agent;
use crate::vec3::Vec3;

verus! {

/// No agent id occurs twice in a deduplication list.
pub open spec fn no_dups(s: Seq<u32>) -> bool {
    forall|i: int, j: int| 0 <= i < j < s.len() ==> s[i] != s[j]
}

/// One observation of a peer: its id and its last known kinematic state.
#[derive(Clone, Copy, Debug, PartialEq, Eq, Structural)]
pub struct Payload {
    pub id: u32,
    pub position: Vec3,
    pub velocity: Vec3,
}

impl Payload {
    /// The observation an agent publishes about itself.
    pub fn from_agent(agent: &Agent) -> (p: Payload)
        ensures
            p.id == agent.id,
            p.position@ == agent.transform.spec_pos(),
            p.velocity == agent.velocity,
    {
        Payload { id: agent.id, position: agent.transform.get_pos(), velocity: agent.velocity }
    }
}

/// Protocol messages. `TASK` assigns a steering goal; `UPDATE` is a gossip
/// wave: the relaying sender, the ids that have already seen this wave, and
/// the accumulated observations.
#[derive(Clone, Debug)]
pub enum Message {
    TASK { target: Vec3 },
    UPDATE { from: u32, received_list: Vec<u32>, payload: Vec<Payload> },
}

} // verus!
