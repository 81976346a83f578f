//! Position, scale and orientation of an entity, and the arena bound that
//! keeps every position coordinate representable.

use vstd::prelude::*;
use crate::vec3::{Vec3, V3, COORD_LIMIT, UNIT};

verus! {

/// Largest position (or scale, or target) coordinate magnitude. Keeping
/// positions inside this arena keeps every difference of two positions
/// within `COORD_LIMIT`, where squared norms are exact.
pub const POS_LIMIT: i64 = 400_000_000_000_000_000;

/// One coordinate clamped into the arena.
pub open spec fn clamp_coord(c: int) -> int {
    if c > POS_LIMIT as int {
        POS_LIMIT as int
    } else if c < -(POS_LIMIT as int) {
        -(POS_LIMIT as int)
    } else {
        c
    }
}

/// A vector clamped componentwise into the arena.
pub open spec fn clamp_pos(v: V3) -> V3 {
    V3 { x: clamp_coord(v.x), y: clamp_coord(v.y), z: clamp_coord(v.z) }
}

fn clamp_coord_exec(c: i64) -> (r: i64)
    ensures
        r as int == clamp_coord(c as int),
{
    if c > POS_LIMIT {
        POS_LIMIT
    } else if c < -POS_LIMIT {
        -POS_LIMIT
    } else {
        c
    }
}

/// A vector clamped componentwise into the arena, executably; a vector
/// already inside comes back unchanged.
pub fn clamp_to_arena(v: Vec3) -> (r: Vec3)
    ensures
        r@ == clamp_pos(v@),
        r@.in_bounds(POS_LIMIT as int),
        v@.in_bounds(POS_LIMIT as int) ==> r == v,
{
    Vec3 { x: clamp_coord_exec(v.x), y: clamp_coord_exec(v.y), z: clamp_coord_exec(v.z) }
}

/// What `Transform::wf` guarantees about the (abstract) pose coordinates.
pub proof fn lemma_wf_bounds(t: Transform)
    requires
        t.wf(),
    ensures
        t.spec_pos().in_bounds(POS_LIMIT as int),
        t.spec_scale().in_bounds(POS_LIMIT as int),
        t.spec_rotation().direction@.in_bounds(POS_LIMIT as int),
{
}

/// Axis-angle orientation; the angle counts ticks of `1 / UNIT` radians.
#[derive(Clone, Copy, Debug, PartialEq, Eq, Structural)]
pub struct Rotation {
    pub direction: Vec3,
    pub angle: i64,
}

impl Rotation {
    /// The identity orientation the renderer expects: axis `(0, 0, -1)`,
    /// angle zero.
    pub open spec fn spec_default() -> Rotation {
        Rotation { direction: Vec3 { x: 0, y: 0, z: (-(UNIT as int)) as i64 }, angle: 0 }
    }

    pub fn default() -> (r: Rotation)
        ensures
            r == Rotation::spec_default(),
    {
        Rotation { direction: Vec3::new(0, 0, -UNIT), angle: 0 }
    }
}

/// Pose state of one entity or agent: position, scale and orientation.
#[derive(Clone, Copy, Debug, PartialEq, Eq, Structural)]
pub struct Transform {
    position: Vec3,
    scale: Vec3,
    rotation: Rotation,
}

impl Transform {
    /// All coordinates lie inside the arena.
    pub closed spec fn wf(self) -> bool {
        &&& self.position@.in_bounds(POS_LIMIT as int)
        &&& self.scale@.in_bounds(POS_LIMIT as int)
        &&& self.rotation.direction@.in_bounds(POS_LIMIT as int)
    }

    pub closed spec fn spec_pos(self) -> V3 {
        self.position@
    }

    pub closed spec fn spec_scale(self) -> V3 {
        self.scale@
    }

    pub closed spec fn spec_rotation(self) -> Rotation {
        self.rotation
    }

    /// Origin pose with unit scale.
    pub fn default() -> (t: Transform)
        ensures
            t.wf(),
            t.spec_pos() == V3::zero(),
            t.spec_scale() == (V3 { x: UNIT as int, y: UNIT as int, z: UNIT as int }),
            t.spec_rotation() == Rotation::spec_default(),
    {
        Transform {
            position: Vec3::zero(),
            scale: Vec3::new(UNIT, UNIT, UNIT),
            rotation: Rotation::default(),
        }
    }

    /// Pose at `position` with unit scale.
    pub fn with_pos(position: Vec3) -> (t: Transform)
        requires
            position@.in_bounds(POS_LIMIT as int),
        ensures
            t.wf(),
            t.spec_pos() == position@,
            t.spec_scale() == (V3 { x: UNIT as int, y: UNIT as int, z: UNIT as int }),
            t.spec_rotation() == Rotation::spec_default(),
    {
        Transform {
            position,
            scale: Vec3::new(UNIT, UNIT, UNIT),
            rotation: Rotation::default(),
        }
    }

    /// Pose at `position` with the given scale.
    pub fn with_pos_scale(position: Vec3, scale: Vec3) -> (t: Transform)
        requires
            position@.in_bounds(POS_LIMIT as int),
            scale@.in_bounds(POS_LIMIT as int),
        ensures
            t.wf(),
            t.spec_pos() == position@,
            t.spec_scale() == scale@,
            t.spec_rotation() == Rotation::spec_default(),
    {
        Transform { position, scale, rotation: Rotation::default() }
    }

    pub fn get_pos(&self) -> (p: Vec3)
        ensures
            p@ == self.spec_pos(),
    {
        self.position
    }

    pub fn get_scale(&self) -> (s: Vec3)
        ensures
            s@ == self.spec_scale(),
    {
        self.scale
    }

    pub fn get_rotation(&self) -> (r: Rotation)
        ensures
            r == self.spec_rotation(),
    {
        self.rotation
    }

    /// Move to an absolute position (clamped into the arena).
    pub fn set_pos(&mut self, position: Vec3)
        ensures
            final(self).spec_pos() == clamp_pos(position@),
            final(self).spec_scale() == old(self).spec_scale(),
            final(self).spec_rotation() == old(self).spec_rotation(),
            old(self).wf() ==> final(self).wf(),
            position@.in_bounds(POS_LIMIT as int) ==> final(self).spec_pos() == position@,
    {
        self.position = Vec3 {
            x: clamp_coord_exec(position.x),
            y: clamp_coord_exec(position.y),
            z: clamp_coord_exec(position.z),
        };
    }

    /// Translate by `dif`; the result is clamped into the arena, and exact
    /// whenever it stays inside.
    pub fn update_pos(&mut self, dif: Vec3)
        requires
            old(self).wf(),
            dif@.in_bounds(COORD_LIMIT as int),
        ensures
            final(self).wf(),
            final(self).spec_pos() == clamp_pos(old(self).spec_pos().add(dif@)),
            final(self).spec_scale() == old(self).spec_scale(),
            final(self).spec_rotation() == old(self).spec_rotation(),
    {
        self.position = Vec3 {
            x: clamp_coord_exec(self.position.x + dif.x),
            y: clamp_coord_exec(self.position.y + dif.y),
            z: clamp_coord_exec(self.position.z + dif.z),
        };
    }
}

} // verus!
