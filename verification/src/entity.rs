//! Drawable entities: a pose, a mesh tag, and a render classification that
//! decides whether the pose is uploaded once (static) or every frame
//! (dynamic).

use vstd::prelude::*;
use crate::render::{MeshType, PoseBuffer};
use crate::transform::{Rotation, Transform};
use crate::vec3::{Vec3, V3, UNIT};

verus! {

/// Static drawables are batched once (`subscribed` remembers that); dynamic
/// drawables resubmit their pose every frame.
#[derive(Clone, Copy, Debug, PartialEq, Eq, Structural)]
pub enum RenderType {
    STATIC { subscribed: bool },
    DYNAMIC,
}

impl RenderType {
    pub fn new(is_static: bool) -> (r: RenderType)
        ensures
            r == if is_static {
                RenderType::STATIC { subscribed: false }
            } else {
                RenderType::DYNAMIC
            },
    {
        if is_static {
            RenderType::STATIC { subscribed: false }
        } else {
            RenderType::DYNAMIC
        }
    }
}

/// A scenery object: unlike an agent it has no behaviour of its own.
pub struct Entity {
    transform: Transform,
    mesh_type: MeshType,
    render_type: RenderType,
}

impl Entity {
    pub closed spec fn spec_transform(self) -> Transform {
        self.transform
    }

    pub closed spec fn spec_mesh_type(self) -> MeshType {
        self.mesh_type
    }

    pub closed spec fn spec_render_type(self) -> RenderType {
        self.render_type
    }

    pub fn get_render_type(&mut self) -> (rt: &mut RenderType)
        ensures
            *rt == old(self).spec_render_type(),
            final(self).spec_render_type() == *final(rt),
            final(self).spec_transform() == old(self).spec_transform(),
            final(self).spec_mesh_type() == old(self).spec_mesh_type(),
    {
        &mut self.render_type
    }

    pub fn new(pos: Vec3, is_static: bool, mesh_type: MeshType) -> (e: Entity)
        requires
            pos@.in_bounds(crate::transform::POS_LIMIT as int),
        ensures
            e.spec_transform().wf(),
            e.spec_transform().spec_pos() == pos@,
            e.spec_transform().spec_scale() == (V3 {
                x: UNIT as int,
                y: UNIT as int,
                z: UNIT as int,
            }),
            e.spec_transform().spec_rotation() == Rotation::spec_default(),
            e.spec_mesh_type() == mesh_type,
            e.spec_render_type() == if is_static {
                RenderType::STATIC { subscribed: false }
            } else {
                RenderType::DYNAMIC
            },
    {
        Entity {
            transform: Transform::with_pos(pos),
            mesh_type,
            render_type: RenderType::new(is_static),
        }
    }

    pub fn new_scale(pos: Vec3, scale: Vec3, is_static: bool, mesh_type: MeshType) -> (e: Entity)
        requires
            pos@.in_bounds(crate::transform::POS_LIMIT as int),
            scale@.in_bounds(crate::transform::POS_LIMIT as int),
        ensures
            e.spec_transform().wf(),
            e.spec_transform().spec_pos() == pos@,
            e.spec_transform().spec_scale() == scale@,
            e.spec_transform().spec_rotation() == Rotation::spec_default(),
            e.spec_mesh_type() == mesh_type,
            e.spec_render_type() == if is_static {
                RenderType::STATIC { subscribed: false }
            } else {
                RenderType::DYNAMIC
            },
    {
        Entity {
            transform: Transform::with_pos_scale(pos, scale),
            mesh_type,
            render_type: RenderType::new(is_static),
        }
    }

    pub fn get_mut_transform(&mut self) -> (t: &mut Transform)
        ensures
            *t == old(self).spec_transform(),
            final(self).spec_transform() == *final(t),
            final(self).spec_mesh_type() == old(self).spec_mesh_type(),
            final(self).spec_render_type() == old(self).spec_render_type(),
    {
        &mut self.transform
    }

    pub fn get_transform(&self) -> (t: &Transform)
        ensures
            *t == self.spec_transform(),
    {
        &self.transform
    }

    /// Hand the current pose to the frame batch; a static entity is batched
    /// only on its first call.
    pub fn draw(&mut self, batch: &mut PoseBuffer)
        ensures
            final(self).spec_transform() == old(self).spec_transform(),
            final(self).spec_mesh_type() == old(self).spec_mesh_type(),
            crate::render::subscribe_rel(
                *old(batch),
                *final(batch),
                old(self).spec_render_type(),
                final(self).spec_render_type(),
                old(self).spec_transform(),
            ),
    {
        batch.subscribe(self.transform, &mut self.render_type);
    }
}

} // verus!
