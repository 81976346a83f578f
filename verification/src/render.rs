//! The pose batch handed to the rendering collaborator each frame.
//!
//! Static poses accumulate once in a persistent prefix; dynamic poses are
//! resubmitted every frame. The collaborator turns each pose into a model
//! matrix and uploads the batch; nothing here touches the GPU.

use vstd::prelude::*;
use core::marker::PhantomData;
use crate::entity::RenderType;
use crate::transform::Transform;

verus! {

/// Mesh selector understood by the rendering collaborator.
#[derive(Clone, Copy, Debug, PartialEq, Eq, Structural)]
pub enum MeshType {
    CUBE,
}

/// Marker trait for the two batching disciplines.
pub trait Buf {

}

/// Poses rewritten every frame.
pub struct Dynamic;

impl Buf for Dynamic {

}

/// Poses uploaded once and kept.
pub struct Static;

impl Buf for Static {

}

/// An ordered batch of poses under one batching discipline.
pub struct Buffer<T: Buf> {
    poses: Vec<Transform>,
    marker: PhantomData<T>,
}

impl<T: Buf> Buffer<T> {
    pub closed spec fn spec_poses(self) -> Seq<Transform> {
        self.poses@
    }

    pub fn new() -> (b: Buffer<T>)
        ensures
            b.spec_poses() == Seq::<Transform>::empty(),
    {
        Buffer { poses: Vec::new(), marker: PhantomData }
    }

    pub fn push(&mut self, pose: Transform)
        ensures
            final(self).spec_poses() == old(self).spec_poses().push(pose),
    {
        self.poses.push(pose);
    }

    pub fn len(&self) -> (n: usize)
        ensures
            n == self.spec_poses().len(),
    {
        self.poses.len()
    }

    pub fn get(&self, i: usize) -> (pose: Transform)
        requires
            i < self.spec_poses().len(),
        ensures
            pose == self.spec_poses()[i as int],
    {
        self.poses[i]
    }
}

impl Buffer<Dynamic> {
    /// Dynamic poses do not survive the frame.
    pub fn clear(&mut self)
        ensures
            final(self).spec_poses() == Seq::<Transform>::empty(),
    {
        self.poses.clear();
    }
}

/// Per-frame instance data: the persistent static prefix and the dynamic
/// poses of the current frame.
pub struct PoseBuffer {
    pub statics: Buffer<Static>,
    pub dynamics: Buffer<Dynamic>,
}

/// How one `subscribe` call changes the batch and the drawable's
/// classification: a dynamic pose is appended to the dynamic batch; a
/// not-yet-subscribed static pose is appended to the static prefix exactly
/// once; a subscribed static pose changes nothing.
pub open spec fn subscribe_rel(
    b0: PoseBuffer,
    b1: PoseBuffer,
    rt0: RenderType,
    rt1: RenderType,
    pose: Transform,
) -> bool {
    match rt0 {
        RenderType::DYNAMIC => {
            &&& rt1 == rt0
            &&& b1.statics.spec_poses() == b0.statics.spec_poses()
            &&& b1.dynamics.spec_poses() == b0.dynamics.spec_poses().push(pose)
        },
        RenderType::STATIC { subscribed } => {
            if subscribed {
                &&& rt1 == rt0
                &&& b1.statics.spec_poses() == b0.statics.spec_poses()
                &&& b1.dynamics.spec_poses() == b0.dynamics.spec_poses()
            } else {
                &&& rt1 == (RenderType::STATIC { subscribed: true })
                &&& b1.statics.spec_poses() == b0.statics.spec_poses().push(pose)
                &&& b1.dynamics.spec_poses() == b0.dynamics.spec_poses()
            }
        },
    }
}

impl PoseBuffer {
    pub fn new() -> (b: PoseBuffer)
        ensures
            b.statics.spec_poses() == Seq::<Transform>::empty(),
            b.dynamics.spec_poses() == Seq::<Transform>::empty(),
    {
        PoseBuffer { statics: Buffer::new(), dynamics: Buffer::new() }
    }

    /// Accept one drawable's pose for this frame, marking a static drawable
    /// as subscribed on its first appearance.
    pub fn subscribe(&mut self, pose: Transform, render_type: &mut RenderType)
        ensures
            subscribe_rel(*old(self), *final(self), *old(render_type), *final(render_type), pose),
    {
        match *render_type {
            RenderType::DYNAMIC => {
                self.dynamics.push(pose);
            },
            RenderType::STATIC { subscribed } => {
                if !subscribed {
                    self.statics.push(pose);
                    *render_type = RenderType::STATIC { subscribed: true };
                }
            },
        }
    }

    /// Start a frame: dynamic poses are rebuilt, the static prefix stays.
    pub fn begin_frame(&mut self)
        ensures
            final(self).statics.spec_poses() == old(self).statics.spec_poses(),
            final(self).dynamics.spec_poses() == Seq::<Transform>::empty(),
    {
        self.dynamics.clear();
    }
}

} // verus!
