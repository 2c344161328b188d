//! The transform of a body: where it is, how it is turned, and whether
//! either changed since somebody last looked.

use crate::algebra::Rotation;
use crate::physics::Pose;
use vstd::prelude::*;

verus! {

/// Position and rotation of a body, the inverse rotation kept beside the
/// rotation, and the dirty flag.
#[derive(Debug, Copy, PartialEq, Eq)]
pub struct BodyPose<P, R: Rotation> {
    dirty: bool,
    position: P,
    rotation: R,
    inverse_rotation: R,
}

impl<P: Copy, R: Rotation> Clone for BodyPose<P, R> {
    fn clone(&self) -> (pose: Self)
        ensures
            pose == *self,
    {
        *self
    }
}

impl<P, R: Rotation> BodyPose<P, R> {
    /// The position.
    pub closed spec fn position_of(self) -> P {
        self.position
    }

    /// The rotation.
    pub closed spec fn rotation_of(self) -> R {
        self.rotation
    }

    /// The inverse rotation as stored.
    pub closed spec fn inverse_rotation_of(self) -> R {
        self.inverse_rotation
    }

    /// Whether position or rotation was written since the flag was last cleared.
    pub closed spec fn is_dirty(self) -> bool {
        self.dirty
    }

    /// The stored inverse rotation is the inverse of the stored rotation.
    #[verifier::type_invariant]
    pub open spec fn in_step(self) -> bool {
        self.inverse_rotation_of() == self.rotation_of().inverse_spec()
    }

    /// A pose at `position`, turned by `rotation`. It starts dirty: nobody
    /// has looked at it yet.
    pub fn new(position: P, rotation: R) -> (pose: Self)
        ensures
            pose.position_of() == position,
            pose.rotation_of() == rotation,
            pose.inverse_rotation_of() == rotation.inverse_spec(),
            pose.is_dirty(),
    {
        BodyPose { dirty: true, position, rotation, inverse_rotation: rotation.invert() }
    }

    /// Clears the dirty flag. For the one system that owns invalidation; no
    /// other operation of the library clears the flag.
    pub fn clear(&mut self)
        ensures
            !final(self).is_dirty(),
            final(self).position_of() == old(self).position_of(),
            final(self).rotation_of() == old(self).rotation_of(),
            final(self).inverse_rotation_of() == old(self).inverse_rotation_of(),
    {
        proof {
            use_type_invariant(&*self);
        }
        self.dirty = false;
    }
}

impl<P: Copy, R: Rotation> Pose<P> for BodyPose<P, R> {
    type Rotation = R;

    open spec fn position_spec(&self) -> P {
        self.position_of()
    }

    open spec fn rotation_spec(&self) -> R {
        self.rotation_of()
    }

    open spec fn inverse_rotation_spec(&self) -> R {
        self.inverse_rotation_of()
    }

    open spec fn dirty_spec(&self) -> bool {
        self.is_dirty()
    }

    fn position(&self) -> (p: &P) {
        &self.position
    }

    fn rotation(&self) -> (r: &R) {
        &self.rotation
    }

    fn set_position(&mut self, pos: P) {
        proof {
            use_type_invariant(&*self);
        }
        *self = BodyPose {
            dirty: true,
            position: pos,
            rotation: self.rotation,
            inverse_rotation: self.inverse_rotation,
        };
    }

    fn set_rotation(&mut self, rot: R) {
        *self = BodyPose {
            dirty: true,
            position: self.position,
            rotation: rot,
            inverse_rotation: rot.invert(),
        };
    }

    fn dirty(&self) -> (d: bool) {
        self.dirty
    }

    fn inverse_rotation(&self) -> (r: &R)
        ensures
            *r == self.rotation_spec().inverse_spec(),
    {
        proof {
            use_type_invariant(self);
        }
        &self.inverse_rotation
    }
}

} // verus!
