//! Bodies, their motion, the frame that integration stages, and the step
//! that commits it.

use crate::algebra::{Inertia, Point, Rotation, VectorSpace};
use crate::changelog::ChangeLog;
use crate::scalar::Real;
use vstd::prelude::*;

verus! {

/// One contribution to a body's motion, waiting for the next integration.
#[derive(Debug, Clone, Copy, PartialEq, Eq)]
pub enum Force<V, R> {
    Linear(V),
    Angular(R),
}

/// Linear and angular rate of a body. Both zero: the body is at rest.
#[derive(Debug, Clone, Copy, PartialEq, Eq)]
pub struct Velocity<V, R> {
    pub linear: V,
    pub angular: R,
}

impl<V: VectorSpace, R: VectorSpace> Velocity<V, R> {
    /// The velocity of a body at rest.
    pub open spec fn rest_spec() -> Self {
        Velocity { linear: V::zero_spec(), angular: R::zero_spec() }
    }

    /// The velocity of a body at rest.
    pub fn rest() -> (velocity: Self)
        ensures
            velocity == Self::rest_spec(),
    {
        Velocity { linear: V::zero(), angular: R::zero() }
    }
}

/// The state of a body one integration step ahead, staged until committed.
#[derive(Debug, Clone, Copy, PartialEq, Eq)]
pub struct NextFrame<T, V, R> {
    pub transform: T,
    pub velocity: Velocity<V, R>,
}

/// What a transform must offer: position and rotation, the inverse rotation
/// kept beside the rotation, and a flag that every write sets.
pub trait Pose<P>: Sized {
    /// The rotational data type used by the concrete implementation
    type Rotation: Rotation;

    spec fn position_spec(&self) -> P;

    spec fn rotation_spec(&self) -> Self::Rotation;

    spec fn inverse_rotation_spec(&self) -> Self::Rotation;

    spec fn dirty_spec(&self) -> bool;

    /// Borrows the position attribute
    fn position(&self) -> (p: &P)
        ensures
            *p == self.position_spec(),
    ;

    /// Borrows the rotation attribute
    fn rotation(&self) -> (r: &Self::Rotation)
        ensures
            *r == self.rotation_spec(),
    ;

    /// Sets the position attribute; the pose is dirty afterwards.
    fn set_position(&mut self, pos: P)
        ensures
            final(self).position_spec() == pos,
            final(self).rotation_spec() == old(self).rotation_spec(),
            final(self).inverse_rotation_spec() == old(self).inverse_rotation_spec(),
            final(self).dirty_spec(),
    ;

    /// Sets the rotation attribute and, at once, its inverse; the pose is
    /// dirty afterwards.
    fn set_rotation(&mut self, rot: Self::Rotation)
        ensures
            final(self).rotation_spec() == rot,
            final(self).inverse_rotation_spec() == rot.inverse_spec(),
            final(self).position_spec() == old(self).position_spec(),
            final(self).dirty_spec(),
    ;

    /// Checks to see if the transform is dirty: whether position or rotation
    /// was written since the flag was last cleared.
    fn dirty(&self) -> (d: bool)
        ensures
            d == self.dirty_spec(),
    ;

    /// Borrows the inverse rotation attribute
    fn inverse_rotation(&self) -> (r: &Self::Rotation)
        ensures
            *r == self.inverse_rotation_spec(),
    ;
}

/// The sum of the linear forces in `forces`, taken from the front.
pub open spec fn linear_sum<V: VectorSpace, R>(forces: Seq<Force<V, R>>) -> V
    decreases forces.len(),
{
    if forces.len() == 0 {
        V::zero_spec()
    } else {
        let before = linear_sum(forces.drop_last());
        match forces.last() {
            Force::Linear(v) => before.plus_spec(v),
            Force::Angular(_) => before,
        }
    }
}

/// The sum of the angular forces in `forces`, taken from the front.
pub open spec fn angular_sum<V, R: VectorSpace>(forces: Seq<Force<V, R>>) -> R
    decreases forces.len(),
{
    if forces.len() == 0 {
        R::zero_spec()
    } else {
        let before = angular_sum(forces.drop_last());
        match forces.last() {
            Force::Linear(_) => before,
            Force::Angular(r) => before.plus_spec(r),
        }
    }
}

/// A rate after one step: the old rate, plus the acceleration times `dt`.
pub open spec fn next_rate<V: VectorSpace>(rate: V, acceleration: V, dt: Real) -> V {
    rate.plus_spec(acceleration.scaled_spec(dt))
}

/// A position after one step at the rate `linear`.
pub open spec fn next_position<P: Point>(position: P, linear: P::Diff, dt: Real) -> P {
    position.moved_spec(linear.scaled_spec(dt))
}

/// A rotation after one step at the rate `angular`.
pub open spec fn next_rotation<Q: Rotation>(rotation: Q, angular: Q::Angular, dt: Real) -> Q {
    rotation.turned_spec(angular.scaled_spec(dt))
}

/// Adds up the pending forces, linear and angular apart.
pub fn sum_forces<V: VectorSpace, R: VectorSpace>(forces: &Vec<Force<V, R>>) -> (sums: (V, R))
    ensures
        sums.0 == linear_sum(forces@),
        sums.1 == angular_sum(forces@),
{
    let mut linear: V = V::zero();
    let mut angular: R = R::zero();
    let mut i: usize = 0;
    while i < forces.len()
        invariant
            i <= forces.len(),
            linear == linear_sum(forces@.take(i as int)),
            angular == angular_sum(forces@.take(i as int)),
        decreases forces.len() - i,
    {
        proof {
            assert(forces@.take(i + 1).drop_last() == forces@.take(i as int));
        }
        match &forces[i] {
            Force::Linear(v) => {
                linear = linear.plus(v);
            },
            Force::Angular(r) => {
                angular = angular.plus(r);
            },
        }
        i = i + 1;
    }
    proof {
        assert(forces@.take(forces.len() as int) == forces@);
    }
    (linear, angular)
}

/// Mass and inverse mass belong together: a finite mass is positive and the
/// inverse mass is its exact reciprocal; a mass that is not finite marks a
/// body that no force moves, and its inverse mass is zero.
pub open spec fn mass_pair(mass: Real, inverse_mass: Real) -> bool {
    &&& mass.valid()
    &&& inverse_mass.valid()
    &&& if mass.is_finite_spec() {
        mass.is_positive_spec() && inverse_mass == mass.recip_spec()
    } else {
        inverse_mass == Real::zero_spec()
    }
}

/// The frame `frame` holds exactly this position, rotation and velocity,
/// with the inverse rotation that belongs to the rotation, and is dirty.
pub open spec fn stages<T: Pose<P>, P, V, R>(
    frame: NextFrame<T, V, R>,
    position: P,
    rotation: T::Rotation,
    velocity: Velocity<V, R>,
) -> bool {
    &&& frame.velocity == velocity
    &&& frame.transform.position_spec() == position
    &&& frame.transform.rotation_spec() == rotation
    &&& frame.transform.inverse_rotation_spec() == rotation.inverse_spec()
    &&& frame.transform.dirty_spec()
}

/// Writes position, rotation and velocity into the staged frame of a body.
/// A body that has none yet gets one, seeded from its committed pose.
fn stage<T, P, V, R>(
    next: &mut Option<NextFrame<T, V, R>>,
    pose: &T,
    position: P,
    rotation: T::Rotation,
    velocity: Velocity<V, R>,
) where T: Pose<P> + Copy, V: Copy, R: Copy
    ensures
        final(next).is_some(),
        stages(final(next).unwrap(), position, rotation, velocity),
{
    let mut transform: T = match next {
        Some(frame) => frame.transform,
        None => *pose,
    };
    transform.set_position(position);
    transform.set_rotation(rotation);
    *next = Some(NextFrame { transform, velocity });
}

/// A mass and the inverse mass that belongs to it.
#[derive(Debug, Clone, Copy, PartialEq, Eq)]
struct MassPair {
    mass: Real,
    inverse_mass: Real,
}

impl MassPair {
    #[verifier::type_invariant]
    spec fn paired(self) -> bool {
        mass_pair(self.mass, self.inverse_mass)
    }

    fn of(mass: Real) -> (pair: Self)
        requires
            mass.is_positive_spec(),
        ensures
            pair.mass == mass,
            pair.inverse_mass == mass.recip_spec(),
    {
        proof {
            use_type_invariant(&mass);
        }
        MassPair { mass, inverse_mass: mass.recip() }
    }

    fn immovable() -> (pair: Self)
        ensures
            pair.mass == Real::infinite_spec(),
            pair.inverse_mass == Real::zero_spec(),
    {
        proof {
            Real::lemma_constants();
        }
        MassPair { mass: Real::infinite(), inverse_mass: Real::zero() }
    }
}

/// A point mass: it answers linear forces, and no torque turns it.
#[derive(Debug, Clone, PartialEq, Eq)]
pub struct Particle<V, R> {
    mass: MassPair,
    forces: Vec<Force<V, R>>,
}

impl<V, R> Particle<V, R> {
    /// The mass; not finite for a body that no force moves.
    pub closed spec fn mass_spec(&self) -> Real {
        self.mass.mass
    }

    /// The inverse mass; zero for a body that no force moves.
    pub closed spec fn inverse_mass_spec(&self) -> Real {
        self.mass.inverse_mass
    }

    /// The forces applied since the last integration, oldest first.
    pub closed spec fn forces_spec(&self) -> Seq<Force<V, R>> {
        self.forces@
    }

    /// Mass and inverse mass belong together.
    pub open spec fn consistent(&self) -> bool {
        mass_pair(self.mass_spec(), self.inverse_mass_spec())
    }

    /// A body of the given mass, with no force pending.
    pub fn new(mass: Real) -> (body: Self)
        requires
            mass.is_positive_spec(),
        ensures
            body.mass_spec() == mass,
            body.inverse_mass_spec() == mass.recip_spec(),
            body.forces_spec() == Seq::<Force<V, R>>::empty(),
            body.consistent(),
    {
        let pair = MassPair::of(mass);
        proof {
            use_type_invariant(&pair);
        }
        Particle { mass: pair, forces: Vec::new() }
    }

    /// A body that no force moves.
    pub fn immovable() -> (body: Self)
        ensures
            body.mass_spec() == Real::infinite_spec(),
            body.inverse_mass_spec() == Real::zero_spec(),
            body.forces_spec() == Seq::<Force<V, R>>::empty(),
            body.consistent(),
    {
        let pair = MassPair::immovable();
        proof {
            use_type_invariant(&pair);
        }
        Particle { mass: pair, forces: Vec::new() }
    }

    /// The mass; not finite for a body that no force moves.
    pub fn mass(&self) -> (m: Real)
        ensures
            m == self.mass_spec(),
            self.consistent(),
    {
        proof {
            use_type_invariant(&self.mass);
        }
        self.mass.mass
    }

    /// The inverse mass; zero for a body that no force moves.
    pub fn inverse_mass(&self) -> (m: Real)
        ensures
            m == self.inverse_mass_spec(),
            self.consistent(),
    {
        proof {
            use_type_invariant(&self.mass);
        }
        self.mass.inverse_mass
    }

    /// The forces applied since the last integration, oldest first.
    pub fn forces(&self) -> (f: &Vec<Force<V, R>>)
        ensures
            f@ == self.forces_spec(),
    {
        &self.forces
    }

    /// Appends a force to those that wait for the next integration.
    pub fn apply(&mut self, force: Force<V, R>)
        ensures
            final(self).forces_spec() == old(self).forces_spec().push(force),
            final(self).mass_spec() == old(self).mass_spec(),
            final(self).inverse_mass_spec() == old(self).inverse_mass_spec(),
    {
        self.forces.push(force);
    }
}

impl<V: VectorSpace, R: VectorSpace> Particle<V, R> {
    /// The velocity after one step of length `dt`: the linear forces, summed
    /// and scaled by the inverse mass, accelerate the body; its angular rate
    /// stays as it is.
    pub open spec fn next_velocity_spec(&self, velocity: Velocity<V, R>, dt: Real) -> Velocity<
        V,
        R,
    > {
        Velocity {
            linear: next_rate(
                velocity.linear,
                linear_sum(self.forces_spec()).scaled_spec(self.inverse_mass_spec()),
                dt,
            ),
            angular: velocity.angular,
        }
    }

    /// `frame` is what one step stages for this body: the velocity after the
    /// step, the position that the new linear velocity leads to from the
    /// committed one, and the rotation that the angular velocity leads to.
    pub open spec fn stages_spec<T, P>(
        &self,
        velocity: Velocity<V, R>,
        pose: T,
        dt: Real,
        frame: NextFrame<T, V, R>,
    ) -> bool where P: Point<Diff = V>, T: Pose<P>, T::Rotation: Rotation<Angular = R> {
        let after = self.next_velocity_spec(velocity, dt);
        stages(
            frame,
            next_position(pose.position_spec(), after.linear, dt),
            next_rotation(pose.rotation_spec(), after.angular, dt),
            after,
        )
    }

    /// One integration step. Stages in `next` the velocity after the step and
    /// the pose that this new velocity leads to; leaves the committed pose
    /// and velocity alone; empties the pending forces.
    pub fn integrate<T, P>(
        &mut self,
        velocity: &Velocity<V, R>,
        pose: &T,
        dt: Real,
        next: &mut Option<NextFrame<T, V, R>>,
    ) where P: Point<Diff = V>, T: Pose<P> + Copy, T::Rotation: Rotation<Angular = R>
        ensures
            final(self).forces_spec() == Seq::<Force<V, R>>::empty(),
            final(self).mass_spec() == old(self).mass_spec(),
            final(self).inverse_mass_spec() == old(self).inverse_mass_spec(),
            final(next).is_some(),
            old(self).stages_spec(*velocity, *pose, dt, final(next).unwrap()),
    {
        let sums = sum_forces(&self.forces);
        let acceleration = sums.0.scaled(&self.mass.inverse_mass);
        let linear = velocity.linear.plus(&acceleration.scaled(&dt));
        let angular = velocity.angular;
        let position = pose.position().moved(&linear.scaled(&dt));
        let rotation = pose.rotation().turned(&angular.scaled(&dt));
        stage(next, pose, position, rotation, Velocity { linear, angular });
        self.forces.clear();
    }

    /// One integration step of the body `body`, recorded in `log`: the step
    /// of `integrate`, and the entry that the staged frame of `body` has
    /// changed in the current frame.
    pub fn integrate_logged<T, P>(
        &mut self,
        body: u64,
        velocity: &Velocity<V, R>,
        pose: &T,
        dt: Real,
        next: &mut Option<NextFrame<T, V, R>>,
        log: &mut ChangeLog,
    ) where P: Point<Diff = V>, T: Pose<P> + Copy, T::Rotation: Rotation<Angular = R>
        ensures
            final(self).forces_spec() == Seq::<Force<V, R>>::empty(),
            final(self).mass_spec() == old(self).mass_spec(),
            final(self).inverse_mass_spec() == old(self).inverse_mass_spec(),
            final(next).is_some(),
            old(self).stages_spec(*velocity, *pose, dt, final(next).unwrap()),
            final(log).frame_spec() == old(log).frame_spec(),
            final(log).entries_spec() == crate::changelog::after_staging(
                old(log).entries_spec(),
                old(log).frame_spec(),
                body,
            ),
            old(log).wf() ==> final(log).wf(),
    {
        self.integrate(velocity, pose, dt, next);
        log.staged(body);
    }
}

/// Inertia and inverse inertia belong together: the second is the inverse
/// of the first, or both are zero, which marks a body that no torque turns.
pub open spec fn inertia_pair<I: Inertia>(inertia: I, inverse_inertia: I) -> bool {
    inverse_inertia == inertia.inverse_spec() || (inertia == I::zero_spec() && inverse_inertia
        == I::zero_spec())
}

/// An inertia and the inverse inertia that belongs to it.
#[derive(Debug, PartialEq, Eq)]
struct InertiaPair<I: Inertia> {
    tensor: I,
    inverse: I,
}

impl<I: Inertia> Clone for InertiaPair<I> {
    fn clone(&self) -> (pair: Self)
        ensures
            pair == *self,
    {
        proof {
            use_type_invariant(self);
        }
        InertiaPair { tensor: self.tensor, inverse: self.inverse }
    }
}

impl<I: Inertia> InertiaPair<I> {
    #[verifier::type_invariant]
    spec fn paired(self) -> bool {
        inertia_pair(self.tensor, self.inverse)
    }

    fn of(tensor: I) -> (pair: Self)
        ensures
            pair.tensor == tensor,
            pair.inverse == tensor.inverse_spec(),
    {
        InertiaPair { tensor, inverse: tensor.invert() }
    }

    fn immovable() -> (pair: Self)
        ensures
            pair.tensor == I::zero_spec(),
            pair.inverse == I::zero_spec(),
    {
        InertiaPair { tensor: I::zero(), inverse: I::zero() }
    }
}

/// A body with mass and rotational inertia: it answers forces and torques.
#[derive(Debug, Clone, PartialEq, Eq)]
pub struct RigidBody<V, R, I: Inertia> {
    mass: MassPair,
    inertia: InertiaPair<I>,
    forces: Vec<Force<V, R>>,
}

impl<V, R, I: Inertia> RigidBody<V, R, I> {
    /// The mass; not finite for a body that no force moves.
    pub closed spec fn mass_spec(&self) -> Real {
        self.mass.mass
    }

    /// The inverse mass; zero for a body that no force moves.
    pub closed spec fn inverse_mass_spec(&self) -> Real {
        self.mass.inverse_mass
    }

    /// The rotational inertia.
    pub closed spec fn inertia_tensor_spec(&self) -> I {
        self.inertia.tensor
    }

    /// The inverse of the rotational inertia; zero for a body that no torque turns.
    pub closed spec fn inverse_inertia_tensor_spec(&self) -> I {
        self.inertia.inverse
    }

    /// The forces applied since the last integration, oldest first.
    pub closed spec fn forces_spec(&self) -> Seq<Force<V, R>> {
        self.forces@
    }

    /// The forces applied since the last integration, oldest first.
    pub fn forces(&self) -> (f: &Vec<Force<V, R>>)
        ensures
            f@ == self.forces_spec(),
    {
        &self.forces
    }

    /// Appends a force to those that wait for the next integration.
    pub fn apply(&mut self, force: Force<V, R>)
        ensures
            final(self).forces_spec() == old(self).forces_spec().push(force),
            final(self).mass_spec() == old(self).mass_spec(),
            final(self).inverse_mass_spec() == old(self).inverse_mass_spec(),
            final(self).inertia_tensor_spec() == old(self).inertia_tensor_spec(),
            final(self).inverse_inertia_tensor_spec() == old(self).inverse_inertia_tensor_spec(),
    {
        self.forces.push(force);
    }
}

impl<V: VectorSpace, R: VectorSpace, I: Inertia<Angular = R>> RigidBody<V, R, I> {
    /// Mass and inverse mass belong together, and so do inertia and inverse
    /// inertia.
    pub open spec fn consistent(&self) -> bool {
        &&& mass_pair(self.mass_spec(), self.inverse_mass_spec())
        &&& inertia_pair(self.inertia_tensor_spec(), self.inverse_inertia_tensor_spec())
    }

    /// The mass; not finite for a body that no force moves.
    pub fn mass(&self) -> (m: Real)
        ensures
            m == self.mass_spec(),
            self.consistent(),
    {
        proof {
            use_type_invariant(&self.mass);
            use_type_invariant(&self.inertia);
        }
        self.mass.mass
    }

    /// The inverse mass; zero for a body that no force moves.
    pub fn inverse_mass(&self) -> (m: Real)
        ensures
            m == self.inverse_mass_spec(),
            self.consistent(),
    {
        proof {
            use_type_invariant(&self.mass);
            use_type_invariant(&self.inertia);
        }
        self.mass.inverse_mass
    }

    /// The rotational inertia.
    pub fn inertia_tensor(&self) -> (i: &I)
        ensures
            *i == self.inertia_tensor_spec(),
            self.consistent(),
    {
        proof {
            use_type_invariant(&self.mass);
            use_type_invariant(&self.inertia);
        }
        &self.inertia.tensor
    }

    /// The inverse of the rotational inertia; zero for a body that no torque turns.
    pub fn inverse_inertia_tensor(&self) -> (i: &I)
        ensures
            *i == self.inverse_inertia_tensor_spec(),
            self.consistent(),
    {
        proof {
            use_type_invariant(&self.mass);
            use_type_invariant(&self.inertia);
        }
        &self.inertia.inverse
    }

    /// A body of the given mass and inertia, with no force pending. The
    /// inverse inertia is computed here, once.
    pub fn new(mass: Real, inertia: I) -> (body: Self)
        requires
            mass.is_positive_spec(),
        ensures
            body.mass_spec() == mass,
            body.inverse_mass_spec() == mass.recip_spec(),
            body.inertia_tensor_spec() == inertia,
            body.inverse_inertia_tensor_spec() == inertia.inverse_spec(),
            body.forces_spec() == Seq::<Force<V, R>>::empty(),
            body.consistent(),
    {
        let pair = MassPair::of(mass);
        proof {
            use_type_invariant(&pair);
        }
        let inertia = InertiaPair::of(inertia);
        proof {
            use_type_invariant(&inertia);
        }
        RigidBody { mass: pair, inertia, forces: Vec::new() }
    }

    /// A body that neither force nor torque moves.
    pub fn immovable() -> (body: Self)
        ensures
            body.mass_spec() == Real::infinite_spec(),
            body.inverse_mass_spec() == Real::zero_spec(),
            body.inertia_tensor_spec() == I::zero_spec(),
            body.inverse_inertia_tensor_spec() == I::zero_spec(),
            body.forces_spec() == Seq::<Force<V, R>>::empty(),
            body.consistent(),
    {
        let pair = MassPair::immovable();
        proof {
            use_type_invariant(&pair);
        }
        let inertia = InertiaPair::immovable();
        proof {
            use_type_invariant(&inertia);
        }
        RigidBody { mass: pair, inertia, forces: Vec::new() }
    }

    /// The velocity after one step of length `dt`: the linear forces, summed
    /// and scaled by the inverse mass, and the torques, summed and mapped by
    /// the inverse inertia, accelerate the body.
    pub open spec fn next_velocity_spec(&self, velocity: Velocity<V, R>, dt: Real) -> Velocity<
        V,
        R,
    > {
        Velocity {
            linear: next_rate(
                velocity.linear,
                linear_sum(self.forces_spec()).scaled_spec(self.inverse_mass_spec()),
                dt,
            ),
            angular: next_rate(
                velocity.angular,
                self.inverse_inertia_tensor_spec().applied_spec(angular_sum(self.forces_spec())),
                dt,
            ),
        }
    }

    /// `frame` is what one step stages for this body: the velocity after the
    /// step, and the position and rotation that the new velocity leads to
    /// from the committed ones.
    pub open spec fn stages_spec<T, P>(
        &self,
        velocity: Velocity<V, R>,
        pose: T,
        dt: Real,
        frame: NextFrame<T, V, R>,
    ) -> bool where P: Point<Diff = V>, T: Pose<P>, T::Rotation: Rotation<Angular = R> {
        let after = self.next_velocity_spec(velocity, dt);
        stages(
            frame,
            next_position(pose.position_spec(), after.linear, dt),
            next_rotation(pose.rotation_spec(), after.angular, dt),
            after,
        )
    }

    /// One integration step. Stages in `next` the velocity after the step and
    /// the pose that this new velocity leads to; leaves the committed pose
    /// and velocity alone; empties the pending forces.
    pub fn integrate<T, P>(
        &mut self,
        velocity: &Velocity<V, R>,
        pose: &T,
        dt: Real,
        next: &mut Option<NextFrame<T, V, R>>,
    ) where P: Point<Diff = V>, T: Pose<P> + Copy, T::Rotation: Rotation<Angular = R>
        ensures
            final(self).forces_spec() == Seq::<Force<V, R>>::empty(),
            final(self).mass_spec() == old(self).mass_spec(),
            final(self).inverse_mass_spec() == old(self).inverse_mass_spec(),
            final(self).inertia_tensor_spec() == old(self).inertia_tensor_spec(),
            final(self).inverse_inertia_tensor_spec() == old(self).inverse_inertia_tensor_spec(),
            final(next).is_some(),
            old(self).stages_spec(*velocity, *pose, dt, final(next).unwrap()),
    {
        let sums = sum_forces(&self.forces);
        let acceleration = sums.0.scaled(&self.mass.inverse_mass);
        let linear = velocity.linear.plus(&acceleration.scaled(&dt));
        let turning = self.inertia.inverse.applied(&sums.1);
        let angular = velocity.angular.plus(&turning.scaled(&dt));
        let position = pose.position().moved(&linear.scaled(&dt));
        let rotation = pose.rotation().turned(&angular.scaled(&dt));
        stage(next, pose, position, rotation, Velocity { linear, angular });
        self.forces.clear();
    }

    /// One integration step of the body `body`, recorded in `log`: the step
    /// of `integrate`, and the entry that the staged frame of `body` has
    /// changed in the current frame.
    pub fn integrate_logged<T, P>(
        &mut self,
        body: u64,
        velocity: &Velocity<V, R>,
        pose: &T,
        dt: Real,
        next: &mut Option<NextFrame<T, V, R>>,
        log: &mut ChangeLog,
    ) where P: Point<Diff = V>, T: Pose<P> + Copy, T::Rotation: Rotation<Angular = R>
        ensures
            final(self).forces_spec() == Seq::<Force<V, R>>::empty(),
            final(self).mass_spec() == old(self).mass_spec(),
            final(self).inverse_mass_spec() == old(self).inverse_mass_spec(),
            final(self).inertia_tensor_spec() == old(self).inertia_tensor_spec(),
            final(self).inverse_inertia_tensor_spec() == old(self).inverse_inertia_tensor_spec(),
            final(next).is_some(),
            old(self).stages_spec(*velocity, *pose, dt, final(next).unwrap()),
            final(log).frame_spec() == old(log).frame_spec(),
            final(log).entries_spec() == crate::changelog::after_staging(
                old(log).entries_spec(),
                old(log).frame_spec(),
                body,
            ),
            old(log).wf() ==> final(log).wf(),
    {
        self.integrate(velocity, pose, dt, next);
        log.staged(body);
    }
}

/// The frame that a commit takes: the staged one, or, for a body that has
/// none, one seeded from its committed pose and velocity.
pub open spec fn frame_to_commit<T, V, R>(
    next: Option<NextFrame<T, V, R>>,
    pose: T,
    velocity: Velocity<V, R>,
) -> NextFrame<T, V, R> {
    match next {
        Some(frame) => frame,
        None => NextFrame { transform: pose, velocity },
    }
}

/// `pose` and `velocity` are the committed state that a commit makes of
/// `frame`: position, rotation and velocity of the frame, the inverse
/// rotation that belongs to the rotation, and the pose dirty.
pub open spec fn commits<T: Pose<P>, P, V, R>(
    frame: NextFrame<T, V, R>,
    pose: T,
    velocity: Velocity<V, R>,
) -> bool {
    &&& pose.position_spec() == frame.transform.position_spec()
    &&& pose.rotation_spec() == frame.transform.rotation_spec()
    &&& pose.inverse_rotation_spec() == pose.rotation_spec().inverse_spec()
    &&& pose.dirty_spec()
    &&& velocity == frame.velocity
}

/// The commit step: the staged frame becomes the committed state. Position
/// and rotation go through the setters of the pose, which mark it dirty and
/// renew its inverse rotation; the velocity is copied. The staged frame
/// stays; a body without one gets one, seeded from its committed state.
pub fn commit<T, P, V, R>(
    pose: &mut T,
    velocity: &mut Velocity<V, R>,
    next: &mut Option<NextFrame<T, V, R>>,
) where T: Pose<P> + Copy, P: Copy, V: Copy, R: Copy
    ensures
        *final(next) == Some(frame_to_commit(*old(next), *old(pose), *old(velocity))),
        commits(final(next).unwrap(), *final(pose), *final(velocity)),
{
    let frame: NextFrame<T, V, R> = match next {
        Some(frame) => *frame,
        None => NextFrame { transform: *pose, velocity: *velocity },
    };
    pose.set_position(*frame.transform.position());
    pose.set_rotation(*frame.transform.rotation());
    *velocity = frame.velocity;
    *next = Some(frame);
}

/// The commit step of the body `body`, recorded in `log`: the step of
/// `commit`, and the entries that the pose of `body` has changed in the
/// current frame and, where the body had no staged frame, that this has
/// changed too.
pub fn commit_logged<T, P, V, R>(
    body: u64,
    pose: &mut T,
    velocity: &mut Velocity<V, R>,
    next: &mut Option<NextFrame<T, V, R>>,
    log: &mut ChangeLog,
) where T: Pose<P> + Copy, P: Copy, V: Copy, R: Copy
    ensures
        *final(next) == Some(frame_to_commit(*old(next), *old(pose), *old(velocity))),
        commits(final(next).unwrap(), *final(pose), *final(velocity)),
        final(log).frame_spec() == old(log).frame_spec(),
        final(log).entries_spec() == crate::changelog::after_commit(
            old(log).entries_spec(),
            old(log).frame_spec(),
            body,
            old(next).is_none(),
        ),
        old(log).wf() ==> final(log).wf(),
{
    let seeded = next.is_none();
    commit(pose, velocity, next);
    log.committed(body, seeded);
}

/// Mass times inverse mass is exactly one for a body of finite mass, and
/// the inverse mass of a body that no force moves is zero.
pub proof fn lemma_mass_pair(mass: Real, inverse_mass: Real)
    requires
        mass_pair(mass, inverse_mass),
    ensures
        mass.is_finite_spec() ==> mass.times_spec(inverse_mass) == Real::one_spec(),
        mass.is_finite_spec() ==> mass@ * inverse_mass@ == 1real,
        mass.is_finite_spec() ==> inverse_mass.is_positive_spec(),
        !mass.is_finite_spec() ==> inverse_mass == Real::zero_spec(),
{
    if mass.is_finite_spec() {
        Real::lemma_recip(mass);
        Real::lemma_recip_view(mass);
        assert(mass@ * inverse_mass@ == inverse_mass@ * mass@) by (nonlinear_arith);
    }
}

/// Without acceleration a rate stays as it is.
pub proof fn lemma_no_acceleration<V: VectorSpace>(rate: V, dt: Real)
    requires
        rate.valid(),
    ensures
        next_rate(rate, V::zero_spec(), dt) == rate,
{
    V::lemma_scaled_zero(rate, dt);
    V::lemma_plus_zero(rate);
}

/// A point that does not move stays where it is.
pub proof fn lemma_no_motion<P: Point>(position: P, dt: Real)
    requires
        position.valid(),
    ensures
        next_position(position, P::Diff::zero_spec(), dt) == position,
{
    P::Diff::lemma_scaled_zero(P::Diff::zero_spec(), dt);
    P::lemma_moved_zero(position);
}

/// A rotation that does not turn stays as it is.
pub proof fn lemma_no_turn<Q: Rotation>(rotation: Q, dt: Real)
    requires
        rotation.valid(),
    ensures
        next_rotation(rotation, Q::Angular::zero_spec(), dt) == rotation,
{
    Q::Angular::lemma_scaled_zero(Q::Angular::zero_spec(), dt);
    Q::lemma_turned_zero(rotation);
}

impl<V: VectorSpace, R: VectorSpace> Particle<V, R> {
    /// Rest stays at rest: with no force pending, a body at rest has the
    /// same velocity, position and rotation after a step of any length.
    pub proof fn lemma_rest<P: Point<Diff = V>, Q: Rotation<Angular = R>>(
        self,
        position: P,
        rotation: Q,
        dt: Real,
    )
        requires
            self.forces_spec().len() == 0,
            position.valid(),
            rotation.valid(),
        ensures
            ({
                let rest = Velocity::<V, R>::rest_spec();
                &&& self.next_velocity_spec(rest, dt) == rest
                &&& next_position(position, self.next_velocity_spec(rest, dt).linear, dt)
                    == position
                &&& next_rotation(rotation, rest.angular, dt) == rotation
            }),
    {
        V::lemma_zero_valid();
        V::lemma_scaled_zero(V::zero_spec(), self.inverse_mass_spec());
        lemma_no_acceleration(V::zero_spec(), dt);
        lemma_no_motion(position, dt);
        lemma_no_turn(rotation, dt);
    }

    /// No force moves an immovable body: whatever forces are pending, its
    /// velocity after a step is its velocity before.
    pub proof fn lemma_immovable(self, velocity: Velocity<V, R>, dt: Real)
        requires
            self.inverse_mass_spec() == Real::zero_spec(),
            velocity.linear.valid(),
        ensures
            self.next_velocity_spec(velocity, dt) == velocity,
    {
        V::lemma_scaled_zero(linear_sum(self.forces_spec()), dt);
        lemma_no_acceleration(velocity.linear, dt);
    }

    /// A step and its commit, for a body at rest that either has no force
    /// pending or is immovable: position, rotation and velocity after the
    /// commit are those before the step, and the pose is dirty.
    pub proof fn lemma_rest_step<T, P>(
        self,
        pose: T,
        dt: Real,
        frame: NextFrame<T, V, R>,
        pose_after: T,
        velocity_after: Velocity<V, R>,
    ) where P: Point<Diff = V>, T: Pose<P>, T::Rotation: Rotation<Angular = R>
        requires
            self.forces_spec().len() == 0 || self.inverse_mass_spec() == Real::zero_spec(),
            pose.position_spec().valid(),
            pose.rotation_spec().valid(),
            self.stages_spec(Velocity::rest_spec(), pose, dt, frame),
            commits(frame, pose_after, velocity_after),
        ensures
            pose_after.position_spec() == pose.position_spec(),
            pose_after.rotation_spec() == pose.rotation_spec(),
            velocity_after == Velocity::<V, R>::rest_spec(),
            pose_after.dirty_spec(),
    {
        let rest = Velocity::<V, R>::rest_spec();
        V::lemma_zero_valid();
        if self.forces_spec().len() == 0 {
            self.lemma_rest(pose.position_spec(), pose.rotation_spec(), dt);
        } else {
            self.lemma_immovable(rest, dt);
        }
        lemma_no_motion(pose.position_spec(), dt);
        lemma_no_turn(pose.rotation_spec(), dt);
    }
}

impl<V: VectorSpace, R: VectorSpace, I: Inertia<Angular = R>> RigidBody<V, R, I> {
    /// Rest stays at rest: with no force pending, a body at rest has the
    /// same velocity, position and rotation after a step of any length.
    pub proof fn lemma_rest<P: Point<Diff = V>, Q: Rotation<Angular = R>>(
        self,
        position: P,
        rotation: Q,
        dt: Real,
    )
        requires
            self.forces_spec().len() == 0,
            self.inverse_inertia_tensor_spec().valid(),
            position.valid(),
            rotation.valid(),
        ensures
            ({
                let rest = Velocity::<V, R>::rest_spec();
                &&& self.next_velocity_spec(rest, dt) == rest
                &&& next_position(position, self.next_velocity_spec(rest, dt).linear, dt)
                    == position
                &&& next_rotation(rotation, self.next_velocity_spec(rest, dt).angular, dt)
                    == rotation
            }),
    {
        V::lemma_zero_valid();
        R::lemma_zero_valid();
        V::lemma_scaled_zero(V::zero_spec(), self.inverse_mass_spec());
        lemma_no_acceleration(V::zero_spec(), dt);
        I::lemma_zero_torque(self.inverse_inertia_tensor_spec());
        lemma_no_acceleration(R::zero_spec(), dt);
        lemma_no_motion(position, dt);
        lemma_no_turn(rotation, dt);
    }

    /// Neither force nor torque moves an immovable body: whatever forces
    /// are pending, its velocity after a step is its velocity before.
    pub proof fn lemma_immovable(self, velocity: Velocity<V, R>, dt: Real)
        requires
            self.inverse_mass_spec() == Real::zero_spec(),
            self.inverse_inertia_tensor_spec() == I::zero_spec(),
            velocity.linear.valid(),
            velocity.angular.valid(),
        ensures
            self.next_velocity_spec(velocity, dt) == velocity,
    {
        V::lemma_scaled_zero(linear_sum(self.forces_spec()), dt);
        lemma_no_acceleration(velocity.linear, dt);
        I::lemma_zero_applied(angular_sum(self.forces_spec()));
        lemma_no_acceleration(velocity.angular, dt);
    }

    /// A step and its commit, for a body at rest that either has no force
    /// pending or is immovable: position, rotation and velocity after the
    /// commit are those before the step, and the pose is dirty.
    pub proof fn lemma_rest_step<T, P>(
        self,
        pose: T,
        dt: Real,
        frame: NextFrame<T, V, R>,
        pose_after: T,
        velocity_after: Velocity<V, R>,
    ) where P: Point<Diff = V>, T: Pose<P>, T::Rotation: Rotation<Angular = R>
        requires
            (self.forces_spec().len() == 0 && self.inverse_inertia_tensor_spec().valid()) || (
            self.inverse_mass_spec() == Real::zero_spec() && self.inverse_inertia_tensor_spec()
                == I::zero_spec()),
            pose.position_spec().valid(),
            pose.rotation_spec().valid(),
            self.stages_spec(Velocity::rest_spec(), pose, dt, frame),
            commits(frame, pose_after, velocity_after),
        ensures
            pose_after.position_spec() == pose.position_spec(),
            pose_after.rotation_spec() == pose.rotation_spec(),
            velocity_after == Velocity::<V, R>::rest_spec(),
            pose_after.dirty_spec(),
    {
        let rest = Velocity::<V, R>::rest_spec();
        V::lemma_zero_valid();
        R::lemma_zero_valid();
        if self.forces_spec().len() == 0 && self.inverse_inertia_tensor_spec().valid() {
            self.lemma_rest(pose.position_spec(), pose.rotation_spec(), dt);
        } else {
            self.lemma_immovable(rest, dt);
        }
        lemma_no_motion(pose.position_spec(), dt);
        lemma_no_turn(pose.rotation_spec(), dt);
    }
}

/// What the force carries is valid.
pub open spec fn force_valid<V: VectorSpace, R: VectorSpace>(force: Force<V, R>) -> bool {
    match force {
        Force::Linear(v) => v.valid(),
        Force::Angular(r) => r.valid(),
    }
}

/// The forces `forces` with the two at `i` and `i + 1` in each other's place.
pub open spec fn swapped<V, R>(forces: Seq<Force<V, R>>, i: int) -> Seq<Force<V, R>> {
    forces.update(i, forces[i + 1]).update(i + 1, forces[i])
}

/// Sums of valid forces are valid.
pub proof fn lemma_sums_valid<V: VectorSpace, R: VectorSpace>(forces: Seq<Force<V, R>>)
    requires
        forall|k: int| 0 <= k < forces.len() ==> force_valid(#[trigger] forces[k]),
    ensures
        linear_sum(forces).valid(),
        angular_sum(forces).valid(),
    decreases forces.len(),
{
    V::lemma_zero_valid();
    R::lemma_zero_valid();
    if forces.len() > 0 {
        let front = forces.drop_last();
        assert forall|k: int| 0 <= k < front.len() implies force_valid(#[trigger] front[k]) by {
            assert(front[k] == forces[k]);
        }
        lemma_sums_valid(front);
        assert(force_valid(forces[forces.len() - 1]));
        Real::lemma_constants();
        match forces.last() {
            Force::Linear(v) => {
                V::lemma_closed(linear_sum(front), v, Real::zero_spec());
            },
            Force::Angular(r) => {
                R::lemma_closed(angular_sum(front), r, Real::zero_spec());
            },
        }
    }
}

/// The order of the forces does not matter, as far as the sums can be
/// represented: two neighbours in the list may change places without a
/// change to either sum, where the sums up to and with the two are finite
/// in both orders. (Any other order is reached by such changes.)
pub proof fn lemma_sum_swap<V: VectorSpace, R: VectorSpace>(forces: Seq<Force<V, R>>, i: int)
    requires
        0 <= i,
        i + 1 < forces.len(),
        forall|k: int| 0 <= k < forces.len() ==> force_valid(#[trigger] forces[k]),
        linear_sum(forces.take(i + 2)).finite(),
        linear_sum(swapped(forces, i).take(i + 2)).finite(),
        angular_sum(forces.take(i + 2)).finite(),
        angular_sum(swapped(forces, i).take(i + 2)).finite(),
    ensures
        linear_sum(swapped(forces, i)) == linear_sum(forces),
        angular_sum(swapped(forces, i)) == angular_sum(forces),
{
    lemma_sum_swap_upto(forces, i, forces.len() as int);
    assert(forces.take(forces.len() as int) == forces);
    assert(swapped(forces, i).take(forces.len() as int) == swapped(forces, i));
}

proof fn lemma_sum_swap_upto<V: VectorSpace, R: VectorSpace>(
    forces: Seq<Force<V, R>>,
    i: int,
    upto: int,
)
    requires
        0 <= i,
        i + 2 <= upto <= forces.len(),
        forall|k: int| 0 <= k < forces.len() ==> force_valid(#[trigger] forces[k]),
        linear_sum(forces.take(i + 2)).finite(),
        linear_sum(swapped(forces, i).take(i + 2)).finite(),
        angular_sum(forces.take(i + 2)).finite(),
        angular_sum(swapped(forces, i).take(i + 2)).finite(),
    ensures
        linear_sum(swapped(forces, i).take(upto)) == linear_sum(forces.take(upto)),
        angular_sum(swapped(forces, i).take(upto)) == angular_sum(forces.take(upto)),
    decreases upto,
{
    let other = swapped(forces, i);
    if upto == i + 2 {
        let before = forces.take(i);
        assert(forces.take(i + 2).drop_last() == forces.take(i + 1));
        assert(forces.take(i + 1).drop_last() == before);
        assert(other.take(i + 2).drop_last() == other.take(i + 1));
        assert(other.take(i + 1).drop_last() == before);
        assert forall|k: int| 0 <= k < before.len() implies force_valid(#[trigger] before[k]) by {
            assert(before[k] == forces[k]);
        }
        lemma_sums_valid(before);
        assert(force_valid(forces[i]));
        assert(force_valid(forces[i + 1]));
        assert(forces.take(i + 2).last() == forces[i + 1]);
        assert(forces.take(i + 1).last() == forces[i]);
        assert(other.take(i + 2).last() == forces[i]);
        assert(other.take(i + 1).last() == forces[i + 1]);
        let s1 = forces.take(i + 1);
        let s2 = forces.take(i + 2);
        let t1 = other.take(i + 1);
        let t2 = other.take(i + 2);
        let lin = linear_sum(before);
        let ang = angular_sum(before);
        match (forces[i], forces[i + 1]) {
            (Force::Linear(v), Force::Linear(w)) => {
                assert(linear_sum(s1) == lin.plus_spec(v));
                assert(linear_sum(s2) == lin.plus_spec(v).plus_spec(w));
                assert(linear_sum(t1) == lin.plus_spec(w));
                assert(linear_sum(t2) == lin.plus_spec(w).plus_spec(v));
                assert(angular_sum(s1) == ang);
                assert(angular_sum(s2) == ang);
                assert(angular_sum(t1) == ang);
                assert(angular_sum(t2) == ang);
                V::lemma_plus_swap(lin, v, w);
            },
            (Force::Angular(r), Force::Angular(q)) => {
                assert(angular_sum(s1) == ang.plus_spec(r));
                assert(angular_sum(s2) == ang.plus_spec(r).plus_spec(q));
                assert(angular_sum(t1) == ang.plus_spec(q));
                assert(angular_sum(t2) == ang.plus_spec(q).plus_spec(r));
                assert(linear_sum(s1) == lin);
                assert(linear_sum(s2) == lin);
                assert(linear_sum(t1) == lin);
                assert(linear_sum(t2) == lin);
                R::lemma_plus_swap(ang, r, q);
            },
            (Force::Linear(v), Force::Angular(q)) => {
                assert(linear_sum(s1) == lin.plus_spec(v));
                assert(linear_sum(s2) == lin.plus_spec(v));
                assert(linear_sum(t1) == lin);
                assert(linear_sum(t2) == lin.plus_spec(v));
                assert(angular_sum(s1) == ang);
                assert(angular_sum(s2) == ang.plus_spec(q));
                assert(angular_sum(t1) == ang.plus_spec(q));
                assert(angular_sum(t2) == ang.plus_spec(q));
            },
            (Force::Angular(r), Force::Linear(w)) => {
                assert(linear_sum(s1) == lin);
                assert(linear_sum(s2) == lin.plus_spec(w));
                assert(linear_sum(t1) == lin.plus_spec(w));
                assert(linear_sum(t2) == lin.plus_spec(w));
                assert(angular_sum(s1) == ang.plus_spec(r));
                assert(angular_sum(s2) == ang.plus_spec(r));
                assert(angular_sum(t1) == ang);
                assert(angular_sum(t2) == ang.plus_spec(r));
            },
        }
    } else {
        lemma_sum_swap_upto(forces, i, upto - 1);
        assert(forces.take(upto).drop_last() == forces.take(upto - 1));
        assert(other.take(upto).drop_last() == other.take(upto - 1));
        assert(other.take(upto).last() == forces.take(upto).last());
    }
}

} // verus!
