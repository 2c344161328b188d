//! What the dynamics ask of the quantities they move: vectors that add and
//! scale, points that move by a vector, rotations that compose, invert and
//! turn, and inertia that maps a torque to an angular acceleration.
//!
//! Each trait pairs its executable methods with spec functions that say what
//! they compute, and with the few laws that the dynamics rest on.

use crate::scalar::Real;
use vstd::prelude::*;

verus! {

/// Velocities, forces, displacements: quantities with a zero, a sum and a
/// multiple by a scalar.
pub trait VectorSpace: Sized + Copy {
    /// Every scalar inside is in its canonical form.
    spec fn valid(self) -> bool;

    /// No scalar inside has left the representable range.
    spec fn finite(self) -> bool;

    /// The quantity zero.
    spec fn zero_spec() -> Self;

    /// The sum.
    spec fn plus_spec(self, rhs: Self) -> Self;

    /// The multiple `k` times `self`.
    spec fn scaled_spec(self, k: Real) -> Self;

    /// The quantity zero.
    fn zero() -> (z: Self)
        ensures
            z == Self::zero_spec(),
            z.valid(),
    ;

    /// The sum.
    fn plus(&self, rhs: &Self) -> (r: Self)
        ensures
            r == self.plus_spec(*rhs),
    ;

    /// The multiple `k` times `self`.
    fn scaled(&self, k: &Real) -> (r: Self)
        ensures
            r == self.scaled_spec(*k),
    ;

    /// Zero is valid.
    proof fn lemma_zero_valid()
        ensures
            Self::zero_spec().valid(),
    ;

    /// Sums and multiples of valid quantities are valid.
    proof fn lemma_closed(a: Self, b: Self, k: Real)
        requires
            a.valid(),
            b.valid(),
            k.valid(),
        ensures
            a.plus_spec(b).valid(),
            a.scaled_spec(k).valid(),
    ;

    /// Adding zero changes nothing.
    proof fn lemma_plus_zero(a: Self)
        requires
            a.valid(),
        ensures
            a.plus_spec(Self::zero_spec()) == a,
            Self::zero_spec().plus_spec(a) == a,
    ;

    /// Two terms may change places in a sum, where both orders can be
    /// represented.
    proof fn lemma_plus_swap(a: Self, b: Self, c: Self)
        requires
            a.valid(),
            b.valid(),
            c.valid(),
            a.plus_spec(b).plus_spec(c).finite(),
            a.plus_spec(c).plus_spec(b).finite(),
        ensures
            a.plus_spec(b).plus_spec(c) == a.plus_spec(c).plus_spec(b),
    ;

    /// Any multiple of zero, and the zero multiple of anything, is zero.
    proof fn lemma_scaled_zero(a: Self, k: Real)
        ensures
            a.scaled_spec(Real::zero_spec()) == Self::zero_spec(),
            Self::zero_spec().scaled_spec(k) == Self::zero_spec(),
    ;
}

/// Positions: they move by a displacement.
pub trait Point: Sized + Copy {
    /// The displacements between positions.
    type Diff: VectorSpace;

    /// Every scalar inside is in its canonical form.
    spec fn valid(self) -> bool;

    /// The position `by` away from `self`.
    spec fn moved_spec(self, by: Self::Diff) -> Self;

    /// The position `by` away from `self`.
    fn moved(&self, by: &Self::Diff) -> (r: Self)
        ensures
            r == self.moved_spec(*by),
    ;

    /// Moving a valid position by a valid displacement gives a valid position.
    proof fn lemma_closed(p: Self, by: Self::Diff)
        requires
            p.valid(),
            by.valid(),
        ensures
            p.moved_spec(by).valid(),
    ;

    /// Moving by the zero displacement changes nothing.
    proof fn lemma_moved_zero(p: Self)
        requires
            p.valid(),
        ensures
            p.moved_spec(Self::Diff::zero_spec()) == p,
    ;
}

/// Orientations: they compose, have an inverse, and turn further by an
/// angular displacement.
pub trait Rotation: Sized + Copy {
    /// The angular rates and displacements.
    type Angular: VectorSpace;

    /// Every scalar inside is canonical, and what is finite is a rotation.
    spec fn valid(self) -> bool;

    /// No scalar inside has left the representable range.
    spec fn finite(self) -> bool;

    /// The rotation that turns nothing.
    spec fn identity_spec() -> Self;

    /// `self` followed by `next`.
    spec fn followed_by_spec(self, next: Self) -> Self;

    /// The inverse.
    spec fn inverse_spec(self) -> Self;

    /// `self` turned further by the angular displacement `by`.
    spec fn turned_spec(self, by: Self::Angular) -> Self;

    /// The rotation that turns nothing.
    fn identity() -> (r: Self)
        ensures
            r == Self::identity_spec(),
            r.valid(),
    ;

    /// `self` followed by `next`.
    fn followed_by(&self, next: &Self) -> (r: Self)
        ensures
            r == self.followed_by_spec(*next),
    ;

    /// The inverse.
    fn invert(&self) -> (r: Self)
        ensures
            r == self.inverse_spec(),
    ;

    /// `self` turned further by the angular displacement `by`.
    fn turned(&self, by: &Self::Angular) -> (r: Self)
        ensures
            r == self.turned_spec(*by),
    ;

    /// The identity is valid; composites, inverses and turns of valid rotations
    /// are valid.
    proof fn lemma_closed(a: Self, b: Self, by: Self::Angular)
        requires
            a.valid(),
            b.valid(),
            by.valid(),
        ensures
            Self::identity_spec().valid(),
            a.followed_by_spec(b).valid(),
            a.inverse_spec().valid(),
            a.turned_spec(by).valid(),
    ;

    /// A rotation followed by its inverse is the identity, wherever the
    /// composite can be represented at all.
    proof fn lemma_inverse(a: Self)
        requires
            a.valid(),
            a.followed_by_spec(a.inverse_spec()).finite(),
        ensures
            a.followed_by_spec(a.inverse_spec()) == Self::identity_spec(),
    ;

    /// Inverting twice gives the rotation back.
    proof fn lemma_inverse_twice(a: Self)
        requires
            a.valid(),
        ensures
            a.inverse_spec().inverse_spec() == a,
    ;

    /// Turning by the zero angular displacement changes nothing.
    proof fn lemma_turned_zero(a: Self)
        requires
            a.valid(),
        ensures
            a.turned_spec(Self::Angular::zero_spec()) == a,
    ;
}

/// Rotational inertia: it maps a torque to the angular acceleration that the
/// torque causes. The zero inertia maps every torque to zero; it is the
/// inverse inertia of a body that no torque can turn.
pub trait Inertia: Sized + Copy {
    /// The angular rates and displacements.
    type Angular: VectorSpace;

    /// Every scalar inside is in its canonical form.
    spec fn valid(self) -> bool;

    /// No scalar inside has left the representable range.
    spec fn finite(self) -> bool;

    /// The inertia that answers every torque with zero.
    spec fn zero_spec() -> Self;

    /// The inverse.
    spec fn inverse_spec(self) -> Self;

    /// The angular acceleration that `torque` causes.
    spec fn applied_spec(self, torque: Self::Angular) -> Self::Angular;

    /// The quantity zero.
    fn zero() -> (z: Self)
        ensures
            z == Self::zero_spec(),
            z.valid(),
    ;

    /// The inverse.
    fn invert(&self) -> (r: Self)
        ensures
            r == self.inverse_spec(),
    ;

    /// The angular acceleration that `torque` causes.
    fn applied(&self, torque: &Self::Angular) -> (r: Self::Angular)
        ensures
            r == self.applied_spec(*torque),
    ;

    /// Zero is valid; the inverse of a valid inertia and what it makes of a
    /// valid torque are valid.
    proof fn lemma_closed(a: Self, torque: Self::Angular)
        requires
            a.valid(),
            torque.valid(),
        ensures
            Self::zero_spec().valid(),
            a.inverse_spec().valid(),
            a.applied_spec(torque).valid(),
    ;

    /// The zero inertia answers every torque with zero.
    proof fn lemma_zero_applied(torque: Self::Angular)
        ensures
            Self::zero_spec().applied_spec(torque) == Self::Angular::zero_spec(),
    ;

    /// The inverse inertia undoes the inertia: applied to what the inertia
    /// made of a torque it gives the torque back, wherever the inverse
    /// exists and the two results can be represented.
    proof fn lemma_inverse(a: Self, torque: Self::Angular)
        requires
            a.valid(),
            torque.valid(),
            a.inverse_spec().finite(),
            a.applied_spec(torque).finite(),
            a.inverse_spec().applied_spec(a.applied_spec(torque)).finite(),
        ensures
            a.inverse_spec().applied_spec(a.applied_spec(torque)) == torque,
    ;

    /// No torque, no angular acceleration, whatever the inertia.
    proof fn lemma_zero_torque(a: Self)
        requires
            a.valid(),
        ensures
            a.applied_spec(Self::Angular::zero_spec()) == Self::Angular::zero_spec(),
    ;
}

impl VectorSpace for Real {
    open spec fn valid(self) -> bool {
        Real::valid(self)
    }

    open spec fn finite(self) -> bool {
        self.is_finite_spec()
    }

    open spec fn zero_spec() -> Self {
        Real::zero_spec()
    }

    open spec fn plus_spec(self, rhs: Self) -> Self {
        Real::plus_spec(self, rhs)
    }

    open spec fn scaled_spec(self, k: Real) -> Self {
        Real::times_spec(self, k)
    }

    fn zero() -> (z: Self) {
        Real::zero()
    }

    fn plus(&self, rhs: &Self) -> (r: Self) {
        Real::plus(self, rhs)
    }

    fn scaled(&self, k: &Real) -> (r: Self) {
        Real::times(self, k)
    }

    proof fn lemma_zero_valid() {
        Real::lemma_constants();
    }

    proof fn lemma_closed(a: Self, b: Self, k: Real) {
        Real::lemma_closed(a, b);
        Real::lemma_closed(a, k);
    }

    proof fn lemma_plus_zero(a: Self) {
        Real::lemma_plus_zero(a);
    }

    proof fn lemma_plus_swap(a: Self, b: Self, c: Self) {
        Real::lemma_plus_swap(a, b, c);
    }

    proof fn lemma_scaled_zero(a: Self, k: Real) {
        Real::lemma_times_zero(a);
        Real::lemma_times_zero(k);
    }
}

} // verus!
