//! The plane: exact vectors, points and rotations in two dimensions. Angular
//! rates and inertia in the plane are plain scalars.

use crate::algebra::{Inertia, Point, Rotation, VectorSpace};
use crate::scalar::Real;
use vstd::prelude::*;

verus! {

/// A displacement, velocity or force in the plane.
#[derive(Debug, Clone, Copy, PartialEq, Eq, Structural)]
pub struct Vector2 {
    pub x: Real,
    pub y: Real,
}

/// A position in the plane.
#[derive(Debug, Clone, Copy, PartialEq, Eq, Structural)]
pub struct Point2 {
    pub x: Real,
    pub y: Real,
}

impl Vector2 {
    /// The vector with these two components.
    pub fn new(x: Real, y: Real) -> (v: Self)
        ensures
            v == (Vector2 { x, y }),
            VectorSpace::valid(v),
    {
        proof {
            use_type_invariant(&x);
            use_type_invariant(&y);
        }
        Vector2 { x, y }
    }
}

impl Point2 {
    /// The point with these two coordinates.
    pub fn new(x: Real, y: Real) -> (p: Self)
        ensures
            p == (Point2 { x, y }),
            Point::valid(p),
    {
        proof {
            use_type_invariant(&x);
            use_type_invariant(&y);
        }
        Point2 { x, y }
    }
}

impl VectorSpace for Vector2 {
    open spec fn valid(self) -> bool {
        self.x.valid() && self.y.valid()
    }

    open spec fn finite(self) -> bool {
        self.x.is_finite_spec() && self.y.is_finite_spec()
    }

    open spec fn zero_spec() -> Self {
        Vector2 { x: Real::zero_spec(), y: Real::zero_spec() }
    }

    open spec fn plus_spec(self, rhs: Self) -> Self {
        Vector2 { x: self.x.plus_spec(rhs.x), y: self.y.plus_spec(rhs.y) }
    }

    open spec fn scaled_spec(self, k: Real) -> Self {
        Vector2 { x: self.x.times_spec(k), y: self.y.times_spec(k) }
    }

    fn zero() -> (z: Self) {
        Vector2 { x: Real::zero(), y: Real::zero() }
    }

    fn plus(&self, rhs: &Self) -> (r: Self) {
        Vector2 { x: self.x.plus(&rhs.x), y: self.y.plus(&rhs.y) }
    }

    fn scaled(&self, k: &Real) -> (r: Self) {
        Vector2 { x: self.x.times(k), y: self.y.times(k) }
    }

    proof fn lemma_zero_valid() {
        Real::lemma_constants();
    }

    proof fn lemma_closed(a: Self, b: Self, k: Real) {
        Real::lemma_closed(a.x, b.x);
        Real::lemma_closed(a.y, b.y);
        Real::lemma_closed(a.x, k);
        Real::lemma_closed(a.y, k);
    }

    proof fn lemma_plus_zero(a: Self) {
        Real::lemma_plus_zero(a.x);
        Real::lemma_plus_zero(a.y);
    }

    proof fn lemma_plus_swap(a: Self, b: Self, c: Self) {
        Real::lemma_plus_swap(a.x, b.x, c.x);
        Real::lemma_plus_swap(a.y, b.y, c.y);
    }

    proof fn lemma_scaled_zero(a: Self, k: Real) {
        Real::lemma_times_zero(a.x);
        Real::lemma_times_zero(a.y);
        Real::lemma_times_zero(k);
    }
}

impl Point for Point2 {
    type Diff = Vector2;

    open spec fn valid(self) -> bool {
        self.x.valid() && self.y.valid()
    }

    open spec fn moved_spec(self, by: Vector2) -> Self {
        Point2 { x: self.x.plus_spec(by.x), y: self.y.plus_spec(by.y) }
    }

    fn moved(&self, by: &Vector2) -> (r: Self) {
        Point2 { x: self.x.plus(&by.x), y: self.y.plus(&by.y) }
    }

    proof fn lemma_closed(p: Self, by: Vector2) {
        Real::lemma_closed(p.x, by.x);
        Real::lemma_closed(p.y, by.y);
    }

    proof fn lemma_moved_zero(p: Self) {
        Real::lemma_plus_zero(p.x);
        Real::lemma_plus_zero(p.y);
    }
}

/// In the plane a moment of inertia is a scalar: it maps a torque to the
/// torque times itself, and its inverse is its reciprocal.
impl Inertia for Real {
    type Angular = Real;

    open spec fn valid(self) -> bool {
        Real::valid(self)
    }

    open spec fn finite(self) -> bool {
        self.is_finite_spec()
    }

    open spec fn zero_spec() -> Self {
        Real::zero_spec()
    }

    open spec fn inverse_spec(self) -> Self {
        Real::recip_spec(self)
    }

    open spec fn applied_spec(self, torque: Real) -> Real {
        Real::times_spec(self, torque)
    }

    fn zero() -> (z: Self) {
        Real::zero()
    }

    fn invert(&self) -> (r: Self) {
        Real::recip(self)
    }

    fn applied(&self, torque: &Real) -> (r: Real) {
        Real::times(self, torque)
    }

    proof fn lemma_closed(a: Self, torque: Real) {
        Real::lemma_constants();
        Real::lemma_closed(a, torque);
    }

    proof fn lemma_zero_applied(torque: Real) {
        Real::lemma_times_zero(torque);
    }

    proof fn lemma_inverse(a: Self, torque: Real) {
        let inverse = a.recip_spec();
        let turned = a.times_spec(torque);
        let back = inverse.times_spec(turned);
        Real::lemma_constants();
        Real::lemma_closed(a, torque);
        Real::lemma_closed(inverse, turned);
        Real::lemma_recip(a);
        Real::lemma_recip_view(a);
        Real::lemma_times_finite(a, torque);
        Real::lemma_times_finite(inverse, turned);
        let x = a@;
        let y = inverse@;
        let t = torque@;
        assert(y * (x * t) == t) by (nonlinear_arith)
            requires
                y * x == 1real,
        ;
        Real::lemma_view_injective(back, torque);
    }

    proof fn lemma_zero_torque(a: Self) {
        Real::lemma_times_zero(a);
    }
}

/// The product of two points of the unit circle, taken as complex numbers,
/// lies on the unit circle.
proof fn lemma_circle_product(p: real, q: real, u: real, v: real)
    requires
        p * p + q * q == 1real,
        u * u + v * v == 1real,
    ensures
        (p * u + -(q * v)) * (p * u + -(q * v)) + (p * v + q * u) * (p * v + q * u) == 1real,
{
    let pu = p * u;
    let qv = q * v;
    let pv = p * v;
    let qu = q * u;
    let pp = p * p;
    let qq = q * q;
    let uu = u * u;
    let vv = v * v;
    assert((pu + -qv) * (pu + -qv) == pu * pu - 2real * (pu * qv) + qv * qv) by (nonlinear_arith);
    assert((pv + qu) * (pv + qu) == pv * pv + 2real * (pv * qu) + qu * qu) by (nonlinear_arith);
    assert(pu * qv == pv * qu) by (nonlinear_arith)
        requires
            pu == p * u,
            qv == q * v,
            pv == p * v,
            qu == q * u,
    ;
    assert(pu * pu == pp * uu) by (nonlinear_arith)
        requires
            pu == p * u,
            pp == p * p,
            uu == u * u,
    ;
    assert(qv * qv == qq * vv) by (nonlinear_arith)
        requires
            qv == q * v,
            qq == q * q,
            vv == v * v,
    ;
    assert(pv * pv == pp * vv) by (nonlinear_arith)
        requires
            pv == p * v,
            pp == p * p,
            vv == v * v,
    ;
    assert(qu * qu == qq * uu) by (nonlinear_arith)
        requires
            qu == q * u,
            qq == q * q,
            uu == u * u,
    ;
    assert(pp * uu + qq * vv + pp * vv + qq * uu == (pp + qq) * (uu + vv)) by (nonlinear_arith);
    assert((pp + qq) * (uu + vv) == 1real) by (nonlinear_arith)
        requires
            pp + qq == 1real,
            uu + vv == 1real,
    ;
}

/// A rotation in the plane, held as the cosine and sine of its angle: two
/// exact fractions whose squares add up to one. A rotation whose cosine or
/// sine has left the representable range is the one rotation "not finite".
#[derive(Debug, Clone, Copy, PartialEq, Eq, Structural)]
pub struct Rotation2 {
    cos: Real,
    sin: Real,
}

impl Rotation2 {
    /// The cosine of the angle; not finite for the rotation that is not finite.
    pub closed spec fn cos_spec(self) -> Real {
        self.cos
    }

    /// The sine of the angle; not finite for the rotation that is not finite.
    pub closed spec fn sin_spec(self) -> Real {
        self.sin
    }

    /// The rotation with this cosine and sine.
    pub closed spec fn pair(cos: Real, sin: Real) -> Rotation2 {
        Rotation2 { cos, sin }
    }

    /// The rotation with this cosine and sine where both are finite; the
    /// rotation that is not finite otherwise.
    pub open spec fn checked(cos: Real, sin: Real) -> Rotation2 {
        if cos.is_finite_spec() && sin.is_finite_spec() {
            Rotation2::pair(cos, sin)
        } else {
            Rotation2::pair(Real::infinite_spec(), Real::infinite_spec())
        }
    }

    /// Cosine and sine are the two coordinates of a point on the unit circle.
    pub open spec fn on_circle(cos: Real, sin: Real) -> bool {
        cos@ * cos@ + sin@ * sin@ == 1real
    }

    /// Cosine and sine are canonical scalars; both are finite and lie on the
    /// unit circle, or neither is finite.
    #[verifier::type_invariant]
    pub open spec fn well_formed(self) -> bool {
        &&& self.cos_spec().valid()
        &&& self.sin_spec().valid()
        &&& if self.cos_spec().is_finite_spec() {
            self.sin_spec().is_finite_spec() && Rotation2::on_circle(
                self.cos_spec(),
                self.sin_spec(),
            )
        } else {
            !self.sin_spec().is_finite_spec()
        }
    }

    /// What `pair` builds has the parts it was built from.
    pub proof fn lemma_pair(cos: Real, sin: Real)
        ensures
            Rotation2::pair(cos, sin).cos_spec() == cos,
            Rotation2::pair(cos, sin).sin_spec() == sin,
    {
    }

    /// Two rotations with the same cosine and sine are the same rotation.
    pub proof fn lemma_same_parts(a: Rotation2, b: Rotation2)
        requires
            a.cos_spec() == b.cos_spec(),
            a.sin_spec() == b.sin_spec(),
        ensures
            a == b,
    {
    }

    /// The difference `a * b - c * d`.
    pub open spec fn cross_minus(a: Real, b: Real, c: Real, d: Real) -> Real {
        a.times_spec(b).plus_spec(c.times_spec(d).negated_spec())
    }

    /// The sum `a * b + c * d`.
    pub open spec fn cross_plus(a: Real, b: Real, c: Real, d: Real) -> Real {
        a.times_spec(b).plus_spec(c.times_spec(d))
    }

    /// The rotation by the angle whose half has the tangent `t`: cosine
    /// `(1 - t*t) / (1 + t*t)` and sine `2*t / (1 + t*t)`.
    pub open spec fn half_tangent_spec(t: Real) -> Rotation2 {
        let square = t.times_spec(t);
        let scale = Real::one_spec().plus_spec(square).recip_spec();
        if scale.is_finite_spec() {
            Rotation2::checked(
                Real::one_spec().plus_spec(square.negated_spec()).times_spec(scale),
                t.plus_spec(t).times_spec(scale),
            )
        } else {
            Rotation2::pair(Real::infinite_spec(), Real::infinite_spec())
        }
    }

    /// The cosine of the angle.
    pub fn cos(&self) -> (c: Real)
        ensures
            c == self.cos_spec(),
    {
        self.cos
    }

    /// The sine of the angle.
    pub fn sin(&self) -> (s: Real)
        ensures
            s == self.sin_spec(),
    {
        self.sin
    }

    /// Whether cosine and sine are finite.
    pub fn is_finite(&self) -> (b: bool)
        ensures
            b == Rotation::finite(*self),
            self.well_formed(),
    {
        proof {
            use_type_invariant(self);
        }
        self.cos.is_finite()
    }

    fn not_finite() -> (r: Self)
        ensures
            r == Rotation2::pair(Real::infinite_spec(), Real::infinite_spec()),
    {
        proof {
            Real::lemma_constants();
        }
        Rotation2 { cos: Real::infinite(), sin: Real::infinite() }
    }

    /// Builds the rotation from a cosine and a sine known to lie on the
    /// unit circle wherever both are finite.
    fn of_parts(cos: Real, sin: Real) -> (r: Self)
        requires
            cos.is_finite_spec() && sin.is_finite_spec() ==> Rotation2::on_circle(cos, sin),
        ensures
            r == Rotation2::checked(cos, sin),
    {
        proof {
            use_type_invariant(&cos);
            use_type_invariant(&sin);
        }
        if cos.is_finite() && sin.is_finite() {
            Rotation2 { cos, sin }
        } else {
            Rotation2::not_finite()
        }
    }

    /// The rotation by the angle whose half has the tangent `t`. Every
    /// fraction `t` gives an exact rotation, as far as the range allows.
    pub fn half_tangent(t: Real) -> (r: Self)
        ensures
            r == Rotation2::half_tangent_spec(t),
            r.well_formed(),
    {
        proof {
            use_type_invariant(&t);
        }
        let square = t.times(&t);
        let scale = Real::one().plus(&square).recip();
        if scale.is_finite() {
            let cos = Real::one().plus(&square.negated()).times(&scale);
            let sin = t.plus(&t).times(&scale);
            proof {
                Rotation2::lemma_half_tangent_on_circle(t);
            }
            let r = Rotation2::of_parts(cos, sin);
            proof {
                use_type_invariant(&r);
            }
            r
        } else {
            let r = Rotation2::not_finite();
            proof {
                use_type_invariant(&r);
            }
            r
        }
    }

    /// Cosine and sine built from a half tangent lie on the unit circle.
    pub proof fn lemma_half_tangent_on_circle(t: Real)
        requires
            t.valid(),
        ensures
            ({
                let square = t.times_spec(t);
                let scale = Real::one_spec().plus_spec(square).recip_spec();
                let cos = Real::one_spec().plus_spec(square.negated_spec()).times_spec(scale);
                let sin = t.plus_spec(t).times_spec(scale);
                scale.is_finite_spec() && cos.is_finite_spec() && sin.is_finite_spec()
                    ==> Rotation2::on_circle(cos, sin)
            }),
    {
        let one = Real::one_spec();
        let square = t.times_spec(t);
        let above = one.plus_spec(square);
        let scale = above.recip_spec();
        let below = one.plus_spec(square.negated_spec());
        let twice = t.plus_spec(t);
        let cos = below.times_spec(scale);
        let sin = twice.times_spec(scale);
        Real::lemma_constants();
        Real::lemma_constants_view();
        Real::lemma_closed(t, t);
        Real::lemma_closed(one, square);
        Real::lemma_closed(square, square);
        Real::lemma_closed(one, square.negated_spec());
        Real::lemma_closed(above, above);
        if scale.is_finite_spec() && cos.is_finite_spec() && sin.is_finite_spec() {
            Real::lemma_frac(0, 0);
            assert(above.is_finite_spec() && !above.is_zero_spec()) by {
                if above.numer() > 0 {
                    Real::lemma_frac(above.denom(), above.numer());
                } else if above.numer() < 0 {
                    Real::lemma_frac(-above.denom(), -above.numer());
                }
            }
            Real::lemma_recip(above);
            assert(below.is_finite_spec());
            assert(twice.is_finite_spec());
            Real::lemma_plus_view(one, square);
            Real::lemma_times_view(t, t);
            Real::lemma_negated_view(square);
            Real::lemma_plus_view(one, square.negated_spec());
            Real::lemma_plus_view(t, t);
            Real::lemma_recip_view(above);
            Real::lemma_times_view(below, scale);
            Real::lemma_times_view(twice, scale);
            let x = t@;
            let k = scale@;
            assert(((1real - x * x) * k) * ((1real - x * x) * k) + ((x + x) * k) * ((x + x) * k)
                == 1real) by (nonlinear_arith)
                requires
                    k * (1real + x * x) == 1real,
            ;
        }
    }
}

impl Rotation2 {
    /// One half, the factor between an angle and the half angle.
    pub open spec fn half_spec() -> Real {
        Real::frac(1, 2)
    }

    fn half() -> (h: Real)
        ensures
            h == Rotation2::half_spec(),
    {
        proof {
            reveal_with_fuel(crate::lowest_terms::gcd, 4);
            assert(1int / 1 == 1 && 2int / 1 == 2);
        }
        Real::new(1, 2)
    }

    /// The composite of two finite rotations lies on the unit circle.
    pub proof fn lemma_composite_on_circle(a: Rotation2, b: Rotation2)
        requires
            a.well_formed(),
            b.well_formed(),
            a.cos_spec().is_finite_spec(),
            b.cos_spec().is_finite_spec(),
        ensures
            ({
                let cos = Rotation2::cross_minus(
                    a.cos_spec(),
                    b.cos_spec(),
                    a.sin_spec(),
                    b.sin_spec(),
                );
                let sin = Rotation2::cross_plus(
                    a.cos_spec(),
                    b.sin_spec(),
                    a.sin_spec(),
                    b.cos_spec(),
                );
                &&& cos.valid()
                &&& sin.valid()
                &&& cos.is_finite_spec() && sin.is_finite_spec() ==> Rotation2::on_circle(cos, sin)
            }),
    {
        let ac = a.cos_spec();
        let asn = a.sin_spec();
        let bc = b.cos_spec();
        let bs = b.sin_spec();
        let cos = Rotation2::cross_minus(ac, bc, asn, bs);
        let sin = Rotation2::cross_plus(ac, bs, asn, bc);
        Real::lemma_closed(ac, bc);
        Real::lemma_closed(asn, bs);
        Real::lemma_closed(ac, bs);
        Real::lemma_closed(asn, bc);
        Real::lemma_closed(asn.times_spec(bs), asn);
        Real::lemma_closed(ac.times_spec(bc), asn.times_spec(bs).negated_spec());
        Real::lemma_closed(ac.times_spec(bs), asn.times_spec(bc));
        if cos.is_finite_spec() && sin.is_finite_spec() {
            Real::lemma_plus_view(ac.times_spec(bc), asn.times_spec(bs).negated_spec());
            Real::lemma_negated_view(asn.times_spec(bs));
            Real::lemma_plus_view(ac.times_spec(bs), asn.times_spec(bc));
            Real::lemma_times_view(ac, bc);
            Real::lemma_times_view(asn, bs);
            Real::lemma_times_view(ac, bs);
            Real::lemma_times_view(asn, bc);
            let p = ac@;
            let q = asn@;
            let u = bc@;
            let v = bs@;
            lemma_circle_product(p, q, u, v);
        }
    }
}

impl Rotation for Rotation2 {
    type Angular = Real;

    open spec fn valid(self) -> bool {
        self.well_formed()
    }

    open spec fn finite(self) -> bool {
        self.cos_spec().is_finite_spec()
    }

    open spec fn identity_spec() -> Self {
        Rotation2::pair(Real::one_spec(), Real::zero_spec())
    }

    open spec fn followed_by_spec(self, next: Self) -> Self {
        if self.finite() && next.finite() {
            Rotation2::checked(
                Rotation2::cross_minus(
                    self.cos_spec(),
                    next.cos_spec(),
                    self.sin_spec(),
                    next.sin_spec(),
                ),
                Rotation2::cross_plus(
                    self.cos_spec(),
                    next.sin_spec(),
                    self.sin_spec(),
                    next.cos_spec(),
                ),
            )
        } else {
            Rotation2::pair(Real::infinite_spec(), Real::infinite_spec())
        }
    }

    open spec fn inverse_spec(self) -> Self {
        Rotation2::pair(self.cos_spec(), self.sin_spec().negated_spec())
    }

    /// Turning by the angular displacement `by` is composing with the
    /// rotation whose half tangent is `by / 2`: exact, on the unit circle,
    /// and close to the rotation by the angle `by` where `by` is small.
    open spec fn turned_spec(self, by: Real) -> Self {
        self.followed_by_spec(Rotation2::half_tangent_spec(by.times_spec(Rotation2::half_spec())))
    }

    fn identity() -> (r: Self) {
        proof {
            Real::lemma_constants();
            Real::lemma_constants_view();
        }
        Rotation2 { cos: Real::one(), sin: Real::zero() }
    }

    fn followed_by(&self, next: &Self) -> (r: Self) {
        proof {
            use_type_invariant(self);
            use_type_invariant(next);
        }
        if self.cos.is_finite() && next.cos.is_finite() {
            let cos = self.cos.times(&next.cos).plus(&self.sin.times(&next.sin).negated());
            let sin = self.cos.times(&next.sin).plus(&self.sin.times(&next.cos));
            proof {
                Rotation2::lemma_composite_on_circle(*self, *next);
            }
            Rotation2::of_parts(cos, sin)
        } else {
            Rotation2::not_finite()
        }
    }

    fn invert(&self) -> (r: Self) {
        proof {
            use_type_invariant(self);
            Real::lemma_constants();
            Rotation2::lemma_closed(*self, *self, Real::zero_spec());
        }
        Rotation2 { cos: self.cos, sin: self.sin.negated() }
    }

    fn turned(&self, by: &Real) -> (r: Self) {
        let step = Rotation2::half_tangent(by.times(&Rotation2::half()));
        self.followed_by(&step)
    }

    proof fn lemma_closed(a: Self, b: Self, by: Real) {
        Real::lemma_constants();
        Real::lemma_constants_view();
        // composite
        if a.finite() && b.finite() {
            Rotation2::lemma_composite_on_circle(a, b);
        }
        // inverse
        Real::lemma_closed(a.sin_spec(), a.sin_spec());
        Real::lemma_negated_view(a.sin_spec());
        let p = a.cos_spec()@;
        let q = a.sin_spec()@;
        assert(p * p + (-q) * (-q) == p * p + q * q) by (nonlinear_arith);
        // turn
        let t = by.times_spec(Rotation2::half_spec());
        Rotation2::lemma_half_valid();
        Real::lemma_closed(by, Rotation2::half_spec());
        Rotation2::lemma_half_tangent_valid(t);
        let step = Rotation2::half_tangent_spec(t);
        if a.finite() && step.finite() {
            Rotation2::lemma_composite_on_circle(a, step);
        }
    }

    proof fn lemma_inverse(a: Self) {
        Real::lemma_constants();
        Real::lemma_constants_view();
        let c = a.cos_spec();
        let s = a.sin_spec();
        let n = s.negated_spec();
        let inv = a.inverse_spec();
        Self::lemma_closed(a, a, Real::zero_spec());
        let cos = Rotation2::cross_minus(c, c, s, n);
        let sin = Rotation2::cross_plus(c, n, s, c);
        Real::lemma_closed(c, c);
        Real::lemma_closed(s, n);
        Real::lemma_closed(c, n);
        Real::lemma_closed(s, c);
        Real::lemma_closed(s.times_spec(n), s);
        Real::lemma_closed(c.times_spec(c), s.times_spec(n).negated_spec());
        Real::lemma_closed(c.times_spec(n), s.times_spec(c));
        Real::lemma_plus_view(c.times_spec(c), s.times_spec(n).negated_spec());
        Real::lemma_negated_view(s.times_spec(n));
        Real::lemma_negated_view(s);
        Real::lemma_plus_view(c.times_spec(n), s.times_spec(c));
        Real::lemma_times_view(c, c);
        Real::lemma_times_view(s, n);
        Real::lemma_times_view(c, n);
        Real::lemma_times_view(s, c);
        let p = c@;
        let q = s@;
        assert(p * p + -(q * (-q)) == p * p + q * q) by (nonlinear_arith);
        assert(p * (-q) + q * p == 0real) by (nonlinear_arith);
        Real::lemma_view_constant(cos);
        Real::lemma_view_constant(sin);
    }

    proof fn lemma_inverse_twice(a: Self) {
        let s = a.sin_spec();
        Real::lemma_frac(-s.numer(), s.denom());
        Real::lemma_frac(s.numer(), s.denom());
        Real::lemma_same_parts(s.negated_spec().negated_spec(), s);
    }

    proof fn lemma_turned_zero(a: Self) {
        Real::lemma_constants();
        Real::lemma_constants_view();
        let zero = Real::zero_spec();
        let one = Real::one_spec();
        Real::lemma_times_zero(Rotation2::half_spec());
        Real::lemma_times_zero(zero);
        Real::lemma_plus_zero(one);
        Real::lemma_plus_zero(zero);
        Real::lemma_frac(1, 1);
        Real::lemma_frac(0, 1);
        Real::lemma_same_parts(zero.negated_spec(), zero);
        Real::lemma_same_parts(one.recip_spec(), one);
        Real::lemma_times_one(one);
        Real::lemma_times_one(zero);
        assert(Rotation2::half_tangent_spec(zero) == Self::identity_spec());
        if a.finite() {
            let c = a.cos_spec();
            let s = a.sin_spec();
            Real::lemma_times_one(c);
            Real::lemma_times_one(s);
            Real::lemma_times_zero(c);
            Real::lemma_times_zero(s);
            Real::lemma_plus_zero(c);
            Real::lemma_plus_zero(s);
        } else {
            Real::lemma_same_parts(a.cos_spec(), Real::infinite_spec());
            Real::lemma_same_parts(a.sin_spec(), Real::infinite_spec());
        }
    }
}

impl Rotation2 {
    /// One half is a valid scalar.
    pub proof fn lemma_half_valid()
        ensures
            Rotation2::half_spec().valid(),
            Rotation2::half_spec().numer() == 1,
            Rotation2::half_spec().denom() == 2,
    {
        reveal_with_fuel(crate::lowest_terms::gcd, 4);
        Real::lemma_frac(1, 2);
    }

    /// What a half tangent builds is a rotation.
    pub proof fn lemma_half_tangent_valid(t: Real)
        requires
            t.valid(),
        ensures
            Rotation2::half_tangent_spec(t).well_formed(),
    {
        Real::lemma_constants();
        let one = Real::one_spec();
        let square = t.times_spec(t);
        let above = one.plus_spec(square);
        let scale = above.recip_spec();
        Real::lemma_closed(t, t);
        Real::lemma_closed(one, square);
        Real::lemma_closed(square, square);
        Real::lemma_closed(one, square.negated_spec());
        Real::lemma_closed(above, above);
        Real::lemma_closed(one.plus_spec(square.negated_spec()), scale);
        Real::lemma_closed(t.plus_spec(t), scale);
        Rotation2::lemma_half_tangent_on_circle(t);
    }
}

impl Rotation2 {
    /// A finite composite stands for the product of the two rotations taken
    /// as complex numbers `cos + i sin`.
    pub proof fn lemma_followed_by_view(a: Rotation2, b: Rotation2)
        requires
            a.well_formed(),
            b.well_formed(),
            Rotation::finite(a.followed_by_spec(b)),
        ensures
            Rotation::finite(a),
            Rotation::finite(b),
            a.followed_by_spec(b).cos_spec()@ == a.cos_spec()@ * b.cos_spec()@ - a.sin_spec()@
                * b.sin_spec()@,
            a.followed_by_spec(b).sin_spec()@ == a.cos_spec()@ * b.sin_spec()@ + a.sin_spec()@
                * b.cos_spec()@,
    {
        let ac = a.cos_spec();
        let asn = a.sin_spec();
        let bc = b.cos_spec();
        let bs = b.sin_spec();
        Real::lemma_constants();
        Real::lemma_closed(ac, bc);
        Real::lemma_closed(asn, bs);
        Real::lemma_closed(ac, bs);
        Real::lemma_closed(asn, bc);
        Real::lemma_closed(asn.times_spec(bs), asn);
        Real::lemma_plus_view(ac.times_spec(bc), asn.times_spec(bs).negated_spec());
        Real::lemma_negated_view(asn.times_spec(bs));
        Real::lemma_plus_view(ac.times_spec(bs), asn.times_spec(bc));
        Real::lemma_times_view(ac, bc);
        Real::lemma_times_view(asn, bs);
        Real::lemma_times_view(ac, bs);
        Real::lemma_times_view(asn, bc);
    }

    /// A finite rotation built from the half tangent `t` has the cosine
    /// `(1 - t*t) / (1 + t*t)` and the sine `2*t / (1 + t*t)`.
    pub proof fn lemma_half_tangent_view(t: Real)
        requires
            t.valid(),
            Rotation::finite(Rotation2::half_tangent_spec(t)),
        ensures
            t.is_finite_spec(),
            Rotation2::half_tangent_spec(t).cos_spec()@ * (1real + t@ * t@) == 1real - t@ * t@,
            Rotation2::half_tangent_spec(t).sin_spec()@ * (1real + t@ * t@) == t@ + t@,
    {
        let one = Real::one_spec();
        let square = t.times_spec(t);
        let above = one.plus_spec(square);
        let scale = above.recip_spec();
        let below = one.plus_spec(square.negated_spec());
        let twice = t.plus_spec(t);
        let cos = below.times_spec(scale);
        let sin = twice.times_spec(scale);
        Real::lemma_constants();
        Real::lemma_constants_view();
        Real::lemma_closed(t, t);
        Real::lemma_closed(one, square);
        Real::lemma_closed(square, square);
        Real::lemma_closed(one, square.negated_spec());
        Real::lemma_closed(above, above);
        Real::lemma_frac(0, 0);
        assert(above.is_finite_spec() && !above.is_zero_spec()) by {
            if above.numer() > 0 {
                Real::lemma_frac(above.denom(), above.numer());
            } else if above.numer() < 0 {
                Real::lemma_frac(-above.denom(), -above.numer());
            }
        }
        Real::lemma_recip(above);
        assert(below.is_finite_spec());
        assert(twice.is_finite_spec());
        Real::lemma_plus_view(one, square);
        Real::lemma_times_view(t, t);
        Real::lemma_negated_view(square);
        Real::lemma_plus_view(one, square.negated_spec());
        Real::lemma_plus_view(t, t);
        Real::lemma_recip_view(above);
        Real::lemma_times_view(below, scale);
        Real::lemma_times_view(twice, scale);
        let x = t@;
        let k = scale@;
        let u = above@;
        assert(((1real - x * x) * k) * u == 1real - x * x) by (nonlinear_arith)
            requires
                k * u == 1real,
        ;
        assert(((x + x) * k) * u == x + x) by (nonlinear_arith)
            requires
                k * u == 1real,
        ;
    }
}

} // verus!
