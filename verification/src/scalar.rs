//! The scalar of the library: an exact fraction in lowest terms, or "not finite".

use vstd::prelude::*;

verus! {

/// The largest magnitude that a numerator or a denominator may have.
pub const LIMIT: i64 = 0x7fff_ffff_ffff_ffff;

/// An exact rational number `numer / denom` in lowest terms with a positive
/// denominator, or the single value "not finite", which stands for every
/// quantity that has no such form within `LIMIT` (an overflow, a division by
/// zero, an infinite mass).
#[derive(Clone, Copy, Debug, PartialEq, Eq, Structural)]
pub struct Real {
    num: i64,
    den: i64,
}

impl Real {
    /// The numerator; 0 for the value that is not finite.
    pub closed spec fn numer(self) -> int {
        self.num as int
    }

    /// The denominator; 0 exactly for the value that is not finite.
    pub closed spec fn denom(self) -> int {
        self.den as int
    }

    /// The value with this numerator and denominator.
    pub closed spec fn frac(n: int, d: int) -> Real {
        Real { num: n as i64, den: d as i64 }
    }

    /// Lowest terms, positive denominator, magnitudes within `LIMIT`; or 0/0.
    #[verifier::type_invariant]
    pub open spec fn valid(self) -> bool {
        if self.denom() == 0 {
            self.numer() == 0
        } else {
            &&& 0 < self.denom() <= LIMIT
            &&& -LIMIT <= self.numer() <= LIMIT
            &&& crate::lowest_terms::gcd(vstd::math::abs(self.numer()) as nat, self.denom() as nat) == 1
        }
    }

    /// The value is a fraction, not the value "not finite".
    pub open spec fn is_finite_spec(self) -> bool {
        self.denom() > 0
    }

    /// The value is the fraction zero.
    pub open spec fn is_zero_spec(self) -> bool {
        self.denom() > 0 && self.numer() == 0
    }

    /// The value is a fraction above zero.
    pub open spec fn is_positive_spec(self) -> bool {
        self.denom() > 0 && self.numer() > 0
    }

    /// The value that is not finite.
    pub open spec fn infinite_spec() -> Real {
        Real::frac(0, 0)
    }

    /// Zero, `0 / 1`.
    pub open spec fn zero_spec() -> Real {
        Real::frac(0, 1)
    }

    /// One, `1 / 1`.
    pub open spec fn one_spec() -> Real {
        Real::frac(1, 1)
    }

    /// `n / d` brought to lowest terms, where that fits; not finite otherwise.
    pub open spec fn reduced(n: int, d: int) -> Real
        recommends
            d > 0,
    {
        let g = crate::lowest_terms::gcd(vstd::math::abs(n) as nat, d as nat) as int;
        if -LIMIT <= n / g <= LIMIT && d / g <= LIMIT {
            Real::frac(n / g, d / g)
        } else {
            Real::infinite_spec()
        }
    }

    /// What `frac` builds has the parts it was built from.
    pub proof fn lemma_frac(n: int, d: int)
        requires
            -LIMIT <= n <= LIMIT,
            0 <= d <= LIMIT,
        ensures
            Real::frac(n, d).numer() == n,
            Real::frac(n, d).denom() == d,
    {
    }

    /// Two values with the same parts are the same value.
    pub proof fn lemma_same_parts(a: Real, b: Real)
        requires
            a.numer() == b.numer(),
            a.denom() == b.denom(),
        ensures
            a == b,
    {
    }
}

fn gcd_of(a: u128, b: u128) -> (g: u128)
    ensures
        g == crate::lowest_terms::gcd(a as nat, b as nat),
{
    let mut x: u128 = a;
    let mut y: u128 = b;
    while y != 0
        invariant
            crate::lowest_terms::gcd(x as nat, y as nat) == crate::lowest_terms::gcd(a as nat, b as nat),
        decreases y,
    {
        let t: u128 = x % y;
        x = y;
        y = t;
    }
    x
}

proof fn lemma_signed_quotient(m: int, k: int, g: int)
    requires
        g > 0,
        m == k * g,
    ensures
        m / g == k,
        (-m) / g == -k,
{
    assert(m / g == k) by (nonlinear_arith)
        requires
            g > 0,
            m == k * g,
    ;
    assert((-k) * g == -(k * g)) by (nonlinear_arith);
    let j = -k;
    let w = -m;
    assert(w / g == j) by (nonlinear_arith)
        requires
            g > 0,
            w == j * g,
    ;
}

/// Brings `mag / den`, negated where `negative` is set, to lowest terms.
fn reduce(negative: bool, mag: u128, den: u128) -> (r: Real)
    requires
        den > 0,
    ensures
        r == Real::reduced(
            if negative {
                -(mag as int)
            } else {
                mag as int
            },
            den as int,
        ),
        r.valid(),
{
    let g: u128 = gcd_of(mag, den);
    proof {
        crate::lowest_terms::lemma_gcd_quotients(mag as nat, den as nat);
        lemma_signed_quotient(mag as int, (mag / g) as int, g as int);
    }
    let rn: u128 = mag / g;
    let rd: u128 = den / g;
    assert(rd > 0) by (nonlinear_arith)
        requires
            den == rd * g,
            den > 0,
            g > 0,
    ;
    if rn <= 0x7fff_ffff_ffff_ffff && rd <= 0x7fff_ffff_ffff_ffff {
        let m: i64 = rn as i64;
        let n: i64 = if negative {
            -m
        } else {
            m
        };
        Real { num: n, den: rd as i64 }
    } else {
        Real { num: 0, den: 0 }
    }
}

fn magnitude(n: i64) -> (m: u128)
    requires
        -LIMIT <= n,
    ensures
        m == vstd::math::abs(n as int),
        m <= LIMIT,
{
    if n < 0 {
        (-n) as u128
    } else {
        n as u128
    }
}

impl Real {
    /// The sum of two finite values as a fraction; not finite if either is not.
    pub open spec fn plus_spec(self, rhs: Real) -> Real {
        if self.is_finite_spec() && rhs.is_finite_spec() {
            Real::reduced(
                self.numer() * rhs.denom() + rhs.numer() * self.denom(),
                self.denom() * rhs.denom(),
            )
        } else {
            Real::infinite_spec()
        }
    }

    /// The product. Zero times anything is zero; otherwise a factor that is
    /// not finite gives a product that is not finite.
    pub open spec fn times_spec(self, rhs: Real) -> Real {
        if self.is_zero_spec() || rhs.is_zero_spec() {
            Real::zero_spec()
        } else if self.is_finite_spec() && rhs.is_finite_spec() {
            Real::reduced(self.numer() * rhs.numer(), self.denom() * rhs.denom())
        } else {
            Real::infinite_spec()
        }
    }

    /// The negative; what is not finite stays so.
    pub open spec fn negated_spec(self) -> Real {
        Real::frac(-self.numer(), self.denom())
    }

    /// `1 / self`; not finite for zero and for what is not finite.
    pub open spec fn recip_spec(self) -> Real {
        if self.numer() > 0 {
            Real::frac(self.denom(), self.numer())
        } else if self.numer() < 0 {
            Real::frac(-self.denom(), -self.numer())
        } else {
            Real::infinite_spec()
        }
    }

    /// `n / d` for any integers; not finite where `d` is zero.
    pub open spec fn ratio_spec(n: int, d: int) -> Real {
        if d > 0 {
            Real::reduced(n, d)
        } else if d < 0 {
            Real::reduced(-n, -d)
        } else {
            Real::infinite_spec()
        }
    }

    /// Zero.
    pub fn zero() -> (r: Real)
        ensures
            r == Real::zero_spec(),
            r.valid(),
    {
        assert(crate::lowest_terms::gcd(0, 1) == 1) by {
            reveal_with_fuel(crate::lowest_terms::gcd, 2);
        }
        Real { num: 0, den: 1 }
    }

    /// One.
    pub fn one() -> (r: Real)
        ensures
            r == Real::one_spec(),
            r.valid(),
    {
        assert(crate::lowest_terms::gcd(1, 1) == 1) by {
            reveal_with_fuel(crate::lowest_terms::gcd, 3);
        }
        Real { num: 1, den: 1 }
    }

    /// The value that is not finite.
    pub fn infinite() -> (r: Real)
        ensures
            r == Real::infinite_spec(),
            r.valid(),
    {
        Real { num: 0, den: 0 }
    }

    /// The fraction `num / den`, exact where it can be represented; not
    /// finite where it cannot, and where `den` is zero.
    pub fn new(num: i64, den: i64) -> (r: Real)
        ensures
            r == Real::ratio_spec(num as int, den as int),
            r.valid(),
            r.is_finite_spec() <==> den != 0 && Real::representable(quotient(num as int, den as int)),
            r.is_finite_spec() ==> r@ == quotient(num as int, den as int),
            r.is_zero_spec() <==> num == 0 && den != 0,
            r.is_positive_spec() <==> r.is_finite_spec() && ((num > 0 && den > 0) || (num < 0 && den
                < 0)),
    {
        proof {
            Real::lemma_constants();
            if den != 0 {
                Real::lemma_ratio(num as int, den as int);
                Real::lemma_ratio_sign(num as int, den as int);
            }
        }
        if den == 0 {
            Real { num: 0, den: 0 }
        } else {
            let negative: bool = (num < 0) != (den < 0);
            let m: u128 = if num < 0 {
                (-(num as i128)) as u128
            } else {
                num as u128
            };
            let d: u128 = if den < 0 {
                (-(den as i128)) as u128
            } else {
                den as u128
            };
            let r = reduce(negative && m != 0, m, d);
            r
        }
    }

    /// The whole number `n`; not finite for the one `n` beyond `LIMIT`.
    pub fn from_int(n: i64) -> (r: Real)
        ensures
            r == Real::ratio_spec(n as int, 1),
            r.valid(),
            r.is_finite_spec() <==> -LIMIT <= n,
            r.is_finite_spec() ==> r@ == n as real && r.numer() == n && r.denom() == 1,
    {
        proof {
            let m = vstd::math::abs(n as int) as nat;
            assert(crate::lowest_terms::gcd(m, 1) == 1) by {
                reveal_with_fuel(crate::lowest_terms::gcd, 3);
                assert(m % 1 == 0);
            }
            assert(n as int / 1 == n);
            Real::lemma_constants();
            if -LIMIT <= n {
                Real::lemma_frac(n as int, 1);
            }
            assert(quotient(n as int, 1) == n as real) by (nonlinear_arith);
        }
        Real::new(n, 1)
    }

    /// The numerator; 0 for the value that is not finite.
    pub fn numerator(&self) -> (n: i64)
        ensures
            n == self.numer(),
    {
        self.num
    }

    /// The denominator; 0 exactly for the value that is not finite.
    pub fn denominator(&self) -> (d: i64)
        ensures
            d == self.denom(),
    {
        self.den
    }

    /// Whether the value is a fraction, not the value "not finite".
    pub fn is_finite(&self) -> (b: bool)
        ensures
            b == self.is_finite_spec(),
            self.valid(),
    {
        proof {
            use_type_invariant(self);
        }
        self.den != 0
    }

    /// Whether the value is the fraction zero.
    pub fn is_zero(&self) -> (b: bool)
        ensures
            b == self.is_zero_spec(),
    {
        proof {
            use_type_invariant(self);
        }
        self.den != 0 && self.num == 0
    }

    /// Whether the value is a fraction above zero.
    pub fn is_positive(&self) -> (b: bool)
        ensures
            b == self.is_positive_spec(),
    {
        proof {
            use_type_invariant(self);
        }
        self.den != 0 && self.num > 0
    }

    /// The sum, exact where it can be represented; not finite where it
    /// cannot, and where a term is not finite.
    pub fn plus(&self, rhs: &Real) -> (r: Real)
        ensures
            r == self.plus_spec(*rhs),
            r.valid(),
            r.is_finite_spec() <==> self.is_finite_spec() && rhs.is_finite_spec()
                && Real::representable(self@ + rhs@),
            r.is_finite_spec() ==> r@ == self@ + rhs@,
    {
        proof {
            use_type_invariant(self);
            use_type_invariant(rhs);
            Real::lemma_plus_finite(*self, *rhs);
        }
        if self.den == 0 || rhs.den == 0 {
            Real { num: 0, den: 0 }
        } else {
            assert(-LIMIT * LIMIT <= self.num * rhs.den <= LIMIT * LIMIT) by (nonlinear_arith)
                requires
                    -LIMIT <= self.num <= LIMIT,
                    0 < rhs.den <= LIMIT,
            ;
            assert(-LIMIT * LIMIT <= rhs.num * self.den <= LIMIT * LIMIT) by (nonlinear_arith)
                requires
                    -LIMIT <= rhs.num <= LIMIT,
                    0 < self.den <= LIMIT,
            ;
            assert(0 < self.den * rhs.den <= LIMIT * LIMIT) by (nonlinear_arith)
                requires
                    0 < rhs.den <= LIMIT,
                    0 < self.den <= LIMIT,
            ;
            let left: i128 = (self.num as i128) * (rhs.den as i128);
            let right: i128 = (rhs.num as i128) * (self.den as i128);
            let n: i128 = left + right;
            let d: u128 = (self.den as u128) * (rhs.den as u128);
            let m: u128 = if n < 0 {
                (-n) as u128
            } else {
                n as u128
            };
            reduce(n < 0, m, d)
        }
    }

    /// The product, exact where it can be represented. Zero times anything
    /// is zero; otherwise the product is not finite where a factor is not.
    pub fn times(&self, rhs: &Real) -> (r: Real)
        ensures
            r == self.times_spec(*rhs),
            r.valid(),
            r.is_finite_spec() <==> self.is_zero_spec() || rhs.is_zero_spec() || (
            self.is_finite_spec() && rhs.is_finite_spec() && Real::representable(self@ * rhs@)),
            r.is_finite_spec() ==> r@ == self@ * rhs@,
    {
        proof {
            use_type_invariant(self);
            use_type_invariant(rhs);
            Real::lemma_times_finite(*self, *rhs);
            Real::lemma_constants();
        }
        if self.is_zero() || rhs.is_zero() {
            Real::zero()
        } else if self.den == 0 || rhs.den == 0 {
            Real { num: 0, den: 0 }
        } else {
            let a: u128 = magnitude(self.num);
            let b: u128 = magnitude(rhs.num);
            assert(0 < a * b <= LIMIT * LIMIT) by (nonlinear_arith)
                requires
                    0 < a <= LIMIT,
                    0 < b <= LIMIT,
            ;
            assert(0 < self.den * rhs.den <= LIMIT * LIMIT) by (nonlinear_arith)
                requires
                    0 < rhs.den <= LIMIT,
                    0 < self.den <= LIMIT,
            ;
            let negative: bool = (self.num < 0) != (rhs.num < 0);
            let m: u128 = a * b;
            let d: u128 = (self.den as u128) * (rhs.den as u128);
            assert(self.num * rhs.num == if negative {
                -(m as int)
            } else {
                m as int
            }) by (nonlinear_arith)
                requires
                    a == vstd::math::abs(self.num as int),
                    b == vstd::math::abs(rhs.num as int),
                    m == a * b,
                    negative == ((self.num < 0) != (rhs.num < 0)),
            ;
            reduce(negative, m, d)
        }
    }

    /// The negative; not finite where `self` is not.
    pub fn negated(&self) -> (r: Real)
        ensures
            r == self.negated_spec(),
            r.valid(),
            r.is_finite_spec() == self.is_finite_spec(),
            r@ == -self@,
    {
        proof {
            use_type_invariant(self);
            Real::lemma_negated_view(*self);
        }
        Real { num: -self.num, den: self.den }
    }

    /// The reciprocal `1 / self`, exact; not finite for zero and for what is
    /// not finite.
    pub fn recip(&self) -> (r: Real)
        ensures
            r == self.recip_spec(),
            r.valid(),
            r.is_finite_spec() <==> self.is_finite_spec() && !self.is_zero_spec(),
            r.is_finite_spec() ==> r@ * self@ == 1real,
    {
        proof {
            use_type_invariant(self);
            Real::lemma_constants();
            if self.is_finite_spec() && !self.is_zero_spec() {
                Real::lemma_recip(*self);
                Real::lemma_recip_view(*self);
            }
            crate::lowest_terms::lemma_gcd_swap(vstd::math::abs(self.num as int) as nat, self.den as nat);
        }
        if self.num > 0 {
            Real { num: self.den, den: self.num }
        } else if self.num < 0 {
            Real { num: -self.den, den: -self.num }
        } else {
            Real { num: 0, den: 0 }
        }
    }
}

impl Real {
    /// A fraction already in lowest terms and within `LIMIT` reduces to itself.
    pub proof fn lemma_reduced_of_valid(a: Real)
        requires
            a.valid(),
            a.is_finite_spec(),
        ensures
            Real::reduced(a.numer(), a.denom()) == a,
    {
        let n = a.numer();
        let d = a.denom();
        assert(n / 1 == n && d / 1 == d);
        Real::lemma_frac(n, d);
        Real::lemma_same_parts(Real::frac(n, d), a);
    }

    /// `reduced` always gives a valid value.
    pub proof fn lemma_reduced_valid(n: int, d: int)
        requires
            d > 0,
        ensures
            Real::reduced(n, d).valid(),
    {
        let m = vstd::math::abs(n) as nat;
        let g = crate::lowest_terms::gcd(m, d as nat) as int;
        crate::lowest_terms::lemma_gcd_quotients(m, d as nat);
        lemma_signed_quotient(m as int, m as int / g, g);
        assert(d / g > 0) by (nonlinear_arith)
            requires
                d == (d / g) * g,
                d > 0,
                g > 0,
        ;
        if -LIMIT <= n / g <= LIMIT && d / g <= LIMIT {
            Real::lemma_frac(n / g, d / g);
        } else {
            Real::lemma_frac(0, 0);
        }
    }

    /// The three constants are valid, and have the parts one expects.
    pub proof fn lemma_constants()
        ensures
            Real::zero_spec().valid(),
            Real::zero_spec().numer() == 0,
            Real::zero_spec().denom() == 1,
            Real::one_spec().valid(),
            Real::one_spec().numer() == 1,
            Real::one_spec().denom() == 1,
            Real::infinite_spec().valid(),
            Real::infinite_spec().numer() == 0,
            Real::infinite_spec().denom() == 0,
    {
        reveal_with_fuel(crate::lowest_terms::gcd, 3);
        Real::lemma_frac(0, 1);
        Real::lemma_frac(1, 1);
        Real::lemma_frac(0, 0);
    }

    /// Zero has one valid form.
    pub proof fn lemma_zero_unique(a: Real)
        requires
            a.valid(),
            a.is_zero_spec(),
        ensures
            a == Real::zero_spec(),
    {
        Real::lemma_constants();
        let d = a.denom() as nat;
        assert(crate::lowest_terms::gcd(0, d) == d) by {
            reveal_with_fuel(crate::lowest_terms::gcd, 3);
            assert(0nat % d == 0);
        }
        Real::lemma_same_parts(a, Real::zero_spec());
    }

    /// Sums, products, negations and reciprocals of valid values are valid.
    pub proof fn lemma_closed(a: Real, b: Real)
        requires
            a.valid(),
            b.valid(),
        ensures
            a.plus_spec(b).valid(),
            a.times_spec(b).valid(),
            a.negated_spec().valid(),
            a.recip_spec().valid(),
    {
        Real::lemma_constants();
        if a.is_finite_spec() && b.is_finite_spec() {
            assert(a.denom() * b.denom() > 0) by (nonlinear_arith)
                requires
                    a.denom() > 0,
                    b.denom() > 0,
            ;
            Real::lemma_reduced_valid(
                a.numer() * b.denom() + b.numer() * a.denom(),
                a.denom() * b.denom(),
            );
            Real::lemma_reduced_valid(a.numer() * b.numer(), a.denom() * b.denom());
        }
        Real::lemma_frac(-a.numer(), a.denom());
        if a.numer() > 0 {
            crate::lowest_terms::lemma_gcd_swap(a.numer() as nat, a.denom() as nat);
            Real::lemma_frac(a.denom(), a.numer());
        } else if a.numer() < 0 {
            crate::lowest_terms::lemma_gcd_swap((-a.numer()) as nat, a.denom() as nat);
            Real::lemma_frac(-a.denom(), -a.numer());
        }
    }

    /// Zero is neutral for the sum, on either side.
    pub proof fn lemma_plus_zero(a: Real)
        requires
            a.valid(),
        ensures
            a.plus_spec(Real::zero_spec()) == a,
            Real::zero_spec().plus_spec(a) == a,
    {
        Real::lemma_constants();
        if a.is_finite_spec() {
            Real::lemma_reduced_of_valid(a);
            assert(a.numer() * 1 + 0 * a.denom() == a.numer());
            assert(0 * a.denom() + a.numer() * 1 == a.numer());
            assert(a.denom() * 1 == a.denom());
            assert(1 * a.denom() == a.denom());
        } else {
            Real::lemma_same_parts(a, Real::infinite_spec());
        }
    }

    /// Zero times anything, and anything times zero, is zero.
    pub proof fn lemma_times_zero(a: Real)
        ensures
            a.times_spec(Real::zero_spec()) == Real::zero_spec(),
            Real::zero_spec().times_spec(a) == Real::zero_spec(),
    {
        Real::lemma_constants();
    }

    /// One is neutral for the product, on either side.
    pub proof fn lemma_times_one(a: Real)
        requires
            a.valid(),
        ensures
            a.times_spec(Real::one_spec()) == a,
            Real::one_spec().times_spec(a) == a,
    {
        Real::lemma_constants();
        if a.is_zero_spec() {
            Real::lemma_zero_unique(a);
        } else if a.is_finite_spec() {
            Real::lemma_reduced_of_valid(a);
            assert(a.numer() * 1 == a.numer());
            assert(1 * a.numer() == a.numer());
            assert(a.denom() * 1 == a.denom());
            assert(1 * a.denom() == a.denom());
        } else {
            Real::lemma_same_parts(a, Real::infinite_spec());
        }
    }

    /// A finite value other than zero, times its reciprocal, is exactly one.
    pub proof fn lemma_recip(a: Real)
        requires
            a.valid(),
            a.is_finite_spec(),
            !a.is_zero_spec(),
        ensures
            a.recip_spec().is_finite_spec(),
            !a.recip_spec().is_zero_spec(),
            a.times_spec(a.recip_spec()) == Real::one_spec(),
            a.recip_spec().times_spec(a) == Real::one_spec(),
            a.recip_spec().recip_spec() == a,
            a.is_positive_spec() ==> a.recip_spec().is_positive_spec(),
    {
        Real::lemma_constants();
        let n = a.numer();
        let d = a.denom();
        let r = a.recip_spec();
        let m = vstd::math::abs(n);
        if n > 0 {
            Real::lemma_frac(d, n);
        } else {
            Real::lemma_frac(-d, -n);
        }
        let x = m * d;
        assert(x > 0) by (nonlinear_arith)
            requires
                x == m * d,
                m > 0,
                d > 0,
        ;
        assert(n * r.numer() == x && r.numer() * n == x && d * r.denom() == x && r.denom() * d
            == x) by (nonlinear_arith)
            requires
                x == m * d,
                n > 0 ==> r.numer() == d && r.denom() == n && m == n,
                n < 0 ==> r.numer() == -d && r.denom() == -n && m == -n,
                n != 0,
        ;
        assert(crate::lowest_terms::gcd(x as nat, x as nat) == x) by {
            reveal_with_fuel(crate::lowest_terms::gcd, 3);
            assert(x % x == 0) by (nonlinear_arith)
                requires
                    x > 0,
            ;
        }
        assert(x / x == 1) by (nonlinear_arith)
            requires
                x > 0,
        ;
        if r.numer() > 0 {
            Real::lemma_frac(r.denom(), r.numer());
        } else {
            Real::lemma_frac(-r.denom(), -r.numer());
        }
        Real::lemma_same_parts(r.recip_spec(), a);
    }
}

/// The quotient of two integers as a real number.
pub open spec fn quotient(n: int, d: int) -> real {
    n as real / d as real
}

/// Cancelling a common factor does not change a quotient.
pub proof fn lemma_quotient_cancel(n: int, d: int, g: int)
    requires
        d > 0,
        g > 0,
    ensures
        quotient(n * g, d * g) == quotient(n, d),
{
    let x = n as real;
    let y = d as real;
    let z = g as real;
    assert((n * g) as real == x * z) by (nonlinear_arith)
        requires
            x == n as real,
            z == g as real,
    ;
    assert((d * g) as real == y * z) by (nonlinear_arith)
        requires
            y == d as real,
            z == g as real,
    ;
    assert((x * z) / (y * z) == x / y) by (nonlinear_arith)
        requires
            y > 0real,
            z > 0real,
    ;
}

impl Real {
    /// The number that the value stands for; 0 for what is not finite.
    pub open spec fn view(self) -> real {
        if self.denom() > 0 {
            quotient(self.numer(), self.denom())
        } else {
            0real
        }
    }

    /// Where `reduced` is finite, it stands for the quotient it was given.
    pub proof fn lemma_reduced_view(n: int, d: int)
        requires
            d > 0,
            Real::reduced(n, d).is_finite_spec(),
        ensures
            Real::reduced(n, d)@ == quotient(n, d),
    {
        let m = vstd::math::abs(n) as nat;
        let g = crate::lowest_terms::gcd(m, d as nat) as int;
        crate::lowest_terms::lemma_gcd_quotients(m, d as nat);
        lemma_signed_quotient(m as int, m as int / g, g);
        Real::lemma_constants();
        assert(d / g > 0) by (nonlinear_arith)
            requires
                d == (d / g) * g,
                d > 0,
                g > 0,
        ;
        Real::lemma_frac(n / g, d / g);
        let k = m as int / g;
        assert((-k) * g == -(k * g)) by (nonlinear_arith);
        assert(n == (n / g) * g);
        lemma_quotient_cancel(n / g, d / g, g);
    }
}

/// Quotients add and multiply as fractions do.
pub proof fn lemma_quotient_arith(a: int, b: int, c: int, d: int)
    requires
        b > 0,
        d > 0,
    ensures
        b * d > 0,
        quotient(a, b) + quotient(c, d) == quotient(a * d + c * b, b * d),
        quotient(a, b) * quotient(c, d) == quotient(a * c, b * d),
        -quotient(a, b) == quotient(-a, b),
{
    assert(b * d > 0) by (nonlinear_arith)
        requires
            b > 0,
            d > 0,
    ;
    assert(quotient(a, b) + quotient(c, d) == quotient(a * d + c * b, b * d)) by (nonlinear_arith)
        requires
            b > 0,
            d > 0,
    ;
    assert(quotient(a, b) * quotient(c, d) == quotient(a * c, b * d)) by (nonlinear_arith)
        requires
            b > 0,
            d > 0,
    ;
    assert(-quotient(a, b) == quotient(-a, b)) by (nonlinear_arith)
        requires
            b > 0,
    ;
}

impl Real {
    /// The constants stand for 0 and 1.
    pub proof fn lemma_constants_view()
        ensures
            Real::zero_spec()@ == 0real,
            Real::one_spec()@ == 1real,
            Real::infinite_spec()@ == 0real,
    {
        Real::lemma_constants();
        assert(quotient(0, 1) == 0real) by (nonlinear_arith);
        assert(quotient(1, 1) == 1real) by (nonlinear_arith);
    }

    /// A finite sum stands for the sum of what its terms stand for.
    pub proof fn lemma_plus_view(a: Real, b: Real)
        requires
            a.valid(),
            b.valid(),
            a.plus_spec(b).is_finite_spec(),
        ensures
            a.is_finite_spec(),
            b.is_finite_spec(),
            a.plus_spec(b)@ == a@ + b@,
    {
        Real::lemma_constants();
        lemma_quotient_arith(a.numer(), a.denom(), b.numer(), b.denom());
        Real::lemma_reduced_view(
            a.numer() * b.denom() + b.numer() * a.denom(),
            a.denom() * b.denom(),
        );
    }

    /// A finite product stands for the product of what its factors stand for.
    pub proof fn lemma_times_view(a: Real, b: Real)
        requires
            a.valid(),
            b.valid(),
            a.times_spec(b).is_finite_spec(),
        ensures
            a.times_spec(b)@ == a@ * b@,
    {
        Real::lemma_constants();
        Real::lemma_constants_view();
        if a.is_zero_spec() {
            Real::lemma_zero_unique(a);
            assert(a@ * b@ == 0real) by (nonlinear_arith)
                requires
                    a@ == 0real,
            ;
        } else if b.is_zero_spec() {
            Real::lemma_zero_unique(b);
            assert(a@ * b@ == 0real) by (nonlinear_arith)
                requires
                    b@ == 0real,
            ;
        } else {
            lemma_quotient_arith(a.numer(), a.denom(), b.numer(), b.denom());
            Real::lemma_reduced_view(a.numer() * b.numer(), a.denom() * b.denom());
        }
    }

    /// A negation stands for the negative.
    pub proof fn lemma_negated_view(a: Real)
        requires
            a.valid(),
        ensures
            a.negated_spec()@ == -a@,
            a.negated_spec().is_finite_spec() == a.is_finite_spec(),
    {
        Real::lemma_frac(-a.numer(), a.denom());
        if a.is_finite_spec() {
            lemma_quotient_arith(a.numer(), a.denom(), 0, 1);
        }
    }

    /// The reciprocal of a finite value other than zero stands for `1 / a`.
    pub proof fn lemma_recip_view(a: Real)
        requires
            a.valid(),
            a.is_finite_spec(),
            !a.is_zero_spec(),
        ensures
            a.recip_spec()@ * a@ == 1real,
    {
        Real::lemma_recip(a);
        Real::lemma_closed(a, a);
        Real::lemma_times_view(a.recip_spec(), a);
        Real::lemma_constants_view();
    }

    /// Only zero stands for 0, and only one for 1.
    pub proof fn lemma_view_constant(a: Real)
        requires
            a.valid(),
            a.is_finite_spec(),
        ensures
            a@ == 0real ==> a == Real::zero_spec(),
            a@ == 1real ==> a == Real::one_spec(),
    {
        Real::lemma_constants();
        let n = a.numer();
        let d = a.denom();
        let x = n as real;
        let y = d as real;
        if a@ == 0real {
            assert(x == 0real) by (nonlinear_arith)
                requires
                    x / y == 0real,
                    y > 0real,
            ;
            Real::lemma_zero_unique(a);
        }
        if a@ == 1real {
            assert(x == y) by (nonlinear_arith)
                requires
                    x / y == 1real,
                    y > 0real,
            ;
            assert(crate::lowest_terms::gcd(d as nat, d as nat) == d) by {
                reveal_with_fuel(crate::lowest_terms::gcd, 3);
                assert(d % d == 0) by (nonlinear_arith)
                    requires
                        d > 0,
                ;
            }
            Real::lemma_same_parts(a, Real::one_spec());
        }
    }
}

/// Two quotients are equal exactly if they are equal crosswise.
pub proof fn lemma_quotient_equal(n: int, d: int, m: int, e: int)
    requires
        d > 0,
        e > 0,
    ensures
        quotient(n, d) == quotient(m, e) <==> n * e == m * d,
{
    let x = n as real;
    let y = d as real;
    let u = m as real;
    let v = e as real;
    assert((n * e) as real == x * v) by (nonlinear_arith)
        requires
            x == n as real,
            v == e as real,
    ;
    assert((m * d) as real == u * y) by (nonlinear_arith)
        requires
            u == m as real,
            y == d as real,
    ;
    assert(x / y == u / v <==> x * v == u * y) by (nonlinear_arith)
        requires
            y > 0real,
            v > 0real,
    ;
}

impl Real {
    /// Some fraction with parts within `LIMIT` has the value `q`.
    pub open spec fn representable(q: real) -> bool {
        exists|n: int, d: int|
            -LIMIT <= n <= LIMIT && 0 < d <= LIMIT && q == #[trigger] quotient(n, d)
    }

    /// Finite values that stand for the same number are the same value.
    pub proof fn lemma_view_injective(a: Real, b: Real)
        requires
            a.valid(),
            b.valid(),
            a.is_finite_spec(),
            b.is_finite_spec(),
            a@ == b@,
        ensures
            a == b,
    {
        lemma_quotient_equal(a.numer(), a.denom(), b.numer(), b.denom());
        crate::lowest_terms::lemma_lowest_terms_unique(a.numer(), a.denom(), b.numer(), b.denom());
        Real::lemma_same_parts(a, b);
    }

    /// A finite value stands for a number that can be represented.
    pub proof fn lemma_finite_representable(a: Real)
        requires
            a.valid(),
            a.is_finite_spec(),
        ensures
            Real::representable(a@),
    {
        assert(a@ == quotient(a.numer(), a.denom()));
    }

    /// `reduced` is finite exactly where the quotient can be represented.
    pub proof fn lemma_reduced_finite(n: int, d: int)
        requires
            d > 0,
        ensures
            Real::reduced(n, d).is_finite_spec() <==> Real::representable(quotient(n, d)),
    {
        let r = Real::reduced(n, d);
        Real::lemma_reduced_valid(n, d);
        Real::lemma_constants();
        if r.is_finite_spec() {
            Real::lemma_reduced_view(n, d);
            Real::lemma_finite_representable(r);
        }
        if Real::representable(quotient(n, d)) {
            let (m, e) = choose|m: int, e: int|
                -LIMIT <= m <= LIMIT && 0 < e <= LIMIT && quotient(n, d) == #[trigger] quotient(
                    m,
                    e,
                );
            let a = vstd::math::abs(n) as nat;
            let g = crate::lowest_terms::gcd(a, d as nat) as int;
            crate::lowest_terms::lemma_gcd_quotients(a, d as nat);
            lemma_signed_quotient(a as int, a as int / g, g);
            let k0 = a as int / g;
            assert((-k0) * g == -(k0 * g)) by (nonlinear_arith);
            let p = n / g;
            let q = d / g;
            assert(n == p * g);
            assert(d == q * g);
            assert(q > 0) by (nonlinear_arith)
                requires
                    d == q * g,
                    d > 0,
                    g > 0,
            ;
            assert(vstd::math::abs(p) == a as int / g);
            // p / q is n / d in lowest terms; m / e has the same value
            lemma_quotient_cancel(p, q, g);
            lemma_quotient_equal(p, q, m, e);
            let k = crate::lowest_terms::lemma_lowest_terms_least(p, q, m, e);
            assert(q <= e) by (nonlinear_arith)
                requires
                    e == k * q,
                    k >= 1,
                    q > 0,
            ;
            assert(-LIMIT <= p <= LIMIT) by (nonlinear_arith)
                requires
                    m == k * p,
                    k >= 1,
                    -LIMIT <= m <= LIMIT,
            ;
            Real::lemma_frac(p, q);
        }
    }
}

impl Real {
    /// The sum of two finite values is finite exactly where the sum of
    /// the numbers they stand for can be represented.
    pub proof fn lemma_plus_finite(a: Real, b: Real)
        requires
            a.valid(),
            b.valid(),
        ensures
            a.plus_spec(b).is_finite_spec() <==> a.is_finite_spec() && b.is_finite_spec()
                && Real::representable(a@ + b@),
            a.plus_spec(b).is_finite_spec() ==> a.plus_spec(b)@ == a@ + b@,
    {
        Real::lemma_constants();
        if a.is_finite_spec() && b.is_finite_spec() {
            lemma_quotient_arith(a.numer(), a.denom(), b.numer(), b.denom());
            Real::lemma_reduced_finite(
                a.numer() * b.denom() + b.numer() * a.denom(),
                a.denom() * b.denom(),
            );
        }
        if a.plus_spec(b).is_finite_spec() {
            Real::lemma_plus_view(a, b);
        }
    }

    /// The product of two finite values is finite exactly where the product
    /// of the numbers they stand for can be represented. With a factor that
    /// is not finite the product is finite only where the other is zero.
    pub proof fn lemma_times_finite(a: Real, b: Real)
        requires
            a.valid(),
            b.valid(),
        ensures
            a.is_finite_spec() && b.is_finite_spec() ==> (a.times_spec(b).is_finite_spec()
                <==> Real::representable(a@ * b@)),
            !(a.is_finite_spec() && b.is_finite_spec()) ==> (a.times_spec(b).is_finite_spec()
                <==> a.is_zero_spec() || b.is_zero_spec()),
            a.times_spec(b).is_finite_spec() ==> a.times_spec(b)@ == a@ * b@,
    {
        Real::lemma_constants();
        Real::lemma_constants_view();
        Real::lemma_closed(a, b);
        if a.times_spec(b).is_finite_spec() {
            Real::lemma_times_view(a, b);
            Real::lemma_finite_representable(a.times_spec(b));
        }
        if a.is_finite_spec() && b.is_finite_spec() && !a.is_zero_spec() && !b.is_zero_spec() {
            lemma_quotient_arith(a.numer(), a.denom(), b.numer(), b.denom());
            Real::lemma_reduced_finite(a.numer() * b.numer(), a.denom() * b.denom());
        }
    }

    /// `ratio_spec` is finite exactly where the quotient can be represented,
    /// and then stands for the quotient.
    pub proof fn lemma_ratio(n: int, d: int)
        requires
            d != 0,
        ensures
            Real::ratio_spec(n, d).valid(),
            Real::ratio_spec(n, d).is_finite_spec() <==> Real::representable(quotient(n, d)),
            Real::ratio_spec(n, d).is_finite_spec() ==> Real::ratio_spec(n, d)@ == quotient(n, d),
    {
        if d > 0 {
            Real::lemma_reduced_valid(n, d);
            Real::lemma_reduced_finite(n, d);
            if Real::reduced(n, d).is_finite_spec() {
                Real::lemma_reduced_view(n, d);
            }
        } else {
            Real::lemma_reduced_valid(-n, -d);
            Real::lemma_reduced_finite(-n, -d);
            if Real::reduced(-n, -d).is_finite_spec() {
                Real::lemma_reduced_view(-n, -d);
            }
            let x = n as real;
            let y = d as real;
            assert((-n) as real / (-d) as real == x / y) by (nonlinear_arith)
                requires
                    x == n as real,
                    y == d as real,
                    y < 0real,
            ;
        }
    }
}

impl Real {
    /// Two terms may change places in a sum, where both orders are finite.
    pub proof fn lemma_plus_swap(a: Real, b: Real, c: Real)
        requires
            a.valid(),
            b.valid(),
            c.valid(),
            a.plus_spec(b).plus_spec(c).is_finite_spec(),
            a.plus_spec(c).plus_spec(b).is_finite_spec(),
        ensures
            a.plus_spec(b).plus_spec(c) == a.plus_spec(c).plus_spec(b),
    {
        let ab = a.plus_spec(b);
        let ac = a.plus_spec(c);
        Real::lemma_closed(a, b);
        Real::lemma_closed(a, c);
        Real::lemma_closed(ab, c);
        Real::lemma_closed(ac, b);
        Real::lemma_plus_view(ab, c);
        Real::lemma_plus_view(ac, b);
        Real::lemma_plus_view(a, b);
        Real::lemma_plus_view(a, c);
        Real::lemma_view_injective(ab.plus_spec(c), ac.plus_spec(b));
    }
}

impl Real {
    /// Reducing a fraction keeps its sign.
    pub proof fn lemma_reduced_sign(n: int, d: int)
        requires
            d > 0,
            Real::reduced(n, d).is_finite_spec(),
        ensures
            Real::reduced(n, d).numer() > 0 <==> n > 0,
            Real::reduced(n, d).numer() == 0 <==> n == 0,
    {
        let m = vstd::math::abs(n) as nat;
        let g = crate::lowest_terms::gcd(m, d as nat) as int;
        crate::lowest_terms::lemma_gcd_quotients(m, d as nat);
        lemma_signed_quotient(m as int, m as int / g, g);
        Real::lemma_constants();
        let k = m as int / g;
        assert(d / g > 0) by (nonlinear_arith)
            requires
                d == (d / g) * g,
                d > 0,
                g > 0,
        ;
        Real::lemma_frac(n / g, d / g);
        assert(k > 0 <==> m > 0) by (nonlinear_arith)
            requires
                m == k * g,
                g > 0,
                k >= 0,
        ;
    }

    /// A ratio is zero exactly where its numerator is, and, where it is
    /// finite, positive exactly where numerator and denominator have the
    /// same sign.
    pub proof fn lemma_ratio_sign(n: int, d: int)
        requires
            d != 0,
        ensures
            Real::ratio_spec(n, d).is_zero_spec() <==> n == 0,
            Real::ratio_spec(n, d).is_positive_spec() <==> Real::ratio_spec(n, d).is_finite_spec()
                && ((n > 0 && d > 0) || (n < 0 && d < 0)),
    {
        Real::lemma_constants();
        if d > 0 {
            if Real::reduced(n, d).is_finite_spec() {
                Real::lemma_reduced_sign(n, d);
            }
            if n == 0 {
                Real::lemma_zero_reduced(d);
            }
        } else {
            if Real::reduced(-n, -d).is_finite_spec() {
                Real::lemma_reduced_sign(-n, -d);
            }
            if n == 0 {
                Real::lemma_zero_reduced(-d);
            }
        }
    }

    /// Zero over anything positive reduces to zero.
    pub proof fn lemma_zero_reduced(d: int)
        requires
            d > 0,
        ensures
            Real::reduced(0, d) == Real::zero_spec(),
    {
        Real::lemma_constants();
        assert(crate::lowest_terms::gcd(0, d as nat) == d) by {
            reveal_with_fuel(crate::lowest_terms::gcd, 3);
            assert(0nat % (d as nat) == 0);
        }
        assert(0int / d == 0) by (nonlinear_arith)
            requires
                d > 0,
        ;
        assert(d / d == 1) by (nonlinear_arith)
            requires
                d > 0,
        ;
    }
}

} // verus!
