//! Greatest common divisors and fractions in lowest terms.

use vstd::prelude::*;

verus! {

/// Greatest common divisor by Euclid's rule; `gcd(a, 0) == a`.
pub open spec fn gcd(a: nat, b: nat) -> nat
    decreases b,
{
    if b == 0 {
        a
    } else {
        gcd(b, a % b)
    }
}

/// `d` divides `n`.
pub open spec fn divides(d: nat, n: nat) -> bool {
    exists|k: nat| n == #[trigger] (k * d)
}

proof fn lemma_divides_intro(d: nat, k: nat, n: nat)
    requires
        n == k * d,
    ensures
        divides(d, n),
{
}

proof fn lemma_divides_sum(d: nat, x: nat, q: nat, y: nat)
    requires
        divides(d, x),
        divides(d, y),
    ensures
        divides(d, q * x + y),
{
    let kx = choose|k: nat| x == #[trigger] (k * d);
    let ky = choose|k: nat| y == #[trigger] (k * d);
    assert(q * x + y == (q * kx + ky) * d) by (nonlinear_arith)
        requires
            x == kx * d,
            y == ky * d,
    ;
    lemma_divides_intro(d, q * kx + ky, q * x + y);
}

proof fn lemma_divides_rem(d: nat, a: nat, b: nat)
    requires
        b > 0,
        divides(d, a),
        divides(d, b),
    ensures
        divides(d, a % b),
{
    let ka = choose|k: nat| a == #[trigger] (k * d);
    let kb = choose|k: nat| b == #[trigger] (k * d);
    let q = a / b;
    assert(a == q * b + a % b) by (nonlinear_arith)
        requires
            b > 0,
            q == a / b,
    ;
    assert(q * kb <= ka) by (nonlinear_arith)
        requires
            a == ka * d,
            b == kb * d,
            a == q * b + a % b,
            b > 0,
    ;
    let r = a % b;
    assert((ka - q * kb) * d == ka * d - q * (kb * d)) by (nonlinear_arith);
    assert(r == (ka - q * kb) * d);
    lemma_divides_intro(d, (ka - q * kb) as nat, a % b);
}

/// The gcd divides both of its arguments.
pub proof fn lemma_gcd_divides(a: nat, b: nat)
    ensures
        divides(gcd(a, b), a),
        divides(gcd(a, b), b),
    decreases b,
{
    if b == 0 {
        assert(a == 1 * a);
        lemma_divides_intro(a, 1, a);
        assert(0 == 0 * a);
        lemma_divides_intro(a, 0, 0);
    } else {
        lemma_gcd_divides(b, a % b);
        let g = gcd(a, b);
        let q = a / b;
        assert(a == q * b + a % b) by (nonlinear_arith)
            requires
                b > 0,
                q == a / b,
        ;
        lemma_divides_sum(g, b, q, a % b);
    }
}

/// Every common divisor divides the gcd.
pub proof fn lemma_gcd_greatest(d: nat, a: nat, b: nat)
    requires
        divides(d, a),
        divides(d, b),
    ensures
        divides(d, gcd(a, b)),
    decreases b,
{
    if b != 0 {
        lemma_divides_rem(d, a, b);
        lemma_gcd_greatest(d, b, a % b);
    }
}

/// The gcd is positive unless both arguments are zero.
pub proof fn lemma_gcd_positive(a: nat, b: nat)
    requires
        a > 0 || b > 0,
    ensures
        gcd(a, b) > 0,
        gcd(a, b) <= a || a == 0,
        gcd(a, b) <= b || b == 0,
    decreases b,
{
    if b != 0 {
        lemma_gcd_positive(b, a % b);
        lemma_gcd_divides(a, b);
        let g = gcd(a, b);
        let kb = choose|k: nat| b == #[trigger] (k * g);
        assert(g <= b) by (nonlinear_arith)
            requires
                b == kb * g,
                b > 0,
                g > 0,
        ;
        if a > 0 {
            let ka = choose|k: nat| a == #[trigger] (k * g);
            assert(g <= a) by (nonlinear_arith)
                requires
                    a == ka * g,
                    a > 0,
                    g > 0,
            ;
        }
    }
}

/// Dividing both arguments by their gcd leaves nothing in common.
pub proof fn lemma_gcd_quotients(a: nat, b: nat)
    requires
        a > 0 || b > 0,
    ensures
        gcd(a, b) > 0,
        gcd(a / gcd(a, b), b / gcd(a, b)) == 1,
        a == (a / gcd(a, b)) * gcd(a, b),
        b == (b / gcd(a, b)) * gcd(a, b),
{
    let g = gcd(a, b);
    lemma_gcd_positive(a, b);
    lemma_gcd_divides(a, b);
    let ka = choose|k: nat| a == #[trigger] (k * g);
    let kb = choose|k: nat| b == #[trigger] (k * g);
    assert(a / g == ka) by (nonlinear_arith)
        requires
            a == ka * g,
            g > 0,
    ;
    assert(b / g == kb) by (nonlinear_arith)
        requires
            b == kb * g,
            g > 0,
    ;
    assert(ka > 0 || kb > 0) by (nonlinear_arith)
        requires
            a == ka * g,
            b == kb * g,
            a > 0 || b > 0,
    ;
    let h = gcd(ka, kb);
    lemma_gcd_positive(ka, kb);
    lemma_gcd_divides(ka, kb);
    let ja = choose|k: nat| ka == #[trigger] (k * h);
    let jb = choose|k: nat| kb == #[trigger] (k * h);
    assert(a == ja * (h * g)) by (nonlinear_arith)
        requires
            a == ka * g,
            ka == ja * h,
    ;
    assert(b == jb * (h * g)) by (nonlinear_arith)
        requires
            b == kb * g,
            kb == jb * h,
    ;
    lemma_divides_intro(h * g, ja, a);
    lemma_divides_intro(h * g, jb, b);
    lemma_gcd_greatest(h * g, a, b);
    let m = choose|k: nat| g == #[trigger] (k * (h * g));
    assert(h == 1) by (nonlinear_arith)
        requires
            g == m * (h * g),
            g > 0,
            h > 0,
    ;
}

/// The gcd does not depend on the order of its arguments.
pub proof fn lemma_gcd_swap(a: nat, b: nat)
    ensures
        gcd(a, b) == gcd(b, a),
{
    let g = gcd(a, b);
    let h = gcd(b, a);
    lemma_gcd_divides(a, b);
    lemma_gcd_divides(b, a);
    lemma_gcd_greatest(g, b, a);
    lemma_gcd_greatest(h, a, b);
    lemma_divides_both_ways(g, h);
}

proof fn lemma_divides_both_ways(g: nat, h: nat)
    requires
        divides(g, h),
        divides(h, g),
    ensures
        g == h,
{
    let k = choose|k: nat| h == #[trigger] (k * g);
    let j = choose|j: nat| g == #[trigger] (j * h);
    assert(g == h) by (nonlinear_arith)
        requires
            h == k * g,
            g == j * h,
    ;
}

/// Bezout: the gcd is a combination of its arguments with whole factors.
pub proof fn lemma_gcd_combination(a: nat, b: nat) -> (c: (int, int))
    ensures
        c.0 * a + c.1 * b == gcd(a, b),
    decreases b,
{
    if b == 0 {
        assert(1 * a + 0 * b == a);
        (1, 0)
    } else {
        let q = (a / b) as int;
        let r = (a % b) as int;
        let inner = lemma_gcd_combination(b, a % b);
        let x = inner.0;
        let y = inner.1;
        vstd::arithmetic::div_mod::lemma_fundamental_div_mod(a as int, b as int);
        let qb = q * b;
        assert(a == qb + r) by {
            assert(b * q == q * b) by (nonlinear_arith);
        }
        assert(y * (qb + r) == y * qb + y * r) by (nonlinear_arith);
        assert(y * qb == (q * y) * b) by (nonlinear_arith)
            requires
                qb == q * b,
        ;
        assert((x - q * y) * b == x * b - (q * y) * b) by (nonlinear_arith);
        (y, x - q * y)
    }
}

/// A fraction in lowest terms is the least of its kind: every fraction of
/// the same value is a whole multiple of it, above and below.
pub proof fn lemma_lowest_terms_least(n: int, d: int, m: int, e: int) -> (k: int)
    requires
        d > 0,
        e > 0,
        gcd(vstd::math::abs(n) as nat, d as nat) == 1,
        n * e == m * d,
    ensures
        k >= 1,
        e == k * d,
        m == k * n,
{
    let a = vstd::math::abs(n);
    let c = lemma_gcd_combination(a as nat, d as nat);
    let x = c.0;
    let y = c.1;
    let w: int = if n < 0 {
        -m
    } else {
        m
    };
    // a * e == w * d, the given equation with the sign of n taken out
    assert(a * e == w * d) by (nonlinear_arith)
        requires
            n * e == m * d,
            n < 0 ==> a == -n && w == -m,
            n >= 0 ==> a == n && w == m,
    ;
    // e = (x a + y d) e = x (a e) + y (d e) = x (w d) + y (d e) = (x w + y e) d
    let k = x * w + y * e;
    let ae = a * e;
    let wd = w * d;
    assert((x * a + y * d) * e == x * ae + y * (d * e)) by (nonlinear_arith)
        requires
            ae == a * e,
    ;
    assert(x * wd == (x * w) * d) by (nonlinear_arith)
        requires
            wd == w * d,
    ;
    assert(y * (d * e) == (y * e) * d) by (nonlinear_arith);
    assert((x * w) * d + (y * e) * d == (x * w + y * e) * d) by (nonlinear_arith);
    assert((x * a + y * d) * e == e) by (nonlinear_arith)
        requires
            x * a + y * d == 1,
    ;
    assert(e == k * d);
    assert(k >= 1) by (nonlinear_arith)
        requires
            e == k * d,
            e > 0,
            d > 0,
    ;
    assert(n * (k * d) == (k * n) * d) by (nonlinear_arith);
    assert(m == k * n) by (nonlinear_arith)
        requires
            (k * n) * d == m * d,
            d > 0,
    ;
    k
}

/// Two fractions in lowest terms with the same value are the same fraction.
pub proof fn lemma_lowest_terms_unique(n: int, d: int, m: int, e: int)
    requires
        d > 0,
        e > 0,
        gcd(vstd::math::abs(n) as nat, d as nat) == 1,
        gcd(vstd::math::abs(m) as nat, e as nat) == 1,
        n * e == m * d,
    ensures
        n == m,
        d == e,
{
    let k = lemma_lowest_terms_least(n, d, m, e);
    let j = lemma_lowest_terms_least(m, e, n, d);
    assert(k == 1) by (nonlinear_arith)
        requires
            e == k * d,
            d == j * e,
            k >= 1,
            j >= 1,
            d > 0,
    ;
}

} // verus!
