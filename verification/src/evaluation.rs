//! Polynomials over the field and their values: what the inverse transform
//! undoes.

use vstd::prelude::*;
use vstd::arithmetic::div_mod::*;
use vstd::arithmetic::power::pow;
use crate::transform::{
    bls_modulus,
    field_div,
    field_sub,
    half_differences,
    half_sums,
    interleaved,
    is_power_of_two,
    spec_ifft,
    squared_points,
};

verus! {

/// Whether two numbers are the same number of the field.
pub open spec fn congruent(a: int, b: int) -> bool {
    a % (bls_modulus() as int) == b % (bls_modulus() as int)
}

/// The value at `x` of the polynomial with the coefficients `c`, lowest
/// first.
pub open spec fn polynomial(c: Seq<nat>, x: int) -> int
    decreases c.len(),
{
    if c.len() == 0 {
        0
    } else {
        c[0] + x * polynomial(c.skip(1), x)
    }
}

/// The values in the field of a polynomial at the given points.
pub open spec fn values_at(c: Seq<nat>, xs: Seq<nat>) -> Seq<nat> {
    Seq::new(xs.len(), |i: int| (polynomial(c, xs[i] as int) % (bls_modulus() as int)) as nat)
}

/// The coefficients at the even positions.
pub open spec fn evens(c: Seq<nat>) -> Seq<nat> {
    Seq::new(c.len() / 2, |i: int| c[2 * i])
}

/// The coefficients at the odd positions.
pub open spec fn odds(c: Seq<nat>) -> Seq<nat> {
    Seq::new(c.len() / 2, |i: int| c[2 * i + 1])
}

/// Whether the power of a number to the order of the field less two is its
/// inverse, as it is for every number but zero in a field of prime order.
pub open spec fn inverts(d: nat) -> bool {
    (d * (pow(d as int, (bls_modulus() - 2) as nat) % (bls_modulus() as int))) % (
    bls_modulus() as int) == 1
}

/// Whether points are fit for the transform: the two points of every pair
/// are opposite, twice the first of them has its inverse, so has two, and
/// the squares of the first points are fit in turn.
pub open spec fn paired_domain(xs: Seq<nat>) -> bool
    decreases xs.len(),
{
    xs.len() <= 1 || {
        &&& xs.len() % 2 == 0
        &&& inverts(2)
        &&& forall|i: int|
            0 <= i < xs.len() / 2 ==> congruent((xs[2 * i] + #[trigger] xs[2 * i + 1]) as int, 0)
                && inverts(2 * xs[2 * i])
        &&& paired_domain(squared_points(xs))
    }
}

/// Sums of congruent numbers are congruent.
pub proof fn lemma_congruent_add(a: int, b: int, c: int, d: int)
    requires
        congruent(a, b),
        congruent(c, d),
    ensures
        congruent(a + c, b + d),
{
    let m = bls_modulus() as int;
    lemma_add_mod_noop(a, c, m);
    lemma_add_mod_noop(b, d, m);
}

/// Differences of congruent numbers are congruent.
pub proof fn lemma_congruent_sub(a: int, b: int, c: int, d: int)
    requires
        congruent(a, b),
        congruent(c, d),
    ensures
        congruent(a - c, b - d),
{
    let m = bls_modulus() as int;
    lemma_sub_mod_noop(a, c, m);
    lemma_sub_mod_noop(b, d, m);
}

/// Products of congruent numbers are congruent.
pub proof fn lemma_congruent_mul(a: int, b: int, c: int, d: int)
    requires
        congruent(a, b),
        congruent(c, d),
    ensures
        congruent(a * c, b * d),
{
    let m = bls_modulus() as int;
    lemma_mul_mod_noop(a, c, m);
    lemma_mul_mod_noop(b, d, m);
}

/// A number is congruent to its remainder, which lies in the field.
pub proof fn lemma_congruent_mod(a: int)
    ensures
        congruent(a % (bls_modulus() as int), a),
        0 <= a % (bls_modulus() as int) < bls_modulus(),
{
    lemma_mod_twice(a, bls_modulus() as int);
    lemma_mod_bound(a, bls_modulus() as int);
}

/// A polynomial is its even part at the square plus `x` times its odd part
/// at the square.
pub proof fn lemma_polynomial_splits(c: Seq<nat>, x: int)
    requires
        c.len() % 2 == 0,
    ensures
        polynomial(c, x) == polynomial(evens(c), x * x) + x * polynomial(odds(c), x * x),
    decreases c.len(),
{
    if c.len() > 0 {
        let r = c.skip(2);
        lemma_polynomial_splits(r, x);
        assert(c.skip(1).skip(1) =~= r);
        assert(evens(c).skip(1) =~= evens(r));
        assert(odds(c).skip(1) =~= odds(r));
        let er = polynomial(evens(r), x * x);
        let or = polynomial(odds(r), x * x);
        let c0 = c[0] as int;
        let c1 = c[1] as int;
        assert(polynomial(c.skip(1), x) == c1 + x * polynomial(r, x));
        assert(polynomial(c, x) == c0 + x * (c1 + x * (er + x * or)));
        assert(polynomial(evens(c), x * x) == c0 + (x * x) * er);
        assert(polynomial(odds(c), x * x) == c1 + (x * x) * or);
        assert(c0 + x * (c1 + x * (er + x * or)) == (c0 + (x * x) * er) + x * (c1 + (x * x) * or))
            by (nonlinear_arith);
    } else {
        assert(evens(c).len() == 0);
        assert(odds(c).len() == 0);
        assert(x * 0 == 0);
    }
}

/// A polynomial has congruent values at congruent points.
pub proof fn lemma_polynomial_congruent(c: Seq<nat>, x: int, y: int)
    requires
        congruent(x, y),
    ensures
        congruent(polynomial(c, x), polynomial(c, y)),
    decreases c.len(),
{
    if c.len() > 0 {
        lemma_polynomial_congruent(c.skip(1), x, y);
        lemma_congruent_mul(x, y, polynomial(c.skip(1), x), polynomial(c.skip(1), y));
        lemma_congruent_add(
            c[0] as int,
            c[0] as int,
            x * polynomial(c.skip(1), x),
            y * polynomial(c.skip(1), y),
        );
    }
}

/// The quotient in the field of a multiple of a divisor that has its
/// inverse.
pub proof fn lemma_field_div_of_multiple(s: nat, d: nat, t: int)
    requires
        inverts(d),
        congruent(s as int, d * t),
    ensures
        field_div(s, d) == t % (bls_modulus() as int),
{
    let m = bls_modulus() as int;
    let w = pow(d as int, (bls_modulus() - 2) as nat) % m;
    // s * w is (d * t) * w, which is t * (d * w), which is t
    lemma_congruent_mul(s as int, d * t, w, w);
    assert((d * t) * w == t * (d * w)) by (nonlinear_arith);
    assert(congruent(d * w, 1)) by {
        lemma_small_mod(1, bls_modulus());
    }
    lemma_congruent_mul(t, t, d * w, 1);
    assert(t * 1 == t);
}

/// The even and the odd coefficients in turn are the coefficients.
pub proof fn lemma_interleaved_parts(c: Seq<nat>)
    requires
        c.len() % 2 == 0,
    ensures
        interleaved(evens(c), odds(c)) == c,
{
    assert(interleaved(evens(c), odds(c)) =~= c);
}

/// What the transform makes of the values of a polynomial at a pair of
/// opposite points: the value of the even part and the value of the odd
/// part at the square of the first point.
pub proof fn lemma_pair(c: Seq<nat>, x: nat, x1: nat)
    requires
        c.len() % 2 == 0,
        congruent((x + x1) as int, 0),
        inverts(2),
        inverts(2 * x),
    ensures
        ({
            let m = bls_modulus() as int;
            let a0 = (polynomial(c, x as int) % m) as nat;
            let a1 = (polynomial(c, x1 as int) % m) as nat;
            let y = ((x * x) % bls_modulus()) as int;
            &&& field_div(a0 + a1, 2) == (polynomial(evens(c), y) % m) as nat
            &&& field_div(field_sub(a0, a1), 2 * x) == (polynomial(odds(c), y) % m) as nat
        }),
{
    let m = bls_modulus() as int;
    let xi = x as int;
    let p0 = polynomial(c, xi);
    let p1 = polynomial(c, x1 as int);
    let a0 = (p0 % m) as nat;
    let a1 = (p1 % m) as nat;
    let y = ((x * x) % bls_modulus()) as int;
    let e = polynomial(evens(c), xi * xi);
    let o = polynomial(odds(c), xi * xi);
    lemma_polynomial_splits(c, xi);
    lemma_polynomial_splits(c, -xi);
    assert((-xi) * (-xi) == xi * xi) by (nonlinear_arith);
    assert(polynomial(c, -xi) == e - xi * o) by (nonlinear_arith)
        requires
            polynomial(c, -xi) == e + (-xi) * o,
    ;
    // the second point is the opposite of the first
    assert(congruent(x1 as int, -xi)) by {
        lemma_congruent_sub(xi + x1, 0, xi, xi);
    }
    lemma_polynomial_congruent(c, x1 as int, -xi);
    lemma_congruent_mod(p0);
    lemma_congruent_mod(p1);
    // the sum is twice the even part
    lemma_congruent_add(a0 as int, p0, a1 as int, e - xi * o);
    assert(p0 + (e - xi * o) == 2 * e);
    lemma_field_div_of_multiple(a0 + a1, 2, e);
    // the difference is twice the first point times the odd part
    lemma_congruent_sub(a0 as int, p0, a1 as int, e - xi * o);
    assert(p0 - (e - xi * o) == (2 * x) * o) by (nonlinear_arith)
        requires
            p0 == e + xi * o,
            xi == x,
    ;
    lemma_congruent_mod(a0 - a1);
    lemma_field_div_of_multiple(field_sub(a0, a1), 2 * x, o);
    // the parts are taken at the square, reduced
    lemma_congruent_mod(xi * xi);
    lemma_polynomial_congruent(evens(c), y, xi * xi);
    lemma_polynomial_congruent(odds(c), y, xi * xi);
    lemma_mod_bound(polynomial(evens(c), y), m);
    lemma_mod_bound(polynomial(odds(c), y), m);
}

/// The inverse transform undoes the evaluation of a polynomial: from the
/// values of a polynomial at points that are fit for the transform, it
/// gives the coefficients back.
pub proof fn lemma_ifft_inverts_evaluation(c: Seq<nat>, xs: Seq<nat>)
    requires
        c.len() == xs.len(),
        is_power_of_two(c.len()),
        forall|i: int| 0 <= i < c.len() ==> c[i] < bls_modulus(),
        paired_domain(xs),
    ensures
        spec_ifft(values_at(c, xs), xs) == c,
    decreases c.len(),
{
    let m = bls_modulus() as int;
    let a = values_at(c, xs);
    if c.len() == 1 {
        assert(c.skip(1).len() == 0);
        assert(polynomial(c.skip(1), xs[0] as int) == 0);
        assert(polynomial(c, xs[0] as int) == c[0] + xs[0] * 0);
        assert(xs[0] * 0 == 0);
        lemma_small_mod(c[0], bls_modulus());
        assert(a =~= c);
    } else {
        let nx = squared_points(xs);
        assert(half_sums(a) =~= values_at(evens(c), nx)) by {
            assert forall|i: int| 0 <= i < c.len() / 2 implies #[trigger] half_sums(a)[i]
                == values_at(evens(c), nx)[i] by {
                assert(congruent((xs[2 * i] + xs[2 * i + 1]) as int, 0));
                assert(inverts(2 * xs[2 * i]));
                lemma_pair(c, xs[2 * i], xs[2 * i + 1]);
            }
        }
        assert(half_differences(a, xs) =~= values_at(odds(c), nx)) by {
            assert forall|i: int| 0 <= i < c.len() / 2 implies #[trigger] half_differences(
                a,
                xs,
            )[i] == values_at(odds(c), nx)[i] by {
                assert(congruent((xs[2 * i] + xs[2 * i + 1]) as int, 0));
                assert(inverts(2 * xs[2 * i]));
                lemma_pair(c, xs[2 * i], xs[2 * i + 1]);
            }
        }
        lemma_ifft_inverts_evaluation(evens(c), nx);
        lemma_ifft_inverts_evaluation(odds(c), nx);
        lemma_interleaved_parts(c);
    }
}

} // verus!
