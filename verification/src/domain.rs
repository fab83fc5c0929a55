//! The points of a blob are fit for the inverse transform, as far as the
//! field has its inverses.

use vstd::prelude::*;
use vstd::arithmetic::div_mod::*;
use vstd::arithmetic::mul::*;
use vstd::arithmetic::power::*;
use vstd::arithmetic::power2::*;
use crate::evaluation::{
    congruent,
    inverts,
    lemma_congruent_add,
    lemma_congruent_mod,
    lemma_congruent_mul,
    lemma_ifft_inverts_evaluation,
    paired_domain,
    values_at,
};
use crate::transform::{
    blob_points,
    bls_modulus,
    generator,
    is_power_of_two,
    lemma_level_points_len,
    level_points,
    point,
    reversed_bits,
    spec_ifft,
    squared_points,
};

verus! {

/// Whether every number of the field but zero has its power to the order
/// of the field less two for its inverse. By the little theorem of Fermat
/// this is so in a field of prime order.
pub open spec fn field_has_inverses() -> bool {
    forall|d: nat| d % bls_modulus() != 0 ==> #[trigger] inverts(d)
}

/// A power of the generator.
pub open spec fn generator_power(e: nat) -> int {
    pow(generator() as int, e)
}

/// From the remainder of a power of the generator to that of its square.
proof fn lemma_square_step(e: nat, g: int, g2: int)
    requires
        generator_power(e) % (bls_modulus() as int) == g,
        (g * g) % (bls_modulus() as int) == g2,
    ensures
        generator_power(2 * e) % (bls_modulus() as int) == g2,
{
    let m = bls_modulus() as int;
    lemma_pow_adds(generator() as int, e, e);
    lemma_mul_mod_noop(generator_power(e), generator_power(e), m);
}

/// The generator is a root of unity of order 4096: its power to 2048 is
/// minus one and its power to 4096 is one.
pub proof fn lemma_generator_order()
    ensures
        congruent(generator_power(2048), -1),
        congruent(generator_power(4096), 1),
{
    let m = bls_modulus() as int;
    lemma_pow1(generator() as int);
    lemma_small_mod(generator(), bls_modulus());
    lemma_square_step(1, 39033254847818212395286706435128746857159659164139250548781411570340225835782int, 49307615728544765012166121802278658070711169839041683575071795236746050763237int);
    lemma_square_step(2, 49307615728544765012166121802278658070711169839041683575071795236746050763237int, 22781213702924172180523978385542388841346373992886390990881355510284839737428int);
    lemma_square_step(4, 22781213702924172180523978385542388841346373992886390990881355510284839737428int, 4214636447306890335450803789410475782380792963881561516561680164772024173390int);
    lemma_square_step(8, 4214636447306890335450803789410475782380792963881561516561680164772024173390int, 36007022166693598376559747923784822035233416720563672082740011604939309541707int);
    lemma_square_step(16, 36007022166693598376559747923784822035233416720563672082740011604939309541707int, 47309214877430199588914062438791732591241783999377560080318349803002842391998int);
    lemma_square_step(32, 47309214877430199588914062438791732591241783999377560080318349803002842391998int, 31519469946562159605140591558550197856588417350474800936898404023113662197331int);
    lemma_square_step(64, 31519469946562159605140591558550197856588417350474800936898404023113662197331int, 36581797046584068049060372878520385032448812009597153775348195406694427778894int);
    lemma_square_step(128, 36581797046584068049060372878520385032448812009597153775348195406694427778894int, 14788168760825820622209131888203028446852016562542525606630160374691593895118int);
    lemma_square_step(256, 14788168760825820622209131888203028446852016562542525606630160374691593895118int, 23674694431658770659612952115660802947967373701506253797663184111817857449850int);
    lemma_square_step(512, 23674694431658770659612952115660802947967373701506253797663184111817857449850int, 3465144826073652318776269530687742778270252468765361963008int);
    lemma_square_step(1024, 3465144826073652318776269530687742778270252468765361963008int, 52435875175126190479447740508185965837690552500527637822603658699938581184512int);
    lemma_square_step(2048, 52435875175126190479447740508185965837690552500527637822603658699938581184512int, 1int);
    assert((-1int) % m == m - 1) by {
        lemma_mod_multiples_vanish(-1, m - 1, m);
        lemma_small_mod((m - 1) as nat, m as nat);
    }
    lemma_small_mod(1, bls_modulus());
}

/// The power of the generator to a multiple of 4096 is one.
pub proof fn lemma_generator_cycles(n: nat)
    ensures
        congruent(generator_power(4096 * n), 1),
    decreases n,
{
    let m = bls_modulus() as int;
    if n == 0 {
        lemma_pow0(generator() as int);
    } else {
        lemma_generator_cycles((n - 1) as nat);
        lemma_generator_order();
        lemma_pow_adds(generator() as int, 4096 * (n - 1) as nat, 4096);
        lemma_congruent_mul(generator_power(4096 * (n - 1) as nat), 1, generator_power(4096), 1);
        assert(4096 * (n - 1) as nat + 4096 == 4096 * n);
    }
}

/// The bits that were reversed before stand above those that follow.
pub proof fn lemma_reversed_above(x: nat, acc: nat, bits: nat)
    ensures
        reversed_bits(x, acc, bits) == acc * pow2(bits) + reversed_bits(x, 0, bits),
    decreases bits,
{
    if bits == 0 {
        lemma2_to64();
        assert(acc * pow2(0) == acc) by (nonlinear_arith)
            requires
                pow2(0) == 1,
        ;
    } else {
        lemma_reversed_above(x / 2, acc * 2 + x % 2, (bits - 1) as nat);
        lemma_reversed_above(x / 2, x % 2, (bits - 1) as nat);
        lemma_pow2_unfold(bits);
        let h = pow2((bits - 1) as nat);
        let rest = reversed_bits(x / 2, 0, (bits - 1) as nat);
        assert((acc * 2 + x % 2) * h == acc * (2 * h) + (x % 2) * h) by (nonlinear_arith);
        assert(reversed_bits(x, acc, bits) == (acc * 2 + x % 2) * h + rest);
        assert(0nat * 2 + x % 2 == x % 2);
        assert(reversed_bits(x, 0, bits) == (x % 2) * h + rest);
        assert(acc * pow2(bits) == acc * (2 * h));
    }
}

/// The reverse of a number: its lowest bit on top of the reverse of the
/// rest.
pub proof fn lemma_reversed_unfold(x: nat, bits: nat)
    requires
        bits > 0,
    ensures
        reversed_bits(x, 0, bits) == (x % 2) * pow2((bits - 1) as nat) + reversed_bits(
            x / 2,
            0,
            (bits - 1) as nat,
        ),
{
    lemma_reversed_above(x / 2, x % 2, (bits - 1) as nat);
}

/// The reverse of a number with one more bit set: the bit at place `l`
/// comes to stand at place `bits - 1 - l`.
pub proof fn lemma_reversed_bit(x: nat, l: nat, bits: nat)
    requires
        l < bits,
        x % pow2(l + 1) == 0,
    ensures
        reversed_bits(x + pow2(l), 0, bits) == reversed_bits(x, 0, bits) + pow2(
            (bits - 1 - l) as nat,
        ),
    decreases l,
{
    lemma2_to64();
    lemma_reversed_unfold(x, bits);
    lemma_reversed_unfold(x + pow2(l), bits);
    let top = pow2((bits - 1) as nat);
    assert(0 * top == 0);
    assert(1 * top == top);
    if l == 0 {
        assert(x % 2 == 0);
        assert((x + 1) % 2 == 1);
        assert((x + 1) / 2 == x / 2);
    } else {
        lemma_pow2_unfold(l);
        lemma_pow2_unfold(l + 1);
        let h = pow2((l - 1) as nat);
        let q = pow2(l);
        lemma_pow2_pos((l - 1) as nat);
        // x is a multiple of twice q, so its half is a multiple of q
        lemma_fundamental_div_mod(x as int, (2 * q) as int);
        let k = x / (2 * q);
        assert(x == (2 * q) * k);
        assert((2 * q) * k == 2 * (q * k)) by (nonlinear_arith);
        assert(x / 2 == q * k);
        assert(x % 2 == 0);
        assert((x / 2) % q == 0) by {
            lemma_mod_multiples_basic(k as int, q as int);
            lemma_mul_is_commutative(k as int, q as int);
        }
        assert((x + q) % 2 == 0);
        assert((x + q) / 2 == x / 2 + h);
        lemma_reversed_bit(x / 2, (l - 1) as nat, (bits - 1) as nat);
        assert(((bits - 1) as nat - 1 - (l - 1) as nat) as nat == (bits - 1 - l) as nat);
    }
}

/// The exponent of the generator that gives the point at position `j` of
/// a level.
pub open spec fn level_exponent(level: nat, j: nat) -> nat {
    pow2(level) * reversed_bits(pow2(level) * j, 0, 12)
}

/// The point at position `j` of a level is a power of the generator.
pub proof fn lemma_level_point(level: nat, j: nat)
    requires
        level <= 12,
        j < pow2((12 - level) as nat),
    ensures
        congruent(level_points(level)[j as int] as int, generator_power(level_exponent(level, j))),
    decreases level,
{
    let m = bls_modulus() as int;
    lemma2_to64();
    lemma_level_points_len(level);
    if level == 0 {
        assert(pow2(0) * j == j) by (nonlinear_arith)
            requires
                pow2(0) == 1,
        ;
        assert(level_exponent(0, j) == reversed_bits(j, 0, 12)) by (nonlinear_arith)
            requires
                level_exponent(0, j) == pow2(0) * reversed_bits(pow2(0) * j, 0, 12),
                pow2(0) * j == j,
                pow2(0) == 1,
        ;
        assert(level_points(0)[j as int] == point(j));
        lemma_congruent_mod(generator_power(reversed_bits(j, 0, 12)));
    } else {
        let below = (level - 1) as nat;
        lemma_level_points_len(below);
        lemma_pow2_unfold(level);
        lemma_pow2_unfold((12 - below) as nat);
        lemma_level_point(below, 2 * j);
        let x = level_points(below)[(2 * j) as int];
        let e = level_exponent(below, 2 * j);
        assert(level_points(level)[j as int] == (x * x) % bls_modulus());
        lemma_congruent_mod((x * x) as int);
        lemma_congruent_mul(x as int, generator_power(e), x as int, generator_power(e));
        lemma_pow_adds(generator() as int, e, e);
        assert(pow2(below) * (2 * j) == pow2(level) * j) by (nonlinear_arith)
            requires
                pow2(level) == 2 * pow2(below),
        ;
        assert(e + e == level_exponent(level, j)) by (nonlinear_arith)
            requires
                e == pow2(below) * reversed_bits(pow2(below) * (2 * j), 0, 12),
                pow2(below) * (2 * j) == pow2(level) * j,
                pow2(level) == 2 * pow2(below),
                level_exponent(level, j) == pow2(level) * reversed_bits(pow2(level) * j, 0, 12),
        ;
    }
}

/// The two points of a pair of a level are opposite.
pub proof fn lemma_level_pair(level: nat, i: nat)
    requires
        level < 12,
        i < pow2((11 - level) as nat),
    ensures
        congruent((level_points(level)[(2 * i) as int] + level_points(level)[(2 * i + 1) as int]) as int, 0),
{
    lemma2_to64();
    lemma_pow2_unfold((12 - level) as nat);
    lemma_pow2_unfold(level + 1);
    lemma_pow2_pos(level);
    lemma_level_point(level, 2 * i);
    lemma_level_point(level, 2 * i + 1);
    let q = pow2(level);
    let x = q * (2 * i);
    let e0 = level_exponent(level, 2 * i);
    let e1 = level_exponent(level, 2 * i + 1);
    assert(q * (2 * i + 1) == x + q) by (nonlinear_arith)
        requires
            x == q * (2 * i),
    ;
    assert(x % pow2(level + 1) == 0) by {
        assert(x == (2 * q) * i) by (nonlinear_arith)
            requires
                x == q * (2 * i),
        ;
        lemma_mod_multiples_basic(i as int, (2 * q) as int);
        lemma_mul_is_commutative(i as int, (2 * q) as int);
    }
    lemma_reversed_bit(x, level, 12);
    lemma_pow2_adds(level, (11 - level) as nat);
    assert(e1 == e0 + 2048) by (nonlinear_arith)
        requires
            e0 == q * reversed_bits(x, 0, 12),
            e1 == q * reversed_bits(x + q, 0, 12),
            reversed_bits(x + q, 0, 12) == reversed_bits(x, 0, 12) + pow2((11 - level) as nat),
            q * pow2((11 - level) as nat) == 2048,
    ;
    lemma_pow_adds(generator() as int, e0, 2048);
    lemma_generator_order();
    let g0 = generator_power(e0);
    lemma_congruent_mul(g0, g0, generator_power(2048), -1);
    lemma_congruent_add(
        level_points(level)[(2 * i) as int] as int,
        g0,
        level_points(level)[(2 * i + 1) as int] as int,
        g0 * (-1),
    );
    assert(g0 + g0 * (-1) == 0) by (nonlinear_arith);
}

/// A number whose product with another is one in the field is not zero in
/// the field.
pub proof fn lemma_unit_is_not_zero(x: int, u: int)
    requires
        congruent(x * u, 1),
    ensures
        x % (bls_modulus() as int) != 0,
{
    let m = bls_modulus() as int;
    if x % m == 0 {
        lemma_mul_mod_noop_left(x, u, m);
        assert(0 * u == 0);
        lemma_small_mod(0, bls_modulus());
        lemma_small_mod(1, bls_modulus());
    }
}

/// Twice a point of a level has its inverse, as far as the field has its
/// inverses.
pub proof fn lemma_level_divisor(level: nat, j: nat)
    requires
        level <= 12,
        j < pow2((12 - level) as nat),
        field_has_inverses(),
    ensures
        inverts(2),
        inverts(2 * level_points(level)[j as int]),
{
    let m = bls_modulus() as int;
    lemma2_to64();
    lemma_small_mod(2, bls_modulus());
    assert(inverts(2));
    let w = pow(2, (bls_modulus() - 2) as nat) % m;
    let x = level_points(level)[j as int];
    let e = level_exponent(level, j);
    lemma_level_point(level, j);
    // the exponent lies below a multiple of 4096, up to which it is filled
    let q = pow2(level);
    let r = reversed_bits(q * j, 0, 12);
    lemma_reversed_above(q * j, 0, 12);
    lemma_reversed_bound(q * j, 12);
    assert(e <= 4096 * q) by (nonlinear_arith)
        requires
            e == q * r,
            r < 4096,
    ;
    let rest = (4096 * q - e) as nat;
    lemma_pow_adds(generator() as int, e, rest);
    lemma_generator_cycles(q);
    // x times the rest of the power is one, and so is twice x times half of it
    lemma_congruent_mul(x as int, generator_power(e), generator_power(rest), generator_power(rest));
    lemma_small_mod(1, bls_modulus());
    lemma_congruent_mul(2 * w, 1, x * generator_power(rest), 1);
    assert((2 * w) * (x * generator_power(rest)) == (2 * x) * (w * generator_power(rest)))
        by (nonlinear_arith);
    lemma_unit_is_not_zero((2 * x) as int, w * generator_power(rest));
}

/// The reverse of a number lies below two to the number of its bits.
pub proof fn lemma_reversed_bound(x: nat, bits: nat)
    ensures
        reversed_bits(x, 0, bits) < pow2(bits),
    decreases bits,
{
    lemma2_to64();
    if bits > 0 {
        lemma_reversed_unfold(x, bits);
        lemma_reversed_bound(x / 2, (bits - 1) as nat);
        lemma_pow2_unfold(bits);
        let h = pow2((bits - 1) as nat);
        assert((x % 2) * h <= h) by (nonlinear_arith)
            requires
                x % 2 <= 1,
        ;
    }
}

/// The points of every level are fit for the transform, as far as the
/// field has its inverses.
pub proof fn lemma_level_is_paired(level: nat)
    requires
        level <= 12,
        field_has_inverses(),
    ensures
        paired_domain(level_points(level)),
    decreases 12 - level,
{
    lemma2_to64();
    lemma_level_points_len(level);
    if level < 12 {
        let xs = level_points(level);
        lemma_pow2_unfold((12 - level) as nat);
        lemma_level_divisor(level, 0);
        assert forall|i: int| 0 <= i < xs.len() / 2 implies congruent(
            (xs[2 * i] + #[trigger] xs[2 * i + 1]) as int,
            0,
        ) && inverts(2 * xs[2 * i]) by {
            lemma_level_pair(level, i as nat);
            lemma_level_divisor(level, (2 * i) as nat);
        }
        lemma_level_is_paired(level + 1);
        assert(squared_points(xs) == level_points(level + 1));
    }
}

/// The inverse transform of a blob undoes the evaluation of a polynomial
/// at the points of a blob: from the values of a polynomial of 4096
/// coefficients of the field it gives the coefficients back, as far as the
/// field has its inverses.
pub proof fn lemma_transform_inverts_evaluation(c: Seq<nat>)
    requires
        c.len() == 4096,
        forall|i: int| 0 <= i < c.len() ==> c[i] < bls_modulus(),
        field_has_inverses(),
    ensures
        spec_ifft(values_at(c, blob_points()), blob_points()) == c,
{
    lemma_level_is_paired(0);
    assert(is_power_of_two(4096)) by {
        reveal_with_fuel(is_power_of_two, 14);
    }
    lemma_ifft_inverts_evaluation(c, blob_points());
}

} // verus!
