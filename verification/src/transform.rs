//! The inverse transform of a blob: from the values of a polynomial at the
//! 4096th roots of unity, in bit-reversed order, to its coefficients.

use vstd::prelude::*;
use vstd::arithmetic::div_mod::*;
use vstd::arithmetic::mul::*;
use vstd::arithmetic::power::pow;
use vstd::arithmetic::power2::*;
use crate::blob_util::FIELD_ELEMENTS_PER_BLOB;
use crate::felt::{Felt, values};

verus! {

/// The order of the scalar field of BLS12-381.
pub open spec fn bls_modulus() -> nat {
    52435875175126190479447740508185965837690552500527637822603658699938581184513nat
}

/// A primitive 4096th root of unity of the field.
pub open spec fn generator() -> nat {
    39033254847818212395286706435128746857159659164139250548781411570340225835782nat
}

/// The difference of two numbers in the field.
pub open spec fn field_sub(a: nat, b: nat) -> nat {
    ((a as int - b as int) % (bls_modulus() as int)) as nat
}

/// The quotient of two numbers in the field, the inverse of the divisor
/// taken as its power to the order of the field less two.
pub open spec fn field_div(a: nat, b: nat) -> nat {
    ((a * (pow(b as int, (bls_modulus() - 2) as nat) % (bls_modulus() as int))) % (
    bls_modulus() as int)) as nat
}

/// The `bits` low bits of `x` in reverse order, above `acc`.
pub open spec fn reversed_bits(x: nat, acc: nat, bits: nat) -> nat
    decreases bits,
{
    if bits == 0 {
        acc
    } else {
        reversed_bits(x / 2, acc * 2 + x % 2, (bits - 1) as nat)
    }
}

/// The point at which position `i` of a blob holds the polynomial's value.
pub open spec fn point(i: nat) -> nat {
    (pow(generator() as int, reversed_bits(i, 0, 12)) % (bls_modulus() as int)) as nat
}

/// The points of a blob.
pub open spec fn blob_points() -> Seq<nat> {
    Seq::new(4096, |i: int| point(i as nat))
}

/// Whether a number is a power of two.
pub open spec fn is_power_of_two(n: nat) -> bool
    decreases n,
{
    n == 1 || (n > 1 && n % 2 == 0 && is_power_of_two(n / 2))
}

/// The half sums of the pairs of `a`.
pub open spec fn half_sums(a: Seq<nat>) -> Seq<nat> {
    Seq::new(a.len() / 2, |i: int| field_div(a[2 * i] + a[2 * i + 1], 2))
}

/// The half differences of the pairs of `a`, each divided by the point of
/// its pair.
pub open spec fn half_differences(a: Seq<nat>, xs: Seq<nat>) -> Seq<nat> {
    Seq::new(
        a.len() / 2,
        |i: int| field_div(field_sub(a[2 * i], a[2 * i + 1]), 2 * xs[2 * i]),
    )
}

/// The squares of the points of the pairs.
pub open spec fn squared_points(xs: Seq<nat>) -> Seq<nat> {
    Seq::new(xs.len() / 2, |i: int| (xs[2 * i] * xs[2 * i]) % bls_modulus())
}

/// Two sequences of one length, element by element in turn.
pub open spec fn interleaved(even: Seq<nat>, odd: Seq<nat>) -> Seq<nat> {
    Seq::new(
        2 * even.len(),
        |k: int|
            if k % 2 == 0 {
                even[k / 2]
            } else {
                odd[k / 2]
            },
    )
}

/// The coefficients of the polynomial that has the values `a` at the points
/// `xs`, where the points of each pair are opposite: those of its even part
/// and those of its odd part in turn.
pub open spec fn spec_ifft(a: Seq<nat>, xs: Seq<nat>) -> Seq<nat>
    decreases a.len(),
{
    if a.len() <= 1 {
        a
    } else {
        interleaved(
            spec_ifft(half_sums(a), squared_points(xs)),
            spec_ifft(half_differences(a, xs), squared_points(xs)),
        )
    }
}

/// The points that the transform works with once it has halved a blob
/// `level` times.
pub open spec fn level_points(level: nat) -> Seq<nat>
    decreases level,
{
    if level == 0 {
        blob_points()
    } else {
        squared_points(level_points((level - 1) as nat))
    }
}

/// The inverse in the field of twice a number.
pub open spec fn inverse_of_twice(x: nat) -> nat {
    (pow((2 * x) as int, (bls_modulus() - 2) as nat) % (bls_modulus() as int)) as nat
}

/// The inverses that the transform divides by at a level: that of twice
/// the first point of every pair.
pub open spec fn level_inverses(level: nat) -> Seq<nat> {
    Seq::new(
        level_points(level).len() / 2,
        |i: int| inverse_of_twice(level_points(level)[2 * i]),
    )
}

/// Every halving halves the number of points.
pub proof fn lemma_level_points_len(level: nat)
    requires
        level <= 12,
    ensures
        level_points(level).len() == pow2((12 - level) as nat),
    decreases level,
{
    lemma2_to64();
    if level > 0 {
        lemma_level_points_len((level - 1) as nat);
        lemma_pow2_unfold((12 - (level - 1)) as nat);
    }
}

/// The transform keeps the length of a sequence whose length is a power of
/// two.
pub proof fn lemma_ifft_len(a: Seq<nat>, xs: Seq<nat>)
    requires
        is_power_of_two(a.len()),
    ensures
        spec_ifft(a, xs).len() == a.len(),
    decreases a.len(),
{
    if a.len() > 1 {
        lemma_ifft_len(half_sums(a), squared_points(xs));
        lemma_ifft_len(half_differences(a, xs), squared_points(xs));
    }
}

struct TransConst {
    pub bls_modulus: Felt,
    pub generator: Felt,
    pub two: Felt,
}


/// The number with the four given 64-bit digits, highest first.
fn from_limbs(l3: u64, l2: u64, l1: u64, l0: u64) -> (r: Felt)
    ensures
        r@ == l3 as nat * 0x1_0000_0000_0000_0000_0000_0000_0000_0000_0000_0000_0000_0000nat
            + l2 as nat * 0x1_0000_0000_0000_0000_0000_0000_0000_0000nat + l1 as nat
            * 0x1_0000_0000_0000_0000nat + l0 as nat,
{
    proof {
        lemma2_to64();
        lemma_pow2_adds(64, 64);
        lemma_pow2_adds(128, 64);
    }
    let a = Felt::from_u64(l3).shift_left(192);
    let b = Felt::from_u64(l2).shift_left(128);
    let c = Felt::from_u64(l1).shift_left(64);
    a.plus(&b).plus(&c).plus(&Felt::from_u64(l0))
}

impl TransConst {
    fn duplicate(&self) -> (r: TransConst)
        ensures
            r.bls_modulus@ == self.bls_modulus@,
            r.generator@ == self.generator@,
            r.two@ == self.two@,
    {
        TransConst {
            bls_modulus: self.bls_modulus.clone(),
            generator: self.generator.clone(),
            two: self.two.clone(),
        }
    }

    fn default() -> (r: TransConst)
        ensures
            r.bls_modulus@ == bls_modulus(),
            r.generator@ == generator(),
            r.two@ == 2,
    {
        TransConst {
            bls_modulus: from_limbs(
                0x73eda753299d7d48,
                0x3339d80809a1d805,
                0x53bda402fffe5bfe,
                0xffffffff00000001,
            ),
            generator: from_limbs(
                0x564c0a11a0f704f4,
                0xfc3e8acfe0f8245f,
                0x0ad1347b378fbf96,
                0xe206da11a5d36306,
            ),
            two: Felt::from_u64(2),
        }
    }
}

/// The 12 low bits of a number in reverse order.
pub fn reverse_bits_12(i: u16) -> (r: u16)
    ensures
        r == reversed_bits(i as nat, 0, 12),
        r < 4096,
{
    let mut x: u16 = i;
    let mut acc: u16 = 0;
    let mut k: u16 = 0;
    proof {
        lemma2_to64();
    }
    while k < 12
        invariant
            k <= 12,
            acc < pow2(k as nat),
            pow2(k as nat) <= 4096,
            reversed_bits(x as nat, acc as nat, (12 - k) as nat) == reversed_bits(i as nat, 0, 12),
        decreases 12 - k,
    {
        proof {
            lemma2_to64();
            lemma_pow2_unfold((k + 1) as nat);
            if k < 11 {
                lemma_pow2_strictly_increases((k + 1) as nat, 12);
            }
        }
        acc = acc * 2 + x % 2;
        x = x / 2;
        k = k + 1;
    }
    acc
}

/// The inverse transform, with the points of a blob worked out once.
pub struct Transformer {
    big_const: TransConst,
    points: Vec<Felt>,
    /// The inverse of two.
    half: Felt,
    /// For every level, the inverses that the transform divides by.
    inverses: Vec<Vec<Felt>>,
}

/// The numbers that a transform holds.
pub struct TransformerView {
    pub bls_modulus: nat,
    pub generator: nat,
    pub two: nat,
    /// The points of a blob.
    pub points: Seq<nat>,
    /// The inverse of two.
    pub half: nat,
    /// For every level, the inverses that the transform divides by.
    pub inverses: Seq<Seq<nat>>,
}

impl View for Transformer {
    type V = TransformerView;

    closed spec fn view(&self) -> TransformerView {
        TransformerView {
            bls_modulus: self.big_const.bls_modulus@,
            generator: self.big_const.generator@,
            two: self.big_const.two@,
            points: values(self.points@),
            half: self.half@,
            inverses: Seq::new(self.inverses@.len(), |l: int| values(self.inverses@[l]@)),
        }
    }
}

/// A copy of a sequence of field elements.
fn clone_felts(v: &Vec<Felt>) -> (r: Vec<Felt>)
    ensures
        r@.len() == v@.len(),
        values(r@) == values(v@),
{
    let mut r: Vec<Felt> = Vec::with_capacity(v.len());
    let mut i: usize = 0;
    while i < v.len()
        invariant
            i <= v@.len(),
            r@.len() == i,
            forall|j: int| 0 <= j < i ==> r@[j]@ == v@[j]@,
        decreases v@.len() - i,
    {
        r.push(v[i].clone());
        i = i + 1;
    }
    assert(values(r@) =~= values(v@));
    r
}

impl Clone for Transformer {
    fn clone(&self) -> (r: Transformer)
        ensures
            r@ == self@,
            self.wf() ==> r.wf(),
    {
        let points = clone_felts(&self.points);
        let mut inverses: Vec<Vec<Felt>> = Vec::with_capacity(self.inverses.len());
        let mut l: usize = 0;
        while l < self.inverses.len()
            invariant
                l <= self.inverses@.len(),
                inverses@.len() == l,
                forall|k: int| 0 <= k < l ==> values(inverses@[k]@) == values(self.inverses@[k]@),
            decreases self.inverses@.len() - l,
        {
            inverses.push(clone_felts(&self.inverses[l]));
            l = l + 1;
        }
        let r = Transformer {
            big_const: self.big_const.duplicate(),
            points,
            half: self.half.clone(),
            inverses,
        };
        assert(r@.inverses =~= self@.inverses);
        r
    }
}

impl Transformer {
    /// The constants are those of the field, the points those of a blob,
    /// and the inverses those of the twelve levels.
    pub closed spec fn wf(&self) -> bool {
        &&& self.big_const.bls_modulus@ == bls_modulus()
        &&& self.big_const.generator@ == generator()
        &&& self.big_const.two@ == 2
        &&& values(self.points@) == blob_points()
        &&& self.half@ == pow(2, (bls_modulus() - 2) as nat) % (bls_modulus() as int)
        &&& self.inverses@.len() == 12
        &&& forall|l: int|
            0 <= l < 12 ==> values(#[trigger] self.inverses@[l]@) == level_inverses(l as nat)
    }

    /// The transform of a blob: the points are worked out, and so are the
    /// inverses that every level divides by.
    pub fn new() -> (r: Transformer)
        ensures
            r.wf(),
    {
        let big_const = TransConst::default();
        let mut points: Vec<Felt> = Vec::new();
        let mut i: usize = 0;
        while i < FIELD_ELEMENTS_PER_BLOB
            invariant
                i <= FIELD_ELEMENTS_PER_BLOB,
                big_const.bls_modulus@ == bls_modulus(),
                big_const.generator@ == generator(),
                points@.len() == i,
                forall|j: int| 0 <= j < i ==> points@[j]@ == point(j as nat),
            decreases FIELD_ELEMENTS_PER_BLOB - i,
        {
            let r = reverse_bits_12(i as u16);
            points.push(Self::gen_exp_mod(&big_const, r));
            i = i + 1;
        }
        assert(values(points@) =~= blob_points());
        let e = big_const.bls_modulus.minus(&big_const.two);
        let half = big_const.two.modpow(&e, &big_const.bls_modulus);
        let mut inverses: Vec<Vec<Felt>> = Vec::new();
        let mut xs = clone_felts(&points);
        let mut level: usize = 0;
        while level < 12
            invariant
                level <= 12,
                big_const.bls_modulus@ == bls_modulus(),
                big_const.two@ == 2,
                e@ == bls_modulus() - 2,
                values(xs@) == level_points(level as nat),
                inverses@.len() == level,
                forall|l: int|
                    0 <= l < level ==> values(#[trigger] inverses@[l]@) == level_inverses(l as nat),
            decreases 12 - level,
        {
            proof {
                lemma_level_points_len(level as nat);
                lemma_pow2_unfold((12 - level) as nat);
                lemma2_to64();
            }
            let ghost x = values(xs@);
            let n = xs.len() / 2;
            let mut inv: Vec<Felt> = Vec::with_capacity(n);
            let mut next: Vec<Felt> = Vec::with_capacity(n);
            let mut i: usize = 0;
            while i < n
                invariant
                    i <= n,
                    xs@.len() == 2 * n,
                    2 * n <= usize::MAX,
                    x == values(xs@),
                    big_const.bls_modulus@ == bls_modulus(),
                    big_const.two@ == 2,
                    e@ == bls_modulus() - 2,
                    inv@.len() == i,
                    next@.len() == i,
                    forall|j: int| 0 <= j < i ==> inv@[j]@ == inverse_of_twice(x[2 * j]),
                    forall|j: int| 0 <= j < i ==> next@[j]@ == squared_points(x)[j],
                decreases n - i,
            {
                let x0 = &xs[2 * i];
                let divisor = big_const.two.times(x0);
                inv.push(divisor.modpow(&e, &big_const.bls_modulus));
                next.push(x0.times(x0).remainder(&big_const.bls_modulus));
                i = i + 1;
            }
            proof {
                assert(values(inv@) =~= level_inverses(level as nat));
                assert(values(next@) =~= squared_points(x));
            }
            inverses.push(inv);
            xs = next;
            level = level + 1;
        }
        Transformer { big_const, points, half, inverses }
    }

    fn gen_exp_mod(big_const: &TransConst, exponent: u16) -> (r: Felt)
        requires
            big_const.bls_modulus@ == bls_modulus(),
            big_const.generator@ == generator(),
        ensures
            r@ == pow(generator() as int, exponent as nat) % (bls_modulus() as int),
    {
        let exp = Felt::from_u64(exponent as u64);
        big_const.generator.modpow(&exp, &big_const.bls_modulus)
    }

    /// The coefficients of the polynomial whose values a blob holds.
    pub fn transform(&self, arr: &Vec<Felt>) -> (r: Vec<Felt>)
        requires
            self.wf(),
            arr@.len() == FIELD_ELEMENTS_PER_BLOB,
        ensures
            r@.len() == FIELD_ELEMENTS_PER_BLOB,
            values(r@) == spec_ifft(values(arr@), blob_points()),
    {
        proof {
            lemma_level_points_len(0);
            lemma2_to64();
            assert(is_power_of_two(4096)) by {
                reveal_with_fuel(is_power_of_two, 14);
            }
            lemma_ifft_len(values(arr@), blob_points());
        }
        self.ifft_at(arr, 0)
    }

    /// The inverse transform of values at the points of a level, with the
    /// inverses that were worked out for the level.
    fn ifft_at(&self, arr: &Vec<Felt>, level: usize) -> (r: Vec<Felt>)
        requires
            self.wf(),
            level <= 12,
            arr@.len() == pow2((12 - level) as nat),
        ensures
            r@.len() == arr@.len(),
            values(r@) == spec_ifft(values(arr@), level_points(level as nat)),
        decreases 12 - level,
    {
        proof {
            lemma2_to64();
            lemma_level_points_len(level as nat);
            if level < 12 {
                lemma_pow2_unfold((12 - level) as nat);
                lemma_pow2_pos((11 - level) as nat);
            }
        }
        if level == 12 {
            let mut res: Vec<Felt> = Vec::new();
            res.push(arr[0].clone());
            assert(values(res@) =~= values(arr@));
            return res;
        }
        let ghost a = values(arr@);
        let ghost x = level_points(level as nat);
        let n = arr.len() / 2;
        let inv = &self.inverses[level];
        assert(values(inv@) == level_inverses(level as nat));
        assert(inv@.len() == values(inv@).len());
        let mut res0: Vec<Felt> = Vec::with_capacity(n);
        let mut res1: Vec<Felt> = Vec::with_capacity(n);
        let mut i: usize = 0;
        while i < n
            invariant
                self.wf(),
                i <= n,
                arr@.len() == 2 * n,
                x.len() == 2 * n,
                inv@.len() == n,
                2 * n <= usize::MAX,
                a == values(arr@),
                x == level_points(level as nat),
                values(inv@) == level_inverses(level as nat),
                res0@.len() == i,
                res1@.len() == i,
                forall|j: int| 0 <= j < i ==> res0@[j]@ == half_sums(a)[j],
                forall|j: int| 0 <= j < i ==> res1@[j]@ == half_differences(a, x)[j],
            decreases n - i,
        {
            let a0 = &arr[2 * i];
            let a1 = &arr[2 * i + 1];
            res0.push(a0.plus(a1).times(&self.half).remainder(&self.big_const.bls_modulus));
            let diff = self.difference(a0, a1);
            proof {
                assert(values(inv@)[i as int] == inverse_of_twice(x[2 * i]));
                lemma_div_mod_congruent(diff@, field_sub(a0@, a1@), 2 * x[2 * i]);
            }
            res1.push(diff.times(&inv[i]).remainder(&self.big_const.bls_modulus));
            i = i + 1;
        }
        proof {
            assert(values(res0@) =~= half_sums(a));
            assert(values(res1@) =~= half_differences(a, x));
        }
        let merged_res0 = self.ifft_at(&res0, level + 1);
        let merged_res1 = self.ifft_at(&res1, level + 1);
        Self::merge(&merged_res0, &merged_res1)
    }

    /// A number of the remainder that the difference of two numbers has in
    /// the field.
    fn difference(&self, a0: &Felt, a1: &Felt) -> (diff: Felt)
        requires
            self.wf(),
        ensures
            diff@ % bls_modulus() == field_sub(a0@, a1@),
    {
        if a0.less_than(a1) {
            let d = a1.minus(a0).remainder(&self.big_const.bls_modulus);
            proof {
                lemma_mod_bound((a1@ - a0@) as int, bls_modulus() as int);
                lemma_negated_mod(a0@, a1@);
            }
            self.big_const.bls_modulus.minus(&d)
        } else {
            a0.minus(a1)
        }
    }

    /// Two sequences of one length, element by element in turn.
    fn merge(even: &Vec<Felt>, odd: &Vec<Felt>) -> (merged: Vec<Felt>)
        requires
            even@.len() == odd@.len(),
        ensures
            merged@.len() == 2 * even@.len(),
            values(merged@) == interleaved(values(even@), values(odd@)),
    {
        let n = even.len();
        let ghost e0 = values(even@);
        let ghost e1 = values(odd@);
        let mut merged: Vec<Felt> = Vec::new();
        let mut k: usize = 0;
        while k < n
            invariant
                k <= n,
                even@.len() == n,
                odd@.len() == n,
                e0 == values(even@),
                e1 == values(odd@),
                merged@.len() == 2 * k,
                forall|j: int| 0 <= j < 2 * k ==> merged@[j]@ == interleaved(e0, e1)[j],
            decreases n - k,
        {
            merged.push(even[k].clone());
            merged.push(odd[k].clone());
            k = k + 1;
        }
        assert(values(merged@) =~= interleaved(e0, e1));
        merged
    }

    /// The inverse transform of values at the given points.
    pub fn ifft(&self, arr: &Vec<Felt>, xs: &Vec<Felt>) -> (r: Vec<Felt>)
        requires
            self.wf(),
            arr@.len() == xs@.len(),
            is_power_of_two(arr@.len()),
        ensures
            r@.len() == arr@.len(),
            values(r@) == spec_ifft(values(arr@), values(xs@)),
        decreases arr@.len(),
    {
        if arr.len() == 1 {
            let mut res: Vec<Felt> = Vec::new();
            res.push(arr[0].clone());
            assert(values(res@) =~= values(arr@));
            return res;
        }
        let ghost a = values(arr@);
        let ghost x = values(xs@);
        let n = arr.len() / 2;
        let mut res0: Vec<Felt> = Vec::with_capacity(n);
        let mut res1: Vec<Felt> = Vec::with_capacity(n);
        let mut new_xs: Vec<Felt> = Vec::with_capacity(n);
        let mut i: usize = 0;
        while i < n
            invariant
                self.wf(),
                i <= n,
                arr@.len() == 2 * n,
                xs@.len() == 2 * n,
                2 * n <= usize::MAX,
                a == values(arr@),
                x == values(xs@),
                res0@.len() == i,
                res1@.len() == i,
                new_xs@.len() == i,
                forall|j: int| 0 <= j < i ==> res0@[j]@ == half_sums(a)[j],
                forall|j: int| 0 <= j < i ==> res1@[j]@ == half_differences(a, x)[j],
                forall|j: int| 0 <= j < i ==> new_xs@[j]@ == squared_points(x)[j],
            decreases n - i,
        {
            let a0 = &arr[2 * i];
            let a1 = &arr[2 * i + 1];
            let x0 = &xs[2 * i];
            res0.push(self.div_mod(a0.plus(a1), self.big_const.two.clone()));
            let diff = self.difference(a0, a1);
            let divisor = self.big_const.two.times(x0);
            proof {
                lemma_div_mod_congruent(diff@, field_sub(a0@, a1@), divisor@);
            }
            res1.push(self.div_mod(diff, divisor));
            let sq = x0.times(x0);
            new_xs.push(sq.remainder(&self.big_const.bls_modulus));
            i = i + 1;
        }
        proof {
            assert(values(res0@) =~= half_sums(a));
            assert(values(res1@) =~= half_differences(a, x));
            assert(values(new_xs@) =~= squared_points(x));
        }
        let merged_res0 = self.ifft(&res0, &new_xs);
        let merged_res1 = self.ifft(&res1, &new_xs);
        Self::merge(&merged_res0, &merged_res1)
    }

    fn div_mod(&self, a: Felt, b: Felt) -> (r: Felt)
        requires
            self.wf(),
        ensures
            r@ == field_div(a@, b@),
    {
        let e = self.big_const.bls_modulus.minus(&self.big_const.two);
        let pw = b.modpow(&e, &self.big_const.bls_modulus);
        a.times(&pw).remainder(&self.big_const.bls_modulus)
    }
}

/// The remainder of a negated difference.
pub proof fn lemma_negated_mod(a: nat, b: nat)
    requires
        a < b,
    ensures
        ((bls_modulus() - (b - a) % (bls_modulus() as int)) as int) % (bls_modulus() as int)
            == field_sub(a, b),
{
    let p = bls_modulus() as int;
    let d = (b - a) as int;
    lemma_fundamental_div_mod(d, p);
    let q = d / p;
    let r = d % p;
    lemma_mod_bound(d, p);
    assert(a as int - b as int == p * (-q - 1) + (p - r)) by (nonlinear_arith)
        requires
            d == p * q + r,
            d == b as int - a as int,
    ;
    lemma_mod_multiples_vanish(-q - 1, p - r, p);
}

/// Dividends of one remainder have one quotient in the field.
pub proof fn lemma_div_mod_congruent(a: nat, b: nat, divisor: nat)
    requires
        a % bls_modulus() == b % bls_modulus(),
    ensures
        field_div(a, divisor) == field_div(b, divisor),
{
    let p = bls_modulus() as int;
    let w = pow(divisor as int, (bls_modulus() - 2) as nat) % p;
    lemma_mul_mod_noop_left(a as int, w, p);
    lemma_mul_mod_noop_left(b as int, w, p);
}

} // verus!
