//! The decompression of a state update: a header of nine sizes, seven
//! buckets of values packed by width, pointers to repeated values, and the
//! bucket of every position of the output.

use vstd::prelude::*;
use vstd::arithmetic::div_mod::*;
use vstd::arithmetic::mul::*;
use vstd::arithmetic::power2::*;
use crate::felt::{Felt, values};

verus! {

/// The bits of one size in the header.
pub const HEADER_ELM_N_BITS: usize = 20;

/// The bits of a field element that packing may use.
pub const MAX_N_BITS_PER_FELT: usize = 251;

/// The number of buckets, that of the repeated values included.
pub const TOTAL_N_BUCKETS: usize = 7;

/// Why a sequence could not be decompressed.
#[derive(Debug, Clone, Copy, PartialEq, Eq, Structural)]
pub enum DecompError {
    /// The sequence is empty.
    NothingToDecompress,
    /// The header has bits above its nine sizes.
    HighHeaderBits,
    /// The header names another version than zero.
    InvalidVersion,
    /// The sequence ends within the largest bucket, at its element `index`
    /// of `of`.
    MissingLargeElement { index: usize, of: usize },
    /// The sequence ends before the sizes of the header are met.
    Exhausted,
    /// A packed element has bits above its values.
    HighBits,
    /// An element that packs nothing is not zero.
    LeftoverBits,
    /// The unique and the repeated values are not as many as the header
    /// says.
    LengthMismatch { uncompressed: usize, unique: usize, repeating: usize },
    /// Values are repeated though there is none to repeat.
    NoUniqueValues,
    /// A bucket is asked for more values than there are.
    BucketOverrun,
    /// An element after the payload is not zero.
    ExtraTail,
}

/// The power of a base.
pub open spec fn power(base: nat, exp: nat) -> nat
    decreases exp,
{
    if exp == 0 {
        1
    } else {
        base * power(base, (exp - 1) as nat)
    }
}

/// The digit of `packed` at position `j`, counted from the lowest, in the
/// given base.
pub open spec fn digit(packed: nat, base: nat, j: nat) -> nat {
    if base == 0 {
        0
    } else {
        (packed / power(base, j)) % base
    }
}

/// The `n` lowest digits of `packed`, lowest first.
pub open spec fn digits(packed: nat, base: nat, n: nat) -> Seq<nat> {
    Seq::new(n, |j: int| digit(packed, base, j as nat))
}

/// What is left of `packed` above its `n` lowest digits.
pub open spec fn above_digits(packed: nat, base: nat, n: nat) -> nat {
    if base == 0 {
        0
    } else {
        packed / power(base, n)
    }
}

/// No power of a base other than zero is zero.
pub proof fn lemma_power_pos(base: nat, exp: nat)
    requires
        base > 0,
    ensures
        power(base, exp) > 0,
    decreases exp,
{
    if exp > 0 {
        lemma_power_pos(base, (exp - 1) as nat);
        lemma_mul_strictly_positive(base as int, power(base, (exp - 1) as nat) as int);
    }
}

/// Takes the `n_elms` lowest digits off a packed element. An element that
/// packs nothing has to be zero.
pub fn unpack_felt(packed: Felt, elm_bound: &Felt, n_elms: usize) -> (r: Result<
    (Vec<Felt>, Felt),
    DecompError,
>)
    requires
        elm_bound@ != 0,
    ensures
        match r {
            Ok((out, rest)) => {
                &&& n_elms == 0 ==> packed@ == 0
                &&& out@.len() == n_elms
                &&& values(out@) == digits(packed@, elm_bound@, n_elms as nat)
                &&& rest@ == above_digits(packed@, elm_bound@, n_elms as nat)
            },
            Err(e) => n_elms == 0 && packed@ != 0 && e == DecompError::LeftoverBits,
        },
{
    let mut out: Vec<Felt> = Vec::new();
    if n_elms == 0 {
        if packed.is_zero() {
            assert(values(out@) =~= digits(packed@, elm_bound@, 0));
            assert(0nat / power(elm_bound@, 0) == 0) by {
                lemma_power_pos(elm_bound@, 0);
                lemma_basic_div(0, power(elm_bound@, 0) as int);
            }
            return Ok((out, Felt::zero()));
        } else {
            return Err(DecompError::LeftoverBits);
        }
    }
    let ghost whole = packed@;
    let mut packed = packed;
    let mut i: usize = 0;
    assert(values(out@) =~= digits(whole, elm_bound@, 0));
    assert(whole / power(elm_bound@, 0) == whole) by {
        assert(power(elm_bound@, 0) == 1);
        lemma_div_basics(whole as int);
    }
    while i < n_elms
        invariant
            i <= n_elms,
            elm_bound@ != 0,
            out@.len() == i,
            values(out@) == digits(whole, elm_bound@, i as nat),
            packed@ == whole / power(elm_bound@, i as nat),
        decreases n_elms - i,
    {
        let elm = packed.remainder(elm_bound);
        let ghost before = values(out@);
        out.push(elm);
        proof {
            assert(values(out@) =~= before.push(elm@));
            assert(values(out@) =~= digits(whole, elm_bound@, (i + 1) as nat));
            lemma_power_pos(elm_bound@, i as nat);
            lemma_div_denominator(
                whole as int,
                power(elm_bound@, i as nat) as int,
                elm_bound@ as int,
            );
            lemma_mul_is_commutative(power(elm_bound@, i as nat) as int, elm_bound@ as int);
        }
        packed = packed.quotient(elm_bound);
        i = i + 1;
    }
    Ok((out, packed))
}

/// The element that packs the given digits, lowest first.
pub open spec fn packed(ds: Seq<nat>, base: nat) -> nat
    decreases ds.len(),
{
    if ds.len() == 0 {
        0
    } else {
        ds[0] + base * packed(ds.skip(1), base)
    }
}

/// Unpacking undoes packing: the digits of the element that packs digits
/// below the base are those digits, and nothing is left above them.
pub proof fn lemma_unpack_packed(ds: Seq<nat>, base: nat)
    requires
        base > 0,
        forall|i: int| 0 <= i < ds.len() ==> ds[i] < base,
    ensures
        digits(packed(ds, base), base, ds.len()) == ds,
        above_digits(packed(ds, base), base, ds.len()) == 0,
    decreases ds.len(),
{
    let w = packed(ds, base);
    if ds.len() == 0 {
        assert(power(base, 0) == 1);
        assert(0nat / 1 == 0);
        assert(digits(w, base, 0) =~= ds);
    } else {
        let rest = ds.skip(1);
        let v = packed(rest, base);
        lemma_unpack_packed(rest, base);
        // the lowest digit comes off, and the rest stands one place higher
        assert(base * v == v * base) by (nonlinear_arith);
        lemma_fundamental_div_mod_converse(w as int, base as int, v as int, ds[0] as int);
        assert(power(base, 0) == 1);
        assert(w / 1 == w);
        assert forall|j: nat| #![trigger power(base, j + 1)] w / power(base, j + 1) == v / power(base, j) by {
            lemma_power_pos(base, j);
            lemma_div_denominator(w as int, base as int, power(base, j) as int);
        }
        assert(digits(w, base, ds.len()) =~= ds) by {
            assert forall|j: int| 0 <= j < ds.len() implies #[trigger] digits(w, base, ds.len())[j]
                == ds[j] by {
                if j > 0 {
                    assert(power(base, ((j - 1) as nat) + 1) == power(base, j as nat));
                    assert(digits(v, base, rest.len())[j - 1] == rest[j - 1]);
                }
            }
        }
        assert(power(base, ((ds.len() - 1) as nat) + 1) == power(base, ds.len()));
    }
}

/// The eight sizes that a header holds above its version.
pub open spec fn header_sizes(header: nat) -> Seq<nat> {
    Seq::new(8, |i: int| digit(header, pow2(20), (i + 1) as nat))
}

/// What a header says: its eight sizes, where nothing stands above the nine
/// fields and the version is zero.
pub open spec fn spec_header(header: nat) -> Result<Seq<nat>, DecompError> {
    if above_digits(header, pow2(20), 9) != 0 {
        Err(DecompError::HighHeaderBits)
    } else if digit(header, pow2(20), 0) != 0 {
        Err(DecompError::InvalidVersion)
    } else {
        Ok(header_sizes(header))
    }
}

/// The sizes as numbers.
pub open spec fn sizes_view(s: Seq<usize>) -> Seq<nat> {
    Seq::new(s.len(), |i: int| s[i] as nat)
}

/// Takes a header apart.
pub fn unpack_header(packed: Felt) -> (r: Result<Vec<usize>, DecompError>)
    ensures
        match r {
            Ok(sizes) => spec_header(packed@) == Ok::<Seq<nat>, DecompError>(sizes_view(sizes@))
                && sizes@.len() == 8 && forall|i: int| 0 <= i < 8 ==> sizes@[i] < 0x10_0000,
            Err(e) => spec_header(packed@) == Err::<Seq<nat>, DecompError>(e),
        },
{
    proof {
        lemma2_to64();
    }
    let elm_bound = Felt::from_u64(1).shift_left(HEADER_ELM_N_BITS);
    let ghost header = packed@;
    let (elements, rest) = match unpack_felt(packed, &elm_bound, 9) {
        Err(e) => {
            return Err(e);
        },
        Ok(parts) => parts,
    };
    if !rest.is_zero() {
        return Err(DecompError::HighHeaderBits);
    }
    assert(values(elements@)[0] == digit(header, pow2(20), 0));
    if !elements[0].is_zero() {
        return Err(DecompError::InvalidVersion);
    }
    let mut sizes: Vec<usize> = Vec::new();
    let mut i: usize = 1;
    while i < 9
        invariant
            1 <= i <= 9,
            elements@.len() == 9,
            values(elements@) == digits(header, pow2(20), 9),
            pow2(20) == 0x10_0000,
            sizes@.len() == i - 1,
            forall|j: int| 0 <= j < i - 1 ==> sizes@[j] == digit(header, pow2(20), (j + 1) as nat),
            forall|j: int| 0 <= j < i - 1 ==> sizes@[j] < 0x10_0000,
        decreases 9 - i,
    {
        assert(values(elements@)[i as int] == digit(header, pow2(20), i as nat));
        proof {
            lemma_mod_bound(
                (header / power(pow2(20), i as nat)) as int,
                pow2(20) as int,
            );
        }
        let size = elements[i].to_usize();
        sizes.push(size.unwrap());
        i = i + 1;
    }
    assert(sizes_view(sizes@) =~= header_sizes(header));
    Ok(sizes)
}

/// The number of binary digits of a number.
pub open spec fn bit_length(n: nat) -> nat
    decreases n,
{
    if n == 0 {
        0
    } else {
        1 + bit_length(n / 2)
    }
}

/// How many values below `elm_bound` one element packs.
pub open spec fn spec_n_elms_per_felt(elm_bound: nat) -> nat {
    if elm_bound < 2 {
        251
    } else {
        251nat / bit_length((elm_bound - 1) as nat)
    }
}

/// A number below two to the power of `k` has at most `k` binary digits.
pub proof fn lemma_bit_length_bound(n: nat, k: nat)
    requires
        n < pow2(k),
    ensures
        bit_length(n) <= k,
    decreases n,
{
    if n > 0 {
        if k == 0 {
            lemma2_to64();
        } else {
            lemma_pow2_unfold(k);
            lemma_bit_length_bound(n / 2, (k - 1) as nat);
        }
    }
}

/// An element packs at least one value and at most 251.
pub proof fn lemma_n_elms_per_felt_bounds(elm_bound: nat)
    requires
        elm_bound <= usize::MAX,
    ensures
        1 <= spec_n_elms_per_felt(elm_bound) <= 251,
{
    if elm_bound >= 2 {
        lemma2_to64();
        lemma2_to64_rest();
        lemma_bit_length_bound((elm_bound - 1) as nat, 64);
        let n = bit_length((elm_bound - 1) as nat) as int;
        assert(n >= 1);
        assert(1 <= 251int / n <= 251) by (nonlinear_arith)
            requires
                1 <= n <= 64,
        ;
    }
}

/// How many values below `elm_bound` one element packs: 251 bits shared out
/// among values of as many bits as the largest of them needs.
pub fn get_n_elms_per_felt(elm_bound: usize) -> (r: usize)
    ensures
        r == spec_n_elms_per_felt(elm_bound as nat),
        1 <= r <= 251,
{
    if elm_bound < 2 {
        return MAX_N_BITS_PER_FELT;
    }
    let prev = elm_bound - 1;
    let mut rest = prev;
    let mut n_bits_per_elm: usize = 0;
    proof {
        lemma2_to64();
        lemma2_to64_rest();
        lemma_bit_length_bound(prev as nat, 64);
    }
    while rest > 0
        invariant
            n_bits_per_elm + bit_length(rest as nat) == bit_length(prev as nat),
            bit_length(prev as nat) <= 64,
            rest < prev ==> n_bits_per_elm >= 1,
        decreases rest,
    {
        rest = rest / 2;
        n_bits_per_elm = n_bits_per_elm + 1;
    }
    proof {
        assert(bit_length(prev as nat) >= 1);
        let n = n_bits_per_elm as int;
        assert(1 <= 251int / n <= 251) by (nonlinear_arith)
            requires
                1 <= n <= 64,
        ;
    }
    MAX_N_BITS_PER_FELT / n_bits_per_elm
}

/// The sum of the first `k` lengths.
pub open spec fn prefix_sum(lengths: Seq<usize>, k: nat) -> nat
    decreases k,
{
    if k == 0 || k > lengths.len() {
        0
    } else {
        prefix_sum(lengths, (k - 1) as nat) + lengths[k - 1] as nat
    }
}

/// Where each bucket starts when the buckets follow one another.
pub fn get_bucket_offsets(bucket_lengths: &[usize]) -> (r: Vec<usize>)
    requires
        prefix_sum(bucket_lengths@, bucket_lengths@.len()) <= usize::MAX,
    ensures
        r@.len() == bucket_lengths@.len(),
        forall|b: int| 0 <= b < r@.len() ==> r@[b] == prefix_sum(bucket_lengths@, b as nat),
{
    let mut offsets: Vec<usize> = Vec::with_capacity(bucket_lengths.len());
    let mut current: usize = 0;
    let mut i: usize = 0;
    while i < bucket_lengths.len()
        invariant
            i <= bucket_lengths@.len(),
            offsets@.len() == i,
            current == prefix_sum(bucket_lengths@, i as nat),
            prefix_sum(bucket_lengths@, bucket_lengths@.len()) <= usize::MAX,
            forall|b: int| 0 <= b < i ==> offsets@[b] == prefix_sum(bucket_lengths@, b as nat),
        decreases bucket_lengths@.len() - i,
    {
        offsets.push(current);
        proof {
            lemma_prefix_sum_grows(bucket_lengths@, (i + 1) as nat, bucket_lengths@.len());
        }
        current = current + bucket_lengths[i];
        i = i + 1;
    }
    offsets
}

/// The sum of more lengths is no smaller.
pub proof fn lemma_prefix_sum_grows(lengths: Seq<usize>, k: nat, n: nat)
    requires
        k <= n <= lengths.len(),
    ensures
        prefix_sum(lengths, k) <= prefix_sum(lengths, n),
    decreases n,
{
    if k < n {
        lemma_prefix_sum_grows(lengths, k, (n - 1) as nat);
    }
}

/// How many elements pack `n_elms` values, `per_felt` to an element.
pub open spec fn felts_needed(n_elms: nat, per_felt: nat) -> nat {
    if per_felt == 0 {
        0
    } else {
        n_elms / per_felt + (if n_elms % per_felt > 0 {
            1nat
        } else {
            0nat
        })
    }
}

/// How many of `n_elms` values the element at position `f` of their section
/// packs: all but the last are full.
pub open spec fn values_in_felt(n_elms: nat, per_felt: nat, f: nat) -> nat {
    if per_felt == 0 {
        0
    } else if f < n_elms / per_felt {
        per_felt
    } else {
        n_elms % per_felt
    }
}

/// The values of a section that starts at `start`, in the order in which
/// they were packed.
pub open spec fn packed_values(
    input: Seq<nat>,
    start: nat,
    n_elms: nat,
    base: nat,
    per_felt: nat,
) -> Seq<nat> {
    Seq::new(
        n_elms,
        |j: int|
            if per_felt == 0 {
                0
            } else {
                digit(input[start + j / per_felt as int], base, (j % per_felt as int) as nat)
            },
    )
}

/// Whether the element at position `f` of a section has bits above its
/// values.
pub open spec fn has_high_bits(
    input: Seq<nat>,
    start: nat,
    n_elms: nat,
    base: nat,
    per_felt: nat,
    f: nat,
) -> bool {
    above_digits(input[(start + f) as int], base, values_in_felt(n_elms, per_felt, f)) != 0
}

/// The values of a section. The first element with bits above its values
/// makes it fail; so does the end of the input, where it comes first.
#[verifier::opaque]
pub open spec fn spec_section(
    input: Seq<nat>,
    start: nat,
    n_elms: nat,
    base: nat,
    per_felt: nat,
) -> Result<Seq<nat>, DecompError> {
    let needed = felts_needed(n_elms, per_felt);
    let present = if start + needed <= input.len() {
        needed
    } else {
        (input.len() - start) as nat
    };
    if exists|f: nat| f < present && has_high_bits(input, start, n_elms, base, per_felt, f) {
        Err(DecompError::HighBits)
    } else if present < needed {
        Err(DecompError::Exhausted)
    } else {
        Ok(packed_values(input, start, n_elms, base, per_felt))
    }
}

/// The largest bucket: `n` elements from `start` on, taken as they stand.
pub open spec fn spec_largest(input: Seq<nat>, start: nat, n: nat) -> Result<
    Seq<nat>,
    DecompError,
> {
    if start + n > input.len() {
        Err(
            DecompError::MissingLargeElement {
                index: (input.len() - start) as usize,
                of: n as usize,
            },
        )
    } else {
        Ok(input.subrange(start as int, (start + n) as int))
    }
}

/// The width in bits of the values of a bucket.
pub open spec fn bucket_bits(b: nat) -> nat {
    if b == 0 {
        252
    } else if b == 1 {
        125
    } else if b == 2 {
        83
    } else if b == 3 {
        62
    } else if b == 4 {
        31
    } else {
        15
    }
}

/// How many values of a bucket one element packs.
pub open spec fn bucket_pack_count(b: nat) -> nat {
    if b == 1 {
        2
    } else if b == 2 {
        3
    } else if b == 3 {
        4
    } else if b == 4 {
        8
    } else {
        16
    }
}

/// Values that were unpacked, and the position behind their elements.
pub struct Unpacked {
    pub values: Seq<nat>,
    pub pos: nat,
}

/// The values of the buckets 0 to `b`, which follow the header in that
/// order.
pub open spec fn spec_unique(input: Seq<nat>, sizes: Seq<nat>, b: nat) -> Result<
    Unpacked,
    DecompError,
>
    decreases b,
{
    if b == 0 {
        match spec_largest(input, 1, sizes[1]) {
            Err(e) => Err(e),
            Ok(values) => Ok(Unpacked { values, pos: 1 + sizes[1] }),
        }
    } else {
        match spec_unique(input, sizes, (b - 1) as nat) {
            Err(e) => Err(e),
            Ok(before) => match spec_section(
                input,
                before.pos,
                sizes[(b + 1) as int],
                pow2(bucket_bits(b)),
                bucket_pack_count(b),
            ) {
                Err(e) => Err(e),
                Ok(values) => Ok(
                    Unpacked {
                        values: before.values + values,
                        pos: before.pos + felts_needed(sizes[(b + 1) as int], bucket_pack_count(b)),
                    },
                ),
            },
        }
    }
}

/// The values that the pointers name.
pub open spec fn repeated(unique: Seq<nat>, pointers: Seq<nat>) -> Seq<nat> {
    Seq::new(pointers.len(), |i: int| unique[pointers[i] as int])
}

/// Where the buckets start among all values: each behind the one before.
pub open spec fn bucket_starts(sizes: Seq<nat>, b: nat) -> nat
    decreases b,
{
    if b == 0 {
        0
    } else {
        bucket_starts(sizes, (b - 1) as nat) + sizes[b as int]
    }
}

/// The next unread position of a bucket once `k` positions of the output
/// were filled.
pub open spec fn tracker(sizes: Seq<nat>, buckets: Seq<nat>, k: nat, b: nat) -> nat
    decreases k,
{
    if k == 0 {
        bucket_starts(sizes, b)
    } else {
        tracker(sizes, buckets, (k - 1) as nat, b) + (if buckets[k - 1] == b {
            1nat
        } else {
            0nat
        })
    }
}

/// The position among all values that fills position `j` of the output.
pub open spec fn source(sizes: Seq<nat>, buckets: Seq<nat>, j: nat) -> nat {
    tracker(sizes, buckets, j, buckets[j as int])
}

/// The output: each position filled from its bucket, in the order of the
/// bucket.
pub open spec fn reconstructed(all: Seq<nat>, sizes: Seq<nat>, buckets: Seq<nat>) -> Seq<nat> {
    Seq::new(buckets.len(), |j: int| all[source(sizes, buckets, j as nat) as int])
}

/// Whether some position of the output asks for a value that is not there.
pub open spec fn overruns(all: Seq<nat>, sizes: Seq<nat>, buckets: Seq<nat>) -> bool {
    exists|j: nat| j < buckets.len() && source(sizes, buckets, j) >= all.len()
}

/// Whether the input is zero from a position on.
pub open spec fn zero_from(input: Seq<nat>, from: nat) -> bool {
    forall|i: int| from <= i < input.len() ==> input[i] == 0
}

/// What a compressed sequence holds: the output and the number of zero
/// elements behind its payload.
pub open spec fn spec_decompress(input: Seq<nat>) -> Result<(Seq<nat>, nat), DecompError> {
    if input.len() == 0 {
        Err(DecompError::NothingToDecompress)
    } else {
        match spec_header(input[0]) {
            Err(e) => Err(e),
            Ok(sizes) => match spec_unique(input, sizes, 5) {
                Err(e) => Err(e),
                Ok(unique) => {
                    let n_unique = unique.values.len();
                    if sizes[0] != n_unique + sizes[7] {
                        Err(
                            DecompError::LengthMismatch {
                                uncompressed: sizes[0] as usize,
                                unique: n_unique as usize,
                                repeating: sizes[7] as usize,
                            },
                        )
                    } else if sizes[7] > 0 && n_unique == 0 {
                        Err(DecompError::NoUniqueValues)
                    } else {
                        let per_felt = spec_n_elms_per_felt(n_unique);
                        match spec_section(input, unique.pos, sizes[7], n_unique, per_felt) {
                            Err(e) => Err(e),
                            Ok(pointers) => {
                                let all = unique.values + repeated(unique.values, pointers);
                                let pos = unique.pos + felts_needed(sizes[7], per_felt);
                                match spec_section(input, pos, sizes[0], 7, 83) {
                                    Err(e) => Err(e),
                                    Ok(buckets) => {
                                        let end = pos + felts_needed(sizes[0], 83);
                                        if overruns(all, sizes, buckets) {
                                            Err(DecompError::BucketOverrun)
                                        } else if !zero_from(input, end) {
                                            Err(DecompError::ExtraTail)
                                        } else {
                                            Ok(
                                                (
                                                    reconstructed(all, sizes, buckets),
                                                    (input.len() - end) as nat,
                                                ),
                                            )
                                        }
                                    },
                                }
                            },
                        }
                    }
                },
            },
        }
    }
}

/// A sequence under decompression: the elements, how many of them were
/// read, and the sizes that the header gave.
pub struct Decompressor {
    pub current: Vec<Felt>,
    pub pos: usize,
    /// Eight sizes: that of the output, those of the buckets 0 to 5, and the
    /// number of repeated values.
    pub sizes: Vec<usize>,
}

impl Decompressor {
    /// The elements under decompression.
    pub open spec fn input(&self) -> Seq<nat> {
        values(self.current@)
    }

    /// The position lies within the elements, and there are eight sizes, each
    /// below two to the power of 20.
    pub open spec fn wf(&self) -> bool {
        &&& self.pos <= self.current@.len()
        &&& self.sizes@.len() == 8
        &&& forall|i: int| 0 <= i < 8 ==> self.sizes@[i] < 0x10_0000
    }

    fn next(&mut self) -> (r: Option<Felt>)
        requires
            old(self).pos <= old(self).current@.len(),
        ensures
            final(self).current == old(self).current,
            final(self).sizes == old(self).sizes,
            final(self).pos <= final(self).current@.len(),
            match r {
                Some(f) => old(self).pos < old(self).input().len() && f@ == old(self).input()[old(
                    self,
                ).pos as int] && final(self).pos == old(self).pos + 1,
                None => old(self).pos >= old(self).input().len() && final(self).pos == old(
                    self,
                ).pos,
            },
    {
        if self.pos < self.current.len() {
            let f = self.current[self.pos].clone();
            self.pos = self.pos + 1;
            Some(f)
        } else {
            None
        }
    }

    /// The bounds of the six unique buckets: two to the power of their
    /// width.
    fn make_bucket_bounds() -> (r: Vec<Felt>)
        ensures
            r@.len() == 6,
            forall|b: int| 0 <= b < 6 ==> r@[b]@ == pow2(bucket_bits(b as nat)),
    {
        let one = Felt::from_u64(1);
        let mut bounds: Vec<Felt> = Vec::new();
        bounds.push(one.shift_left(252));
        bounds.push(one.shift_left(125));
        bounds.push(one.shift_left(83));
        bounds.push(one.shift_left(62));
        bounds.push(one.shift_left(31));
        bounds.push(one.shift_left(15));
        bounds
    }

    /// Copies the largest bucket, which packs nothing.
    fn copy_largest_bucket(&mut self, decompressed_dst: &mut Vec<Felt>) -> (r: Result<
        (),
        DecompError,
    >)
        requires
            old(self).wf(),
        ensures
            final(self).wf(),
            final(self).current == old(self).current,
            final(self).sizes == old(self).sizes,
            match r {
                Ok(_) => {
                    &&& spec_largest(
                        old(self).input(),
                        old(self).pos as nat,
                        old(self).sizes@[1] as nat,
                    ) == Ok::<Seq<nat>, DecompError>(
                        old(self).input().subrange(
                            old(self).pos as int,
                            old(self).pos + old(self).sizes@[1],
                        ),
                    )
                    &&& final(self).pos == old(self).pos + old(self).sizes@[1]
                    &&& values(final(decompressed_dst)@) == values(old(decompressed_dst)@) + old(
                        self,
                    ).input().subrange(old(self).pos as int, old(self).pos + old(self).sizes@[1])
                },
                Err(e) => spec_largest(
                    old(self).input(),
                    old(self).pos as nat,
                    old(self).sizes@[1] as nat,
                ) == Err::<Seq<nat>, DecompError>(e),
            },
    {
        let n_elms = self.sizes[1];
        let ghost input = self.input();
        let ghost start = self.pos as int;
        let ghost dst0 = values(decompressed_dst@);
        let mut i: usize = 0;
        assert(dst0 + input.subrange(start, start) =~= dst0);
        while i < n_elms
            invariant
                self.wf(),
                self.current == old(self).current,
                self.sizes == old(self).sizes,
                input == old(self).input(),
                start == old(self).pos,
                n_elms == self.sizes@[1],
                dst0 == values(old(decompressed_dst)@),
                i <= n_elms,
                self.pos == start + i,
                values(decompressed_dst@) == dst0 + input.subrange(start, start + i),
            decreases n_elms - i,
        {
            let el = match self.next() {
                None => {
                    return Err(DecompError::MissingLargeElement { index: i, of: n_elms });
                },
                Some(el) => el,
            };
            let ghost before = values(decompressed_dst@);
            decompressed_dst.push(el);
            assert(values(decompressed_dst@) =~= before.push(el@));
            assert(values(decompressed_dst@) =~= dst0 + input.subrange(start, start + i + 1));
            i = i + 1;
        }
        Ok(())
    }

    /// Reads the six unique buckets.
    fn unpack_unique_values(&mut self, decompressed_dst: &mut Vec<Felt>) -> (r: Result<
        (),
        DecompError,
    >)
        requires
            old(self).wf(),
            old(self).pos == 1,
            old(decompressed_dst)@.len() == 0,
        ensures
            final(self).wf(),
            final(self).current == old(self).current,
            final(self).sizes == old(self).sizes,
            match r {
                Ok(_) => spec_unique(old(self).input(), sizes_view(old(self).sizes@), 5) == Ok::<
                    Unpacked,
                    DecompError,
                >(
                    Unpacked {
                        values: values(final(decompressed_dst)@),
                        pos: final(self).pos as nat,
                    },
                ),
                Err(e) => spec_unique(old(self).input(), sizes_view(old(self).sizes@), 5) == Err::<
                    Unpacked,
                    DecompError,
                >(e),
            },
    {
        let bucket_bounds = Self::make_bucket_bounds();
        let pack_counts: [usize; 5] = [2, 3, 4, 8, 16];
        let ghost input = self.input();
        let ghost sizes = sizes_view(self.sizes@);
        assert(values(decompressed_dst@) =~= Seq::empty());
        match self.copy_largest_bucket(decompressed_dst) {
            Err(e) => {
                proof {
                    lemma_unique_stick(input, sizes, 0, 5);
                }
                return Err(e);
            },
            Ok(()) => {},
        }
        assert(values(decompressed_dst@) =~= input.subrange(1, (1 + sizes[1]) as int));
        let mut i: usize = 0;
        while i < 5
            invariant
                self.wf(),
                self.current == old(self).current,
                self.sizes == old(self).sizes,
                input == old(self).input(),
                sizes == sizes_view(old(self).sizes@),
                i <= 5,
                bucket_bounds@.len() == 6,
                forall|b: int| 0 <= b < 6 ==> bucket_bounds@[b]@ == pow2(bucket_bits(b as nat)),
                pack_counts@ =~= seq![2usize, 3, 4, 8, 16],
                spec_unique(input, sizes, i as nat) == Ok::<Unpacked, DecompError>(
                    Unpacked { values: values(decompressed_dst@), pos: self.pos as nat },
                ),
            decreases 5 - i,
        {
            proof {
                lemma_pow2_pos(bucket_bits((i + 1) as nat));
                assert(pack_counts@[i as int] == bucket_pack_count((i + 1) as nat));
                assert(sizes[(i + 2) as int] == self.sizes@[(i + 2) as int]);
            }
            match self.unpack_felts(
                self.sizes[i + 2],
                &bucket_bounds[i + 1],
                pack_counts[i],
                decompressed_dst,
            ) {
                Err(e) => {
                    proof {
                        lemma_unique_stick(input, sizes, (i + 1) as nat, 5);
                    }
                    return Err(e);
                },
                Ok(()) => {},
            }
            i = i + 1;
        }
        Ok(())
    }

    /// Reads the pointers to the repeated values.
    fn unpack_repeating_value_pointers(&mut self, n_unique_values: usize) -> (r: Result<
        Vec<Felt>,
        DecompError,
    >)
        requires
            old(self).wf(),
            n_unique_values > 0,
        ensures
            final(self).wf(),
            final(self).current == old(self).current,
            final(self).sizes == old(self).sizes,
            match r {
                Ok(pointers) => {
                    &&& spec_section(
                        old(self).input(),
                        old(self).pos as nat,
                        old(self).sizes@[7] as nat,
                        n_unique_values as nat,
                        spec_n_elms_per_felt(n_unique_values as nat),
                    ) == Ok::<Seq<nat>, DecompError>(values(pointers@))
                    &&& values(pointers@) == packed_values(
                        old(self).input(),
                        old(self).pos as nat,
                        old(self).sizes@[7] as nat,
                        n_unique_values as nat,
                        spec_n_elms_per_felt(n_unique_values as nat),
                    )
                    &&& final(self).pos == old(self).pos + felts_needed(
                        old(self).sizes@[7] as nat,
                        spec_n_elms_per_felt(n_unique_values as nat),
                    )
                },
                Err(e) => spec_section(
                    old(self).input(),
                    old(self).pos as nat,
                    old(self).sizes@[7] as nat,
                    n_unique_values as nat,
                    spec_n_elms_per_felt(n_unique_values as nat),
                ) == Err::<Seq<nat>, DecompError>(e),
            },
    {
        let n_repeating_values = self.sizes[7];
        let pointer_bound = Felt::from_u64(n_unique_values as u64);
        let n_elms_per_felt = get_n_elms_per_felt(n_unique_values);
        let mut pointers: Vec<Felt> = Vec::new();
        assert(values(pointers@) =~= Seq::empty());
        match self.unpack_felts(
            n_repeating_values,
            &pointer_bound,
            n_elms_per_felt,
            &mut pointers,
        ) {
            Err(e) => {
                return Err(e);
            },
            Ok(()) => {},
        }
        assert(Seq::<nat>::empty() + values(pointers@) =~= values(pointers@));
        Ok(pointers)
    }

    /// Reads the bucket of every position of the output.
    fn unpack_bucket_index_per_elm(&mut self) -> (r: Result<Vec<Felt>, DecompError>)
        requires
            old(self).wf(),
        ensures
            final(self).wf(),
            final(self).current == old(self).current,
            final(self).sizes == old(self).sizes,
            match r {
                Ok(buckets) => {
                    &&& spec_section(
                        old(self).input(),
                        old(self).pos as nat,
                        old(self).sizes@[0] as nat,
                        7,
                        83,
                    ) == Ok::<Seq<nat>, DecompError>(values(buckets@))
                    &&& values(buckets@) == packed_values(
                        old(self).input(),
                        old(self).pos as nat,
                        old(self).sizes@[0] as nat,
                        7,
                        83,
                    )
                    &&& final(self).pos == old(self).pos + felts_needed(
                        old(self).sizes@[0] as nat,
                        83,
                    )
                },
                Err(e) => spec_section(
                    old(self).input(),
                    old(self).pos as nat,
                    old(self).sizes@[0] as nat,
                    7,
                    83,
                ) == Err::<Seq<nat>, DecompError>(e),
            },
    {
        let total_n_buckets = Felt::from_u64(TOTAL_N_BUCKETS as u64);
        let n_elms_per_felt: usize = 83;
        let mut bucket_index_per_elm: Vec<Felt> = Vec::new();
        assert(values(bucket_index_per_elm@) =~= Seq::empty());
        match self.unpack_felts(
            self.sizes[0],
            &total_n_buckets,
            n_elms_per_felt,
            &mut bucket_index_per_elm,
        ) {
            Err(e) => {
                return Err(e);
            },
            Ok(()) => {},
        }
        assert(Seq::<nat>::empty() + values(bucket_index_per_elm@) =~= values(
            bucket_index_per_elm@,
        ));
        Ok(bucket_index_per_elm)
    }

    /// Reads the rest of the input, which has to be zero, and counts it.
    pub fn check_zero_tail(&mut self) -> (r: Result<usize, DecompError>)
        requires
            old(self).pos <= old(self).current@.len(),
        ensures
            final(self).current == old(self).current,
            final(self).sizes == old(self).sizes,
            final(self).pos <= final(self).current@.len(),
            match r {
                Ok(n) => zero_from(old(self).input(), old(self).pos as nat) && n == old(
                    self,
                ).input().len() - old(self).pos && final(self).pos == final(self).current@.len(),
                Err(e) => !zero_from(old(self).input(), old(self).pos as nat) && e
                    == DecompError::ExtraTail,
            },
    {
        let ghost input = self.input();
        let ghost start = self.pos as int;
        let mut n: usize = 0;
        loop
            invariant
                self.current == old(self).current,
                self.sizes == old(self).sizes,
                input == old(self).input(),
                start == old(self).pos,
                self.pos <= self.current@.len(),
                self.pos == start + n,
                forall|i: int| start <= i < self.pos ==> input[i] == 0,
            decreases self.current@.len() - self.pos,
        {
            let el = match self.next() {
                None => {
                    return Ok(n);
                },
                Some(el) => el,
            };
            n = n + 1;
            if !el.is_zero() {
                assert(input[self.pos - 1] != 0);
                return Err(DecompError::ExtraTail);
            }
        }
    }

    /// Fills the output: each position from its bucket, in the order of the
    /// bucket.
    fn reconstruct_data(&self, all_values: &Vec<Felt>, bucket_index_per_elm: &Vec<Felt>) -> (r:
        Result<Vec<Felt>, DecompError>)
        requires
            self.wf(),
            forall|j: int|
                0 <= j < bucket_index_per_elm@.len() ==> (#[trigger] bucket_index_per_elm@[j])@ < 7,
        ensures
            match r {
                Ok(data) => !overruns(
                    values(all_values@),
                    sizes_view(self.sizes@),
                    values(bucket_index_per_elm@),
                ) && values(data@) == reconstructed(
                    values(all_values@),
                    sizes_view(self.sizes@),
                    values(bucket_index_per_elm@),
                ),
                Err(e) => overruns(
                    values(all_values@),
                    sizes_view(self.sizes@),
                    values(bucket_index_per_elm@),
                ) && e == DecompError::BucketOverrun,
            },
    {
        let ghost all = values(all_values@);
        let ghost sizes = sizes_view(self.sizes@);
        let ghost buckets = values(bucket_index_per_elm@);
        let mut lengths: Vec<usize> = Vec::new();
        let mut b: usize = 1;
        while b < 8
            invariant
                self.wf(),
                1 <= b <= 8,
                lengths@.len() == b - 1,
                forall|i: int| 0 <= i < b - 1 ==> lengths@[i] == self.sizes@[i + 1],
            decreases 8 - b,
        {
            lengths.push(self.sizes[b]);
            b = b + 1;
        }
        proof {
            lemma_bucket_starts(self.sizes@, lengths@, 7);
        }
        let mut offset_trackers = get_bucket_offsets(lengths.as_slice());
        proof {
            assert forall|b: nat| b < 7 implies offset_trackers@[b as int] == tracker(
                sizes,
                buckets,
                0,
                b,
            ) by {
                lemma_bucket_starts(self.sizes@, lengths@, b);
            }
        }
        let mut data: Vec<Felt> = Vec::new();
        let mut j: usize = 0;
        assert(values(data@) =~= reconstructed(all, sizes, buckets).take(0));
        while j < bucket_index_per_elm.len()
            invariant
                all == values(all_values@),
                sizes == sizes_view(self.sizes@),
                buckets == values(bucket_index_per_elm@),
                forall|j: int|
                    0 <= j < bucket_index_per_elm@.len() ==> (#[trigger] bucket_index_per_elm@[j])@
                        < 7,
                j <= bucket_index_per_elm@.len(),
                offset_trackers@.len() == 7,
                forall|b: nat|
                    b < 7 ==> offset_trackers@[b as int] == #[trigger] tracker(
                        sizes,
                        buckets,
                        j as nat,
                        b,
                    ),
                forall|k: nat| k < j ==> #[trigger] source(sizes, buckets, k) < all.len(),
                values(data@) == reconstructed(all, sizes, buckets).take(j as int),
            decreases bucket_index_per_elm@.len() - j,
        {
            assert(bucket_index_per_elm@[j as int]@ < 7);
            assert(buckets[j as int] == bucket_index_per_elm@[j as int]@);
            let idx = bucket_index_per_elm[j].to_usize().unwrap();
            let offset = offset_trackers[idx];
            assert(offset == tracker(sizes, buckets, j as nat, idx as nat));
            assert(offset == source(sizes, buckets, j as nat));
            if offset >= all_values.len() {
                return Err(DecompError::BucketOverrun);
            }
            let ghost before = values(data@);
            data.push(all_values[offset].clone());
            offset_trackers.set(idx, offset + 1);
            proof {
                assert(values(data@) =~= before.push(all[offset as int]));
                assert(values(data@) =~= reconstructed(all, sizes, buckets).take(j + 1));
                assert forall|b: nat| b < 7 implies offset_trackers@[b as int]
                    == #[trigger] tracker(sizes, buckets, (j + 1) as nat, b) by {
                    assert(offset_trackers@[b as int] == tracker(sizes, buckets, j as nat, b) + (
                    if buckets[j as int] == b {
                        1nat
                    } else {
                        0nat
                    }));
                }
            }
            j = j + 1;
        }
        assert(reconstructed(all, sizes, buckets).take(j as int) =~= reconstructed(
            all,
            sizes,
            buckets,
        ));
        Ok(data)
    }

    /// Decompresses a sequence into the flat sequence that the parser
    /// reads, and counts the zero elements behind the payload.
    pub fn decompress(iter: Vec<Felt>) -> (r: Result<(Vec<Felt>, usize), DecompError>)
        ensures
            match r {
                Ok((data, n)) => spec_decompress(values(iter@)) == Ok::<
                    (Seq<nat>, nat),
                    DecompError,
                >((values(data@), n as nat)),
                Err(e) => spec_decompress(values(iter@)) == Err::<(Seq<nat>, nat), DecompError>(e),
            },
            r is Ok ==> r->Ok_0.1 <= iter@.len() && zero_from(
                values(iter@),
                (iter@.len() - r->Ok_0.1) as nat,
            ),
    {
        let ghost input = values(iter@);
        if iter.len() == 0 {
            return Err(DecompError::NothingToDecompress);
        }
        let header = iter[0].clone();
        let sizes = match unpack_header(header) {
            Err(e) => {
                return Err(e);
            },
            Ok(sizes) => sizes,
        };
        let mut decompressor = Decompressor { current: iter, pos: 1, sizes };
        let ghost sizes = sizes_view(decompressor.sizes@);
        let mut all_values: Vec<Felt> = Vec::new();
        match decompressor.unpack_unique_values(&mut all_values) {
            Err(e) => {
                return Err(e);
            },
            Ok(()) => {},
        }
        let ghost unique = values(all_values@);
        let ghost unique_end = decompressor.pos as nat;
        proof {
            lemma_unique_len(input, sizes, 5);
        }
        let n_unique_values = all_values.len();
        let uncompressed_len = decompressor.sizes[0];
        let n_repeating_values = decompressor.sizes[7];
        if uncompressed_len != n_unique_values + n_repeating_values {
            return Err(
                DecompError::LengthMismatch {
                    uncompressed: uncompressed_len,
                    unique: n_unique_values,
                    repeating: n_repeating_values,
                },
            );
        }
        if n_unique_values == 0 {
            if n_repeating_values > 0 {
                return Err(DecompError::NoUniqueValues);
            }
            proof {
                lemma_section_sound(input, unique_end, 0, 0, spec_n_elms_per_felt(0));
            }
        } else {
            let pointers = match decompressor.unpack_repeating_value_pointers(n_unique_values) {
                Err(e) => {
                    return Err(e);
                },
                Ok(pointers) => pointers,
            };
            proof {
                lemma_n_elms_per_felt_bounds(n_unique_values as nat);
                assert(values(pointers@).len() == pointers@.len());
                assert(packed_values(
                    input,
                    unique_end,
                    n_repeating_values as nat,
                    n_unique_values as nat,
                    spec_n_elms_per_felt(n_unique_values as nat),
                ).len() == n_repeating_values);
                assert(pointers@.len() == n_repeating_values);
                assert forall|i: int| 0 <= i < pointers@.len() implies (#[trigger] values(
                    pointers@,
                )[i]) < n_unique_values by {
                    lemma_packed_value_bound(
                        input,
                        unique_end,
                        n_repeating_values as nat,
                        n_unique_values as nat,
                        spec_n_elms_per_felt(n_unique_values as nat),
                        i,
                    );
                }
            }
            extend_with_repeats(&mut all_values, &pointers);
        }
        let ghost pointers = packed_values(
            input,
            unique_end,
            n_repeating_values as nat,
            n_unique_values as nat,
            spec_n_elms_per_felt(n_unique_values as nat),
        );
        assert(values(all_values@) =~= unique + repeated(unique, pointers));
        let ghost pos = decompressor.pos as nat;
        let bucket_index_per_elm = match decompressor.unpack_bucket_index_per_elm() {
            Err(e) => {
                return Err(e);
            },
            Ok(bucket_index_per_elm) => bucket_index_per_elm,
        };
        proof {
            assert(values(bucket_index_per_elm@).len() == bucket_index_per_elm@.len());
            assert(packed_values(input, pos, uncompressed_len as nat, 7, 83).len()
                == uncompressed_len);
            assert(bucket_index_per_elm@.len() == uncompressed_len);
            assert forall|j: int| 0 <= j < bucket_index_per_elm@.len() implies (
            #[trigger] bucket_index_per_elm@[j])@ < 7 by {
                assert(values(bucket_index_per_elm@)[j] == bucket_index_per_elm@[j]@);
                lemma_packed_value_bound(input, pos, uncompressed_len as nat, 7, 83, j);
            }
        }
        let data = match decompressor.reconstruct_data(&all_values, &bucket_index_per_elm) {
            Err(e) => {
                return Err(e);
            },
            Ok(data) => data,
        };
        let n = match decompressor.check_zero_tail() {
            Err(e) => {
                return Err(e);
            },
            Ok(n) => n,
        };
        Ok((data, n))
    }

    /// Reads one element and appends the `n_elms_per_felt` values that it
    /// packs.
    fn unpack_felts_given_n_packed_felts(
        &mut self,
        elm_bound: &Felt,
        n_elms_per_felt: usize,
        decompressed_dst: &mut Vec<Felt>,
    ) -> (r: Result<(), DecompError>)
        requires
            old(self).pos <= old(self).current@.len(),
            elm_bound@ != 0,
            n_elms_per_felt > 0,
        ensures
            final(self).current == old(self).current,
            final(self).sizes == old(self).sizes,
            final(self).pos <= final(self).current@.len(),
            match r {
                Ok(_) => {
                    &&& old(self).pos < old(self).input().len()
                    &&& final(self).pos == old(self).pos + 1
                    &&& above_digits(
                        old(self).input()[old(self).pos as int],
                        elm_bound@,
                        n_elms_per_felt as nat,
                    ) == 0
                    &&& values(final(decompressed_dst)@) == values(old(decompressed_dst)@) + digits(
                        old(self).input()[old(self).pos as int],
                        elm_bound@,
                        n_elms_per_felt as nat,
                    )
                },
                Err(e) => {
                    &&& final(decompressed_dst)@ == old(decompressed_dst)@
                    &&& final(self).pos >= old(self).pos
                    &&& if old(self).pos >= old(self).input().len() {
                        e == DecompError::Exhausted
                    } else {
                        e == DecompError::HighBits && above_digits(
                            old(self).input()[old(self).pos as int],
                            elm_bound@,
                            n_elms_per_felt as nat,
                        ) != 0
                    }
                },
            },
    {
        let felt = match self.next() {
            None => {
                return Err(DecompError::Exhausted);
            },
            Some(felt) => felt,
        };
        let (mut elements, rest) = match unpack_felt(felt, elm_bound, n_elms_per_felt) {
            Err(e) => {
                return Err(e);
            },
            Ok(parts) => parts,
        };
        if !rest.is_zero() {
            return Err(DecompError::HighBits);
        }
        let ghost before = values(decompressed_dst@);
        let ghost added = values(elements@);
        decompressed_dst.append(&mut elements);
        assert(values(decompressed_dst@) =~= before + added);
        Ok(())
    }

    /// Reads the elements that pack `n_elms` values and appends the values.
    pub fn unpack_felts(
        &mut self,
        n_elms: usize,
        elm_bound: &Felt,
        n_elms_per_felt: usize,
        decompressed_dst: &mut Vec<Felt>,
    ) -> (r: Result<(), DecompError>)
        requires
            old(self).pos <= old(self).current@.len(),
            elm_bound@ != 0,
            n_elms_per_felt > 0,
        ensures
            final(self).current == old(self).current,
            final(self).sizes == old(self).sizes,
            final(self).pos <= final(self).current@.len(),
            match r {
                Ok(_) => {
                    &&& spec_section(
                        old(self).input(),
                        old(self).pos as nat,
                        n_elms as nat,
                        elm_bound@,
                        n_elms_per_felt as nat,
                    ) == Ok::<Seq<nat>, DecompError>(
                        packed_values(
                            old(self).input(),
                            old(self).pos as nat,
                            n_elms as nat,
                            elm_bound@,
                            n_elms_per_felt as nat,
                        ),
                    )
                    &&& final(self).pos == old(self).pos + felts_needed(
                        n_elms as nat,
                        n_elms_per_felt as nat,
                    )
                    &&& values(final(decompressed_dst)@) == values(old(decompressed_dst)@)
                        + packed_values(
                        old(self).input(),
                        old(self).pos as nat,
                        n_elms as nat,
                        elm_bound@,
                        n_elms_per_felt as nat,
                    )
                },
                Err(e) => spec_section(
                    old(self).input(),
                    old(self).pos as nat,
                    n_elms as nat,
                    elm_bound@,
                    n_elms_per_felt as nat,
                ) == Err::<Seq<nat>, DecompError>(e),
            },
            final(self).pos >= old(self).pos,
            final(decompressed_dst)@.len() >= old(decompressed_dst)@.len(),
            values(final(decompressed_dst)@).take(old(decompressed_dst)@.len() as int) == values(
                old(decompressed_dst)@,
            ),
    {
        let ghost input = self.input();
        let ghost start = self.pos as nat;
        let ghost dst0 = values(decompressed_dst@);
        let ghost n = n_elms as nat;
        let ghost per = n_elms_per_felt as nat;
        let ghost base = elm_bound@;
        let ghost all = packed_values(input, start, n, base, per);
        let n_full_felts = n_elms / n_elms_per_felt;
        let n_remaining_elms = n_elms % n_elms_per_felt;
        proof {
            lemma_fundamental_div_mod(n_elms as int, n_elms_per_felt as int);
            lemma_mul_is_commutative(n_elms_per_felt as int, n_full_felts as int);
        }
        let mut f: usize = 0;
        assert(dst0 + all.take(0) =~= dst0);
        while f < n_full_felts
            invariant
                f <= n_full_felts,
                n_elms_per_felt > 0,
                elm_bound@ != 0,
                base == elm_bound@,
                n == n_elms,
                per == n_elms_per_felt,
                n_full_felts == n / per,
                n_remaining_elms == n % per,
                n == per * n_full_felts + n_remaining_elms,
                input == old(self).input(),
                start == old(self).pos,
                dst0 == values(old(decompressed_dst)@),
                all == packed_values(input, start, n, base, per),
                self.current == old(self).current,
                self.sizes == old(self).sizes,
                self.pos == start + f,
                self.pos <= self.current@.len(),
                dst0.len() == old(decompressed_dst)@.len(),
                values(decompressed_dst@) == dst0 + all.take(f * per),
                forall|g: nat| g < f ==> !has_high_bits(input, start, n, base, per, g),
            decreases n_full_felts - f,
        {
            proof {
                lemma_section_step(input, start, n, base, per, f as nat);
            }
            match self.unpack_felts_given_n_packed_felts(
                elm_bound,
                n_elms_per_felt,
                decompressed_dst,
            ) {
                Err(e) => {
                    proof {
                        if start + f < input.len() {
                            lemma_section_high_bits(input, start, n, base, per, f as nat);
                        } else {
                            lemma_section_exhausted(input, start, n, base, per, f as nat);
                        }
                        assert(values(decompressed_dst@).take(dst0.len() as int) =~= dst0);
                        assert(values(decompressed_dst@).len() == decompressed_dst@.len());
                    }
                    return Err(e);
                },
                Ok(()) => {},
            }
            proof {
                assert(values(decompressed_dst@) =~= dst0 + all.take((f + 1) * per));
            }
            f = f + 1;
        }
        if n_remaining_elms > 0 {
            proof {
                lemma_section_step(input, start, n, base, per, f as nat);
            }
            match self.unpack_felts_given_n_packed_felts(
                elm_bound,
                n_remaining_elms,
                decompressed_dst,
            ) {
                Err(e) => {
                    proof {
                        if start + f < input.len() {
                            lemma_section_high_bits(input, start, n, base, per, f as nat);
                        } else {
                            lemma_section_exhausted(input, start, n, base, per, f as nat);
                        }
                        assert(values(decompressed_dst@).take(dst0.len() as int) =~= dst0);
                        assert(values(decompressed_dst@).len() == decompressed_dst@.len());
                    }
                    return Err(e);
                },
                Ok(()) => {},
            }
            proof {
                assert(all.take(n as int) =~= all);
                assert(values(decompressed_dst@) =~= dst0 + all);
            }
        } else {
            proof {
                assert(f * per == n) by (nonlinear_arith)
                    requires
                        n == per * f,
                ;
                assert(all.take(n as int) =~= all);
            }
        }
        proof {
            lemma_section_sound(input, start, n, base, per);
        }
        assert(values(decompressed_dst@).take(dst0.len() as int) =~= dst0);
        assert(values(decompressed_dst@).len() == decompressed_dst@.len());
        Ok(())
    }
}

/// Appends to the unique values those that the pointers name.
pub fn extend_with_repeats(src_and_dst: &mut Vec<Felt>, indices: &Vec<Felt>)
    requires
        forall|i: int|
            0 <= i < indices@.len() ==> (#[trigger] values(indices@)[i]) < old(src_and_dst)@.len(),
    ensures
        values(final(src_and_dst)@) == values(old(src_and_dst)@) + repeated(
            values(old(src_and_dst)@),
            values(indices@),
        ),
{
    let ghost unique = values(src_and_dst@);
    let n_unique = src_and_dst.len();
    let mut i: usize = 0;
    assert(unique + repeated(unique, values(indices@)).take(0) =~= unique);
    while i < indices.len()
        invariant
            i <= indices@.len(),
            unique == values(old(src_and_dst)@),
            unique.len() == n_unique,
            forall|i: int| 0 <= i < indices@.len() ==> (#[trigger] values(indices@)[i]) < unique.len(),
            src_and_dst@.len() == unique.len() + i,
            values(src_and_dst@) == unique + repeated(unique, values(indices@)).take(i as int),
        decreases indices@.len() - i,
    {
        assert(values(indices@)[i as int] == indices@[i as int]@);
        let idx = indices[i].to_usize().unwrap();
        let ghost before = values(src_and_dst@);
        let value = src_and_dst[idx].clone();
        assert(value@ == before[idx as int]);
        assert(before[idx as int] == unique[idx as int]);
        assert(repeated(unique, values(indices@))[i as int] == unique[idx as int]);
        src_and_dst.push(value);
        assert(values(src_and_dst@) =~= before.push(value@));
        assert(values(src_and_dst@) =~= unique + repeated(unique, values(indices@)).take(i + 1));
        i = i + 1;
    }
    assert(repeated(unique, values(indices@)).take(i as int) =~= repeated(
        unique,
        values(indices@),
    ));
}

/// The starts of the buckets are the sums of the lengths before them.
pub proof fn lemma_bucket_starts(sizes: Seq<usize>, lengths: Seq<usize>, b: nat)
    requires
        sizes.len() == 8,
        lengths.len() == 7,
        b <= 7,
        forall|i: int| 0 <= i < 7 ==> lengths[i] == sizes[i + 1],
        forall|i: int| 0 <= i < 8 ==> sizes[i] < 0x10_0000,
    ensures
        prefix_sum(lengths, b) == bucket_starts(sizes_view(sizes), b),
        prefix_sum(lengths, b) <= b * 0x10_0000,
    decreases b,
{
    if b > 0 {
        lemma_bucket_starts(sizes, lengths, (b - 1) as nat);
    }
}

/// The unique values are as many as the sizes of their buckets say.
pub proof fn lemma_unique_len(input: Seq<nat>, sizes: Seq<nat>, b: nat)
    requires
        spec_unique(input, sizes, b) is Ok,
    ensures
        spec_unique(input, sizes, b)->Ok_0.values.len() == bucket_starts(sizes, b + 1),
        (forall|i: int| 0 <= i < 8 ==> sizes[i] < 0x10_0000) && b < 7 ==> bucket_starts(
            sizes,
            b + 1,
        ) <= (b + 1) * 0x10_0000,
    decreases b,
{
    if b > 0 {
        lemma_unique_len(input, sizes, (b - 1) as nat);
        let before = spec_unique(input, sizes, (b - 1) as nat)->Ok_0;
        lemma_section_values(
            input,
            before.pos,
            sizes[(b + 1) as int],
            pow2(bucket_bits(b)),
            bucket_pack_count(b),
        );
    } else {
        assert(bucket_starts(sizes, 1) == bucket_starts(sizes, 0) + sizes[1]);
    }
}

/// A value of a section lies below the base of its digits.
pub proof fn lemma_packed_value_bound(
    input: Seq<nat>,
    start: nat,
    n_elms: nat,
    base: nat,
    per_felt: nat,
    j: int,
)
    requires
        0 <= j < n_elms,
        base > 0,
        per_felt > 0,
    ensures
        packed_values(input, start, n_elms, base, per_felt)[j] < base,
{
    let w = input[start + j / per_felt as int];
    let e = (j % per_felt as int) as nat;
    lemma_mod_bound((w / power(base, e)) as int, base as int);
}

/// Once a bucket fails, the buckets behind it fail the same way.
pub proof fn lemma_unique_stick(input: Seq<nat>, sizes: Seq<nat>, k: nat, b: nat)
    requires
        k <= b,
        spec_unique(input, sizes, k) is Err,
    ensures
        spec_unique(input, sizes, b) == spec_unique(input, sizes, k),
    decreases b,
{
    if k < b {
        lemma_unique_stick(input, sizes, k, (b - 1) as nat);
    }
}

/// A section with an element that has bits above its values fails on
/// them.
pub proof fn lemma_section_high_bits(
    input: Seq<nat>,
    start: nat,
    n_elms: nat,
    base: nat,
    per_felt: nat,
    f: nat,
)
    requires
        f < felts_needed(n_elms, per_felt),
        start + f < input.len(),
        has_high_bits(input, start, n_elms, base, per_felt, f),
    ensures
        spec_section(input, start, n_elms, base, per_felt) == Err::<Seq<nat>, DecompError>(
            DecompError::HighBits,
        ),
{
    reveal(spec_section);
}

/// A section whose elements are sound as far as the input goes, but which
/// the input ends in, fails on its end.
pub proof fn lemma_section_exhausted(
    input: Seq<nat>,
    start: nat,
    n_elms: nat,
    base: nat,
    per_felt: nat,
    f: nat,
)
    requires
        f < felts_needed(n_elms, per_felt),
        start + f == input.len(),
        forall|g: nat| g < f ==> !has_high_bits(input, start, n_elms, base, per_felt, g),
    ensures
        spec_section(input, start, n_elms, base, per_felt) == Err::<Seq<nat>, DecompError>(
            DecompError::Exhausted,
        ),
{
    reveal(spec_section);
}

/// The values of a section that does not fail are those that its elements
/// pack.
pub proof fn lemma_section_values(
    input: Seq<nat>,
    start: nat,
    n_elms: nat,
    base: nat,
    per_felt: nat,
)
    ensures
        spec_section(input, start, n_elms, base, per_felt) is Ok ==> spec_section(
            input,
            start,
            n_elms,
            base,
            per_felt,
        ) == Ok::<Seq<nat>, DecompError>(packed_values(input, start, n_elms, base, per_felt)),
{
    reveal(spec_section);
}

/// A section whose elements are all there and sound gives its values.
pub proof fn lemma_section_sound(
    input: Seq<nat>,
    start: nat,
    n_elms: nat,
    base: nat,
    per_felt: nat,
)
    requires
        start + felts_needed(n_elms, per_felt) <= input.len(),
        forall|g: nat|
            g < felts_needed(n_elms, per_felt) ==> !has_high_bits(
                input,
                start,
                n_elms,
                base,
                per_felt,
                g,
            ),
    ensures
        spec_section(input, start, n_elms, base, per_felt) == Ok::<Seq<nat>, DecompError>(
            packed_values(input, start, n_elms, base, per_felt),
        ),
{
    reveal(spec_section);
}

/// The element at position `f` of a section packs the values from
/// `f * per_felt` on.
pub proof fn lemma_section_step(
    input: Seq<nat>,
    start: nat,
    n_elms: nat,
    base: nat,
    per_felt: nat,
    f: nat,
)
    requires
        per_felt > 0,
        f < felts_needed(n_elms, per_felt),
    ensures
        f * per_felt + values_in_felt(n_elms, per_felt, f) <= n_elms,
        0 < values_in_felt(n_elms, per_felt, f) <= per_felt,
        f < n_elms / per_felt ==> (f + 1) * per_felt == f * per_felt + per_felt,
        f >= n_elms / per_felt ==> f * per_felt + values_in_felt(n_elms, per_felt, f) == n_elms,
        packed_values(input, start, n_elms, base, per_felt).subrange(
            (f * per_felt) as int,
            (f * per_felt + values_in_felt(n_elms, per_felt, f)) as int,
        ) == digits(input[(start + f) as int], base, values_in_felt(n_elms, per_felt, f)),
{
    let q = n_elms / per_felt;
    let c = values_in_felt(n_elms, per_felt, f);
    lemma_fundamental_div_mod(n_elms as int, per_felt as int);
    lemma_mod_bound(n_elms as int, per_felt as int);
    assert(f <= q);
    assert(f * per_felt <= q * per_felt) by (nonlinear_arith)
        requires
            f <= q,
    ;
    assert(per_felt * q == q * per_felt) by (nonlinear_arith);
    assert((f + 1) * per_felt == f * per_felt + per_felt) by (nonlinear_arith);
    if f < q {
        assert((f + 1) * per_felt <= q * per_felt) by (nonlinear_arith)
            requires
                f + 1 <= q,
        ;
    }
    let lo = (f * per_felt) as int;
    let all = packed_values(input, start, n_elms, base, per_felt);
    let part = all.subrange(lo, lo + c);
    let want = digits(input[(start + f) as int], base, c);
    assert(part =~= want) by {
        assert forall|k: int| 0 <= k < c implies #[trigger] part[k] == want[k] by {
            lemma_fundamental_div_mod_converse(lo + k, per_felt as int, f as int, k);
        }
    }
}

} // verus!
