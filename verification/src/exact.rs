//! Where floating point does not round.
//!
//! A sum or a product that a pattern stands for comes out as that pattern. So whole numbers of
//! moderate size add, multiply and compare in floating point as integers do, and what a
//! computation on them must give can be said without speaking of rounding.

use crate::float;
use crate::float::{Float32, Float64, Format};
use vstd::arithmetic::power2::*;
use vstd::prelude::*;

verus! {

/// Whether `x` is finite and stands for `v` times the least positive number.
pub open spec fn is_number(f: Format, x: u64, v: int) -> bool {
    &&& float::is_pattern(f, x)
    &&& float::unsigned(f, x) < f.infinity
    &&& float::value_of(f, x) == v
}

pub open spec fn size(v: int) -> nat {
    if v < 0 {
        (-v) as nat
    } else {
        v as nat
    }
}

/// Whether some finite pattern stands for `v` times the least positive number.
pub open spec fn has_pattern(f: Format, v: int) -> bool {
    exists|p: nat|
        #![trigger float::magnitude(f.fraction_bits as nat, p)]
        p < f.infinity && float::magnitude(f.fraction_bits as nat, p) == size(v)
}

/// A format that reaches well past the whole numbers that its fraction can hold.
pub open spec fn is_wide(f: Format) -> bool {
    &&& float::is_format(f)
    &&& (f.least + 2) * pow2(f.fraction_bits as nat) < f.infinity
}

/// A quotient that a pattern stands for is rounded to that pattern.
proof fn lemma_no_rounding(f: Format, p: nat, n: nat, unit: nat)
    requires
        unit > 0,
        p <= f.infinity,
        float::magnitude(f.fraction_bits as nat, p) * unit == n,
    ensures
        float::rounded_in(f, n, unit) == p,
{
    let fr = f.fraction_bits as nat;
    let infinity = f.infinity as nat;
    float::lemma_rounding_exists(fr, infinity, n, unit);
    assert(float::is_rounding(fr, infinity, n, unit, p)) by {
        assert forall|q: nat|
            #![trigger float::magnitude(fr, q)]
            q <= infinity && q != p implies float::distance(
            float::magnitude(fr, q) * unit,
            n,
        ) > 0 by {
            if q < p {
                float::lemma_scaled_increases(fr, q, p, unit);
            } else {
                float::lemma_scaled_increases(fr, p, q, unit);
            }
        }
    }
    float::rounding_is_unique(
        fr,
        infinity,
        n,
        unit,
        p,
        float::rounded(fr, infinity, n, unit),
    );
}

/// A sum that a pattern stands for is not rounded.
pub proof fn an_exact_sum_is_not_rounded(f: Format, a: u64, b: u64, va: int, vb: int)
    requires
        float::is_format(f),
        is_number(f, a, va),
        is_number(f, b, vb),
        has_pattern(f, va + vb),
    ensures
        is_number(f, float::sum(f, a, b), va + vb),
{
    let fr = f.fraction_bits as nat;
    let z = va + vb;
    let p = choose|p: nat|
        #![trigger float::magnitude(fr, p)]
        p < f.infinity && float::magnitude(fr, p) == size(z);
    float::lemma_zero(fr);
    if z != 0 {
        assert(float::magnitude(fr, p) * 1 == size(z));
        lemma_no_rounding(f, p, size(z), 1);
    }
}

/// A product that a pattern stands for is not rounded.
pub proof fn an_exact_product_is_not_rounded(f: Format, a: u64, b: u64, va: int, vb: int, v: int)
    requires
        float::is_format(f),
        is_number(f, a, va),
        is_number(f, b, vb),
        va * vb == v * pow2(f.least as nat),
        has_pattern(f, v),
    ensures
        is_number(f, float::product(f, a, b), v),
{
    let fr = f.fraction_bits as nat;
    let unit = pow2(f.least as nat);
    let p = choose|p: nat|
        #![trigger float::magnitude(fr, p)]
        p < f.infinity && float::magnitude(fr, p) == size(v);
    lemma_pow2_pos(f.least as nat);
    let n = float::size_of(f, a) * float::size_of(f, b);
    let sa = float::size_of(f, a) as int;
    let sb = float::size_of(f, b) as int;
    let negative = float::is_negative(f, a) != float::is_negative(f, b);
    assert(va * vb == if negative {
        -(sa * sb)
    } else {
        sa * sb
    }) by (nonlinear_arith)
        requires
            va == sa && vb == sb && !negative || va == -sa && vb == -sb && !negative || va == -sa
                && vb == sb && negative || va == sa && vb == -sb && negative,
    ;
    assert(n >= 0 && size(v) * unit == n) by (nonlinear_arith)
        requires
            n == sa * sb,
            sa >= 0,
            sb >= 0,
            v * unit == n || v * unit == -n,
            unit > 0,
            size(v) == v && v >= 0 || size(v) == -v && v < 0,
    ;
    assert(v > 0 ==> !negative) by (nonlinear_arith)
        requires
            negative ==> v * unit == -n,
            n >= 0,
            unit > 0,
    ;
    assert(v < 0 ==> negative) by (nonlinear_arith)
        requires
            !negative ==> v * unit == n,
            n >= 0,
            unit > 0,
    ;
    lemma_no_rounding(f, p, n, unit);
}

/// A quotient that a pattern stands for is not rounded.
pub proof fn an_exact_quotient_is_not_rounded(f: Format, a: u64, b: u64, va: int, vb: int, v: int)
    requires
        float::is_format(f),
        is_number(f, a, va),
        is_number(f, b, vb),
        vb > 0,
        v * vb == va * pow2(f.least as nat),
        has_pattern(f, v),
    ensures
        is_number(f, float::quotient(f, a, b), v),
{
    let fr = f.fraction_bits as nat;
    let unit = pow2(f.least as nat);
    let p = choose|p: nat|
        #![trigger float::magnitude(fr, p)]
        p < f.infinity && float::magnitude(fr, p) == size(v);
    lemma_pow2_pos(f.least as nat);
    float::lemma_zero(fr);
    let n = float::size_of(f, a) * unit;
    assert(size(v) * vb == n) by (nonlinear_arith)
        requires
            v * vb == va * unit,
            n == float::size_of(f, a) * unit,
            float::size_of(f, a) == va && va >= 0 || float::size_of(f, a) == -va && va <= 0,
            size(v) == v && v >= 0 || size(v) == -v && v < 0,
            vb > 0,
            unit > 0,
    ;
    assert(v > 0 ==> va > 0) by (nonlinear_arith)
        requires
            v * vb == va * unit,
            vb > 0,
            unit > 0,
    ;
    assert(v < 0 ==> va < 0) by (nonlinear_arith)
        requires
            v * vb == va * unit,
            vb > 0,
            unit > 0,
    ;
    lemma_no_rounding(f, p, n, vb as nat);
}

/// Multiplying by one changes no number and leaves the quiet NaN as it is.
pub proof fn one_times_a_number_is_the_number(f: Format, a: u64, one: u64)
    requires
        is_wide(f),
        float::is_pattern(f, a),
        !float::is_nan(f, a) || a == float::quiet_nan(f),
        is_number(f, one, pow2(f.least as nat) as int),
    ensures
        float::product(f, a, one) == a,
{
    let fr = f.fraction_bits as nat;
    let unit = pow2(f.least as nat);
    lemma_pow2_pos(f.least as nat);
    float::lemma_zero(fr);
    if !float::is_nan(f, a) && !float::is_infinite(f, a) {
        lemma_no_rounding(f, float::unsigned(f, a) as nat, float::size_of(f, a) * unit, unit);
    }
}

/// A number that the fraction can hold has a pattern at every scale up to that of one.
pub proof fn small_multiples_have_patterns(f: Format, n: int, j: nat)
    requires
        is_wide(f),
        j <= f.least,
        size(n) <= 2 * pow2(f.fraction_bits as nat),
    ensures
        has_pattern(f, n * pow2(j)),
{
    let fr = f.fraction_bits as nat;
    lemma_pow2_pos(j);
    lemma_pow2_pos(fr);
    let p = lemma_pattern(fr, size(n), j);
    assert(size(n * pow2(j)) == size(n) * pow2(j)) by (nonlinear_arith)
        requires
            size(n) == n && n >= 0 || size(n) == -n && n < 0,
            size(n * pow2(j)) == n * pow2(j) && n * pow2(j) >= 0 || size(n * pow2(j)) == -(n
                * pow2(j)) && n * pow2(j) < 0,
            pow2(j) > 0,
    ;
    assert((j + 2) * pow2(fr) <= (f.least + 2) * pow2(fr)) by (nonlinear_arith)
        requires
            j <= f.least,
            pow2(fr) > 0,
    ;
    assert(float::magnitude(fr, p) == size(n * pow2(j)));
}

/// The pattern of `n` times two to the `j`.
proof fn lemma_pattern(fr: nat, n: nat, j: nat) -> (p: nat)
    requires
        n <= 2 * pow2(fr),
    ensures
        p <= (j + 2) * pow2(fr),
        float::magnitude(fr, p) == n * pow2(j),
    decreases j,
{
    let s = pow2(fr);
    lemma_pow2_pos(fr);
    if j == 0 || s <= n {
        float::lemma_pack(fr, j, n);
        assert(j * s + n <= (j + 2) * s) by (nonlinear_arith)
            requires
                n <= 2 * s,
        ;
        j * s + n
    } else {
        lemma_pow2_unfold(j);
        let half = pow2((j - 1) as nat);
        assert(n * (2 * half) == (2 * n) * half) by (nonlinear_arith);
        let p = lemma_pattern(fr, 2 * n, (j - 1) as nat);
        assert((j + 1) * s <= (j + 2) * s) by (nonlinear_arith)
            requires
                s > 0,
        ;
        p
    }
}

pub proof fn the_formats_are_wide()
    ensures
        is_wide(float::binary64()),
        is_wide(float::binary32()),
{
    float::the_formats_are_formats();
    lemma2_to64();
    lemma2_to64_rest();
}

/// Whether `x` is the whole number `n`.
pub open spec fn is_whole(f: Format, x: u64, n: int) -> bool {
    is_number(f, x, n * pow2(f.least as nat))
}

/// Whole numbers whose sum the fraction can hold are added as integers.
pub proof fn whole_sums_are_exact(f: Format, a: u64, b: u64, n: int, m: int)
    requires
        is_wide(f),
        is_whole(f, a, n),
        is_whole(f, b, m),
        size(n + m) <= 2 * pow2(f.fraction_bits as nat),
    ensures
        is_whole(f, float::sum(f, a, b), n + m),
{
    let unit = pow2(f.least as nat);
    small_multiples_have_patterns(f, n + m, f.least as nat);
    assert(n * unit + m * unit == (n + m) * unit) by (nonlinear_arith);
    an_exact_sum_is_not_rounded(f, a, b, n * unit, m * unit);
}

/// Whole numbers whose product the fraction can hold are multiplied as integers.
pub proof fn whole_products_are_exact(f: Format, a: u64, b: u64, n: int, m: int)
    requires
        is_wide(f),
        is_whole(f, a, n),
        is_whole(f, b, m),
        size(n * m) <= 2 * pow2(f.fraction_bits as nat),
    ensures
        is_whole(f, float::product(f, a, b), n * m),
{
    let unit = pow2(f.least as nat) as int;
    small_multiples_have_patterns(f, n * m, f.least as nat);
    assert((n * unit) * (m * unit) == ((n * m) * unit) * unit) by (nonlinear_arith);
    an_exact_product_is_not_rounded(f, a, b, n * unit, m * unit, (n * m) * unit);
}

/// Whole numbers are ordered as integers are, and a pattern is no two of them.
pub proof fn whole_numbers_are_ordered(f: Format, a: u64, b: u64, n: int, m: int)
    requires
        is_wide(f),
        is_whole(f, a, n),
        is_whole(f, b, m),
    ensures
        float::is_below(f, a, b) == (n < m),
        float::is_equal(f, a, b) == (n == m),
        a == b ==> n == m,
{
    let unit = pow2(f.least as nat);
    lemma_pow2_pos(f.least as nat);
    assert((n * unit < m * unit) == (n < m)) by (nonlinear_arith)
        requires
            unit > 0,
    ;
    assert((n * unit == m * unit) == (n == m)) by (nonlinear_arith)
        requires
            unit > 0,
    ;
}

/// The pattern with the other sign is the opposite number.
pub proof fn whole_opposites(f: Format, a: u64, n: int)
    requires
        is_wide(f),
        is_whole(f, a, n),
    ensures
        is_whole(f, float::opposite(f, a), -n),
{
    let unit = pow2(f.least as nat);
    float::lemma_zero(f.fraction_bits as nat);
    assert((-n) * unit == -(n * unit)) by (nonlinear_arith);
}

/// The pattern of a small power of two times one: its exponent field counts up from that of one.
proof fn lemma_constant(f: Format, x: u64, q: nat, k: nat, n: int)
    requires
        is_wide(f),
        q < 2 * pow2(f.fraction_bits as nat),
        pow2(f.fraction_bits as nat) <= q,
        x == k * pow2(f.fraction_bits as nat) + q,
        x < f.infinity,
        q * pow2(k) == n * pow2(f.least as nat),
    ensures
        is_whole(f, x, n),
{
    float::lemma_pack(f.fraction_bits as nat, k, q);
}

/// What a sum or a product is where it is not a number: the quiet NaN.
pub proof fn what_is_not_a_number_is_quiet(a: Float32, b: Float32)
    ensures
        ({
            let x = a.add_spec(b);
            !float::is_nan(float::binary32(), x.bits as u64) || x.bits == 0x7fc0_0000
        }),
        ({
            let x = a.mul_spec(b);
            !float::is_nan(float::binary32(), x.bits as u64) || x.bits == 0x7fc0_0000
        }),
{
    let f = float::binary32();
    let x = a.bits as u64;
    let y = b.bits as u64;
    lemma2_to64();
    lemma_pow2_pos(149);
    let z = float::value_of(f, x) + float::value_of(f, y);
    float::lemma_rounding_exists(23, 0x7f80_0000, size(z), 1);
    float::lemma_rounding_exists(
        23,
        0x7f80_0000,
        float::size_of(f, x) * float::size_of(f, y),
        pow2(149),
    );
}

/// One times a number is the number, whichever of the two factors comes first.
pub proof fn the_unit_is_neutral_on_either_side(a: Float32)
    requires
        !float::is_nan(float::binary32(), a.bits as u64) || a.bits == 0x7fc0_0000,
    ensures
        a.mul_spec(Float32 { bits: 0x3f80_0000 }) == a,
        (Float32 { bits: 0x3f80_0000 }).mul_spec(a) == a,
{
    let f = float::binary32();
    let x = a.bits as u64;
    Float32::one_is_neutral(a);
    assert(float::size_of(f, x) * float::size_of(f, 0x3f80_0000) == float::size_of(f, 0x3f80_0000)
        * float::size_of(f, x)) by (nonlinear_arith);
    assert(float::product(f, 0x3f80_0000, x) == float::product(f, x, 0x3f80_0000));
}

impl Float32 {
    /// Whether this is the whole number `n`.
    pub open spec fn is_integer(self, n: int) -> bool {
        is_whole(float::binary32(), self.bits as u64, n)
    }

    /// Integers of up to 24 bits add, multiply, change sign and compare in this format as they do
    /// without rounding.
    pub proof fn integers_are_exact(a: Self, b: Self, n: int, m: int)
        requires
            a.is_integer(n),
            b.is_integer(m),
        ensures
            -0x100_0000 <= n + m <= 0x100_0000 ==> a.add_spec(b).is_integer(n + m),
            -0x100_0000 <= n * m <= 0x100_0000 ==> a.mul_spec(b).is_integer(n * m),
            a.neg_spec().is_integer(-n),
            a.less_spec(b) == (n < m),
            a == b ==> n == m,
            a.is_zero_spec() == (n == 0),
    {
        let f = float::binary32();
        the_formats_are_wide();
        lemma2_to64();
        let x = a.bits as u64;
        let y = b.bits as u64;
        if -0x100_0000 <= n + m <= 0x100_0000 {
            whole_sums_are_exact(f, x, y, n, m);
        }
        if -0x100_0000 <= n * m <= 0x100_0000 {
            whole_products_are_exact(f, x, y, n, m);
        }
        whole_opposites(f, x, n);
        whole_numbers_are_ordered(f, x, y, n, m);
        let unit = pow2(f.least as nat);
        lemma_pow2_pos(f.least as nat);
        float::lemma_zero(23);
        if float::unsigned(f, x) > 0 {
            float::magnitude_increases(23, 0, float::unsigned(f, x) as nat);
        }
        assert((n * unit == 0) == (n == 0)) by (nonlinear_arith)
            requires
                unit > 0,
        ;
    }

    /// The patterns of zero and one.
    pub proof fn zero_and_one()
        ensures
            (Float32 { bits: 0 }).is_integer(0),
            (Float32 { bits: 0x3f80_0000 }).is_integer(1),
    {
        let f = float::binary32();
        the_formats_are_wide();
        float::lemma_zero(23);
        lemma2_to64();
        lemma_pow2_adds(23, 126);
        assert(0 * pow2(149) == 0) by (nonlinear_arith);
        lemma_constant(f, 0x3f80_0000, 0x80_0000, 126, 1);
    }

    /// Multiplying by one changes nothing but what is not a number, of which there is only one.
    pub proof fn one_is_neutral(a: Self)
        requires
            !float::is_nan(float::binary32(), a.bits as u64) || a.bits == 0x7fc0_0000,
        ensures
            a.mul_spec(Float32 { bits: 0x3f80_0000 }) == a,
    {
        the_formats_are_wide();
        Self::zero_and_one();
        lemma2_to64();
        one_times_a_number_is_the_number(float::binary32(), a.bits as u64, 0x3f80_0000);
    }
}

impl Float64 {
    /// Whether this is the whole number `n`.
    pub open spec fn is_integer(self, n: int) -> bool {
        is_whole(float::binary64(), self.bits, n)
    }

    /// Integers of up to 53 bits add, multiply and compare in this format as they do without
    /// rounding.
    pub proof fn integers_are_exact(a: Self, b: Self, n: int, m: int)
        requires
            a.is_integer(n),
            b.is_integer(m),
        ensures
            -0x20_0000_0000_0000 <= n + m <= 0x20_0000_0000_0000 ==> a.add_spec(b).is_integer(
                n + m,
            ),
            -0x20_0000_0000_0000 <= n * m <= 0x20_0000_0000_0000 ==> a.mul_spec(b).is_integer(
                n * m,
            ),
            a == b ==> n == m,
            a.total_rank() < b.total_rank() ==> n <= m,
            n < m ==> a.total_rank() < b.total_rank(),
    {
        let f = float::binary64();
        the_formats_are_wide();
        lemma2_to64();
        lemma2_to64_rest();
        if -0x20_0000_0000_0000 <= n + m <= 0x20_0000_0000_0000 {
            whole_sums_are_exact(f, a.bits, b.bits, n, m);
        }
        if -0x20_0000_0000_0000 <= n * m <= 0x20_0000_0000_0000 {
            whole_products_are_exact(f, a.bits, b.bits, n, m);
        }
        whole_numbers_are_ordered(f, a.bits, b.bits, n, m);
        float::lemma_zero(52);
        let x = float::unsigned(f, a.bits) as nat;
        let y = float::unsigned(f, b.bits) as nat;
        if x > 0 {
            float::magnitude_increases(52, 0, x);
        }
        if y > 0 {
            float::magnitude_increases(52, 0, y);
        }
        if x < y {
            float::magnitude_increases(52, x, y);
        }
        if y < x {
            float::magnitude_increases(52, y, x);
        }
        whole_numbers_are_ordered(f, b.bits, a.bits, m, n);
    }

    /// The patterns of the numbers from zero to four.
    pub proof fn zero_to_four()
        ensures
            (Float64 { bits: 0 }).is_integer(0),
            (Float64 { bits: 0x3ff0_0000_0000_0000 }).is_integer(1),
            (Float64 { bits: 0x4000_0000_0000_0000 }).is_integer(2),
            (Float64 { bits: 0x4008_0000_0000_0000 }).is_integer(3),
            (Float64 { bits: 0x4010_0000_0000_0000 }).is_integer(4),
    {
        let f = float::binary64();
        the_formats_are_wide();
        float::lemma_zero(52);
        lemma2_to64();
        lemma2_to64_rest();
        lemma_pow2_adds(52, 1022);
        lemma_pow2_adds(51, 1023);
        lemma_pow2_unfold(1023);
        lemma_pow2_unfold(1024);
        assert(0 * pow2(1074) == 0) by (nonlinear_arith);
        lemma_constant(f, 0x3ff0_0000_0000_0000, 0x10_0000_0000_0000, 1022, 1);
        lemma_constant(f, 0x4000_0000_0000_0000, 0x10_0000_0000_0000, 1023, 2);
        lemma_constant(f, 0x4008_0000_0000_0000, 0x18_0000_0000_0000, 1023, 3);
        lemma_constant(f, 0x4010_0000_0000_0000, 0x10_0000_0000_0000, 1024, 4);
    }
}

/// Every integer of up to 24 bits, of either sign, is a number of the format.
pub proof fn integers_have_patterns(n: int) -> (x: Float32)
    requires
        -0x100_0000 <= n <= 0x100_0000,
    ensures
        x.is_integer(n),
{
    let f = float::binary32();
    the_formats_are_wide();
    lemma2_to64();
    small_multiples_have_patterns(f, n, 149);
    let v = n * pow2(149);
    let p = choose|p: nat|
        #![trigger float::magnitude(23, p)]
        p < f.infinity && float::magnitude(23, p) == size(v);
    if v < 0 {
        Float32 { bits: (p + 0x8000_0000) as u32 }
    } else {
        Float32 { bits: p as u32 }
    }
}

/// What a cost and what a positive number is, by their bits: finite, without a sign but for zero,
/// and not zero.
pub proof fn costs_and_positive_numbers(cost: Float64, number: Float32)
    ensures
        cost.is_cost() <==> cost.bits < 0x7ff0_0000_0000_0000 || cost.bits
            == 0x8000_0000_0000_0000,
        number.is_positive() <==> 0 < number.bits < 0x7f80_0000,
        number.is_zero_spec() <==> number.bits == 0 || number.bits == 0x8000_0000,
{
}

/// A sum of finite numbers is the number nearest to the exact sum: no other is nearer, and where
/// another is as near, the result has the even pattern. Infinity stands for the number that would
/// come after the largest.
pub proof fn a_sum_is_the_nearest_number(f: Format, a: u64, b: u64, p: nat)
    requires
        float::is_format(f),
        float::is_pattern(f, a),
        float::is_pattern(f, b),
        float::unsigned(f, a) < f.infinity,
        float::unsigned(f, b) < f.infinity,
        p <= f.infinity,
    ensures
        ({
            let z = float::value_of(f, a) + float::value_of(f, b);
            let r = float::sum(f, a, b);
            let mine = float::distance(float::size_of(f, r), size(z));
            let other = float::distance(float::magnitude(f.fraction_bits as nat, p), size(z));
            &&& float::is_pattern(f, r)
            &&& !float::is_nan(f, r)
            &&& z > 0 ==> !float::is_negative(f, r)
            &&& z < 0 ==> float::is_negative(f, r)
            &&& mine <= other
            &&& mine == other && p != float::unsigned(f, r) ==> float::unsigned(f, r) % 2 == 0
        }),
{
    let fr = f.fraction_bits as nat;
    let infinity = f.infinity as nat;
    let z = float::value_of(f, a) + float::value_of(f, b);
    float::lemma_zero(fr);
    float::lemma_rounding_exists(fr, infinity, size(z), 1);
    let q = float::rounded(fr, infinity, size(z), 1);
    assert(float::magnitude(fr, p) * 1 == float::magnitude(fr, p));
    assert(float::magnitude(fr, q) * 1 == float::magnitude(fr, q));
    if z == 0 && p > 0 {
        float::magnitude_increases(fr, 0, p);
    }
}

/// The same of a product, with the distances taken as many times larger as one is larger than the
/// least positive number.
pub proof fn a_product_is_the_nearest_number(f: Format, a: u64, b: u64, p: nat)
    requires
        float::is_format(f),
        float::is_pattern(f, a),
        float::is_pattern(f, b),
        float::unsigned(f, a) < f.infinity,
        float::unsigned(f, b) < f.infinity,
        p <= f.infinity,
    ensures
        ({
            let unit = pow2(f.least as nat);
            let exact = float::size_of(f, a) * float::size_of(f, b);
            let r = float::product(f, a, b);
            let mine = float::distance(float::size_of(f, r) * unit, exact);
            let other = float::distance(
                float::magnitude(f.fraction_bits as nat, p) * unit,
                exact,
            );
            &&& float::is_pattern(f, r)
            &&& !float::is_nan(f, r)
            &&& float::is_negative(f, r) == (float::is_negative(f, a) != float::is_negative(f, b))
            &&& mine <= other
            &&& mine == other && p != float::unsigned(f, r) ==> float::unsigned(f, r) % 2 == 0
        }),
{
    let fr = f.fraction_bits as nat;
    let infinity = f.infinity as nat;
    let unit = pow2(f.least as nat);
    lemma_pow2_pos(f.least as nat);
    let exact = float::size_of(f, a) * float::size_of(f, b);
    float::lemma_rounding_exists(fr, infinity, exact, unit);
    let q = float::rounded(fr, infinity, exact, unit);
    assert(float::magnitude(fr, p) * unit >= 0) by (nonlinear_arith)
        requires
            float::magnitude(fr, p) >= 0,
            unit >= 0,
    ;
}

/// The same of a quotient, with the distances taken as many times larger as the divisor says.
pub proof fn a_quotient_is_the_nearest_number(f: Format, a: u64, b: u64, p: nat)
    requires
        float::is_format(f),
        float::is_pattern(f, a),
        float::is_pattern(f, b),
        float::unsigned(f, a) < f.infinity,
        0 < float::unsigned(f, b) < f.infinity,
        p <= f.infinity,
    ensures
        ({
            let divisor = float::size_of(f, b);
            let exact = float::size_of(f, a) * pow2(f.least as nat);
            let r = float::quotient(f, a, b);
            let mine = float::distance(float::size_of(f, r) * divisor, exact);
            let other = float::distance(
                float::magnitude(f.fraction_bits as nat, p) * divisor,
                exact,
            );
            &&& float::is_pattern(f, r)
            &&& !float::is_nan(f, r)
            &&& float::is_negative(f, r) == (float::is_negative(f, a) != float::is_negative(f, b))
            &&& mine <= other
            &&& mine == other && p != float::unsigned(f, r) ==> float::unsigned(f, r) % 2 == 0
        }),
{
    let fr = f.fraction_bits as nat;
    let infinity = f.infinity as nat;
    let divisor = float::size_of(f, b);
    float::lemma_zero(fr);
    float::magnitude_increases(fr, 0, float::unsigned(f, b) as nat);
    let exact = float::size_of(f, a) * pow2(f.least as nat);
    float::lemma_rounding_exists(fr, infinity, exact, divisor);
    let q = float::rounded(fr, infinity, exact, divisor);
    assert(float::magnitude(fr, p) * divisor >= 0) by (nonlinear_arith)
        requires
            float::magnitude(fr, p) >= 0,
            divisor >= 0,
    ;
}

} // verus!
