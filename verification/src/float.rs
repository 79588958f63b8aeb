//! Binary floating point on bit patterns.
//!
//! Costs, measurements and tensor elements are IEEE 754 data. Here they are the integers that
//! their bits make up, and addition and multiplication are integer computations whose results are
//! stated over the numbers that the patterns stand for: round to nearest, ties to even.

use vstd::arithmetic::power2::*;
use vstd::prelude::*;
use vstd::std_specs::cmp::PartialEqSpecImpl;

verus! {

/// A binary floating-point format: the number of its fraction bits, the patterns of its infinity
/// and its sign bit, and its least positive number, which is two to the minus `least`.
#[derive(Debug, Clone, Copy, PartialEq, Eq, Structural)]
pub struct Format {
    pub fraction_bits: u32,
    pub infinity: u64,
    pub sign: u64,
    pub least: u32,
}

/// The number that the non-negative pattern `p` stands for, in units of the least positive one.
/// The pattern of infinity stands for the number that would follow the largest finite one.
pub open spec fn magnitude(f: nat, p: nat) -> nat {
    let e = p / pow2(f);
    let m = p % pow2(f);
    if e == 0 {
        m
    } else {
        (pow2(f) + m) * pow2((e - 1) as nat)
    }
}

pub open spec fn distance(a: nat, b: nat) -> nat {
    if a <= b {
        (b - a) as nat
    } else {
        (a - b) as nat
    }
}

/// Whether `p` is the pattern that `n / unit` is rounded to: the nearest one, and of two that are
/// equally near the even one. `infinity` is the last pattern there is.
pub open spec fn is_rounding(f: nat, infinity: nat, n: nat, unit: nat, p: nat) -> bool {
    &&& p <= infinity
    &&& forall|q: nat|
        #![trigger magnitude(f, q)]
        q <= infinity && q != p ==> {
            let dp = distance(magnitude(f, p) * unit, n);
            let dq = distance(magnitude(f, q) * unit, n);
            dp < dq || dp == dq && p % 2 == 0
        }
}

/// The pattern that `n / unit` is rounded to.
pub open spec fn rounded(f: nat, infinity: nat, n: nat, unit: nat) -> nat {
    choose|p: nat| is_rounding(f, infinity, n, unit, p)
}

/// A pattern from its parts: `q` in units of two to the `k`.
pub proof fn lemma_pack(f: nat, k: nat, q: nat)
    requires
        q <= 2 * pow2(f),
        k == 0 || pow2(f) <= q,
    ensures
        magnitude(f, k * pow2(f) + q) == q * pow2(k),
{
    lemma_pow2_pos(f);
    lemma_pow2_pos(k);
    let s = pow2(f);
    let p = k * s + q;
    lemma2_to64();
    if k == 0 && q < s {
        vstd::arithmetic::div_mod::lemma_small_mod(q, s);
        vstd::arithmetic::div_mod::lemma_basic_div(q as int, s as int);
        assert(q * pow2(0) == q) by (nonlinear_arith)
            requires
                pow2(0) == 1,
        ;
    } else if q < 2 * s {
        let m = (q - s) as nat;
        assert(p == (k + 1) * s + m) by (nonlinear_arith)
            requires
                p == k * s + q,
                m == q - s,
        ;
        vstd::arithmetic::div_mod::lemma_fundamental_div_mod_converse(
            p as int,
            s as int,
            (k + 1) as int,
            m as int,
        );
        assert(magnitude(f, p) == (s + m) * pow2(k));
    } else {
        assert(p == (k + 2) * s) by (nonlinear_arith)
            requires
                p == k * s + q,
                q == 2 * s,
        ;
        vstd::arithmetic::div_mod::lemma_fundamental_div_mod_converse(
            p as int,
            s as int,
            (k + 2) as int,
            0,
        );
        lemma_pow2_unfold(k + 1);
        assert(magnitude(f, p) == (s + 0) * pow2(k + 1));
        assert((s + 0) * (2 * pow2(k)) == (2 * s) * pow2(k)) by (nonlinear_arith);
    }
}

/// The parts of a pattern.
proof fn lemma_unpack(f: nat, p: nat) -> (parts: (nat, nat))
    ensures
        p == parts.0 * pow2(f) + parts.1,
        parts.1 < 2 * pow2(f),
        parts.0 == 0 || pow2(f) <= parts.1,
        parts.0 == if p / pow2(f) == 0 {
            0
        } else {
            (p / pow2(f) - 1) as nat
        },
{
    lemma_pow2_pos(f);
    let s = pow2(f);
    vstd::arithmetic::div_mod::lemma_fundamental_div_mod(p as int, s as int);
    vstd::arithmetic::div_mod::lemma_mod_bound(p as int, s as int);
    let e = p / s;
    let m = p % s;
    if e == 0 {
        assert(s * e == 0) by (nonlinear_arith)
            requires
                e == 0,
        ;
        (0, p)
    } else {
        let k = (e - 1) as nat;
        assert(p == k * s + (s + m)) by (nonlinear_arith)
            requires
                p == s * e + m,
                k == e - 1,
        ;
        (k, s + m)
    }
}

/// The next pattern stands for a larger number.
proof fn lemma_magnitude_step(f: nat, p: nat)
    ensures
        magnitude(f, p) < magnitude(f, p + 1),
{
    let (k, q) = lemma_unpack(f, p);
    lemma_pow2_pos(k);
    lemma_pack(f, k, q);
    lemma_pack(f, k, q + 1);
    assert(k * pow2(f) + (q + 1) == p + 1);
    assert(q * pow2(k) < (q + 1) * pow2(k)) by (nonlinear_arith)
        requires
            pow2(k) > 0,
    ;
}

/// Larger patterns stand for larger numbers.
pub proof fn magnitude_increases(f: nat, p: nat, q: nat)
    requires
        p < q,
    ensures
        magnitude(f, p) < magnitude(f, q),
    decreases q - p,
{
    lemma_magnitude_step(f, (q - 1) as nat);
    if p + 1 < q {
        magnitude_increases(f, p, (q - 1) as nat);
    }
}

pub proof fn lemma_scaled_increases(f: nat, p: nat, q: nat, unit: nat)
    requires
        p < q,
        unit > 0,
    ensures
        magnitude(f, p) * unit < magnitude(f, q) * unit,
{
    magnitude_increases(f, p, q);
    let a = magnitude(f, p);
    let b = magnitude(f, q);
    assert(a * unit < b * unit) by (nonlinear_arith)
        requires
            a < b,
            unit > 0,
    ;
}

/// There is at most one pattern that a number is rounded to.
pub proof fn rounding_is_unique(f: nat, infinity: nat, n: nat, unit: nat, p: nat, q: nat)
    requires
        unit > 0,
        is_rounding(f, infinity, n, unit, p),
        is_rounding(f, infinity, n, unit, q),
    ensures
        p == q,
{
    lemma_two_roundings(f, infinity, n, unit, p, q);
    lemma_two_roundings(f, infinity, n, unit, q, p);
}

proof fn lemma_two_roundings(f: nat, infinity: nat, n: nat, unit: nat, p: nat, q: nat)
    requires
        unit > 0,
        is_rounding(f, infinity, n, unit, p),
        is_rounding(f, infinity, n, unit, q),
    ensures
        p >= q,
{
    if p < q {
        lemma_scaled_increases(f, p, q, unit);
        let a = magnitude(f, p) * unit;
        let b = magnitude(f, q) * unit;
        assert(distance(a, n) == distance(b, n));
        assert(p % 2 == 0 && q % 2 == 0);
        let c = magnitude(f, p + 1) * unit;
        lemma_scaled_increases(f, p, p + 1, unit);
        lemma_scaled_increases(f, p + 1, q, unit);
        assert(distance(c, n) < distance(a, n));
    }
}

/// A number between two neighbouring patterns is rounded to the nearer of them.
proof fn lemma_round_between(f: nat, infinity: nat, n: nat, unit: nat, p: nat)
    requires
        unit > 0,
        p < infinity,
        magnitude(f, p) * unit <= n <= magnitude(f, p + 1) * unit,
    ensures
        ({
            let below = n - magnitude(f, p) * unit;
            let above = magnitude(f, p + 1) * unit - n;
            &&& below < above || below == above && p % 2 == 0 ==> is_rounding(
                f,
                infinity,
                n,
                unit,
                p,
            )
            &&& above < below || below == above && p % 2 == 1 ==> is_rounding(
                f,
                infinity,
                n,
                unit,
                p + 1,
            )
        }),
{
    lemma_scaled_increases(f, p, p + 1, unit);
    let a = magnitude(f, p) * unit;
    let b = magnitude(f, p + 1) * unit;
    assert forall|q: nat| #![trigger magnitude(f, q)] q <= infinity && q != p && q != p
        + 1 implies (q < p && magnitude(f, q) * unit < a || q > p + 1 && magnitude(f, q) * unit
        > b) by {
        if q < p {
            lemma_scaled_increases(f, q, p, unit);
        } else {
            lemma_scaled_increases(f, p + 1, q, unit);
        }
    }
}

/// A number that no finite pattern reaches is rounded to infinity.
proof fn lemma_round_above(f: nat, infinity: nat, n: nat, unit: nat)
    requires
        unit > 0,
        magnitude(f, infinity) * unit <= n,
    ensures
        is_rounding(f, infinity, n, unit, infinity),
{
    assert forall|q: nat| #![trigger magnitude(f, q)] q <= infinity && q
        != infinity implies magnitude(f, q) * unit < magnitude(f, infinity) * unit by {
        lemma_scaled_increases(f, q, infinity, unit);
    }
}

/// Rounding keeps the order of numbers.
pub proof fn rounding_is_monotone(
    f: nat,
    infinity: nat,
    a: nat,
    b: nat,
    unit: nat,
    p: nat,
    q: nat,
)
    requires
        unit > 0,
        a <= b,
        is_rounding(f, infinity, a, unit, p),
        is_rounding(f, infinity, b, unit, q),
    ensures
        p <= q,
{
    if p > q {
        lemma_scaled_increases(f, q, p, unit);
        let vp = magnitude(f, p) * unit;
        let vq = magnitude(f, q) * unit;
        assert(distance(vp, a) <= distance(vq, a));
        assert(distance(vq, b) <= distance(vp, b));
        if a == b {
            rounding_is_unique(f, infinity, a, unit, p, q);
        }
    }
}

/// Two to the `k`.
fn power(k: u32) -> (r: u128)
    requires
        k <= 120,
    ensures
        r == pow2(k as nat),
        1 <= r <= 0x100_0000_0000_0000_0000_0000_0000_0000,
{
    let mut r: u128 = 1;
    let mut i: u32 = 0;
    proof {
        lemma2_to64();
        lemma_pow2_bound(k as nat);
    }
    while i < k
        invariant
            i <= k <= 120,
            r == pow2(i as nat),
        decreases k - i,
    {
        proof {
            lemma_pow2_unfold((i + 1) as nat);
            lemma_pow2_bound(i as nat);
        }
        r = r * 2;
        i = i + 1;
    }
    r
}

proof fn lemma_pow2_bound(k: nat)
    requires
        k <= 120,
    ensures
        1 <= pow2(k) <= 0x100_0000_0000_0000_0000_0000_0000_0000,
{
    lemma_pow2_pos(k);
    assert(pow2(120) == 0x100_0000_0000_0000_0000_0000_0000_0000) by {
        lemma2_to64();
        lemma_pow2_adds(60, 60);
        lemma2_to64_rest();
    }
    if k < 120 {
        lemma_pow2_strictly_increases(k, 120);
    }
}

/// Whether a format is one that the functions below work on: at least two fraction bits, and a
/// pattern of infinity without fraction.
pub open spec fn is_format(f: Format) -> bool {
    &&& 2 <= f.fraction_bits <= 52
    &&& 0 < f.infinity < f.sign <= 0x8000_0000_0000_0000
    &&& f.infinity + pow2((f.fraction_bits - 1) as nat) < f.sign
    &&& f.sign as nat / pow2(f.fraction_bits as nat) <= 2048
    &&& f.least <= 8192
}

proof fn lemma_scale(a: nat, b: nat, c: nat)
    ensures
        a * pow2(b) * pow2(c) == a * pow2(b + c),
{
    lemma_pow2_adds(b, c);
    assert(a * pow2(b) * pow2(c) == a * (pow2(b) * pow2(c))) by (nonlinear_arith);
}

/// The pattern that `m` times two to the `e` is rounded to, in units of two to the `t`.
fn round_pattern(f: Format, m: u128, e: u32, t: u32) -> (r: u64)
    requires
        is_format(f),
        m < 0x1_0000_0000_0000_0000_0000_0000_0000,
        e <= 8192,
        t <= 8192,
    ensures
        is_rounding(
            f.fraction_bits as nat,
            f.infinity as nat,
            m as nat * pow2(e as nat),
            pow2(t as nat),
            r as nat,
        ),
{
    let fb: u32 = f.fraction_bits;
    let ghost fr = fb as nat;
    let ghost infinity = f.infinity as nat;
    let ghost n = m as nat * pow2(e as nat);
    let ghost unit = pow2(t as nat);
    proof {
        lemma_pow2_pos(t as nat);
        lemma_pow2_pos(e as nat);
        lemma_pow2_pos(fr);
        lemma_pow2_bound(112);
        assert(pow2(112) == 0x1_0000_0000_0000_0000_0000_0000_0000) by {
            lemma2_to64();
            lemma2_to64_rest();
            lemma_pow2_adds(56, 56);
        }
    }
    if e < t && t - e > 114 {
        proof {
            lemma_tiny(fr, infinity, m as nat, e as nat, t as nat);
        }
        return 0;
    }
    let step: u128 = power(fb);
    let mut m: u128 = m;
    let mut e: u32 = e;
    proof {
        lemma_pow2_strictly_increases(fr, 53);
        lemma2_to64();
        lemma2_to64_rest();
    }
    while m < step && e > t
        invariant
            m < 0x1_0000_0000_0000_0000_0000_0000_0000,
            step == pow2(fr),
            step <= 0x20_0000_0000_0000,
            n == m as nat * pow2(e as nat),
            e <= 8192,
            !(e < t && t - e > 114),
        decreases e,
    {
        proof {
            lemma_pow2_unfold(e as nat);
            let half = pow2((e - 1) as nat);
            assert(m as nat * (2 * half) == (m * 2) as nat * half) by (nonlinear_arith);
        }
        m = m * 2;
        e = e - 1;
    }
    // Now `m == q * 2^k + rest` is kept while bits move from `q` to `rest`.
    let mut q: u128 = m;
    let mut rest: u128 = 0;
    let mut k: u32 = 0;
    let mut weight: u128 = 1;
    let least: u32 = if e < t {
        t - e
    } else {
        0
    };
    proof {
        lemma2_to64();
        lemma_pow2_bound(0);
    }
    while k < least || q >= 2 * step
        invariant
            m < 0x1_0000_0000_0000_0000_0000_0000_0000,
            m < pow2(112),
            0 < step <= 0x20_0000_0000_0000,
            weight == pow2(k as nat),
            m == q * weight + rest,
            rest < weight,
            least <= 114,
            k <= 114,
            k <= least || q >= step,
            q <= m,
            k >= 113 ==> q == 0,
        decreases 200 - k,
    {
        proof {
            lemma_pow2_unfold((k + 1) as nat);
            lemma_pow2_bound((k + 1) as nat);
            lemma_split(q as nat, weight as nat, rest as nat);
            lemma_quotient_bound(m as nat, q as nat, weight as nat, rest as nat, k as nat);
        }
        let odd: u128 = q % 2;
        let moved: u128 = if odd == 1 {
            weight
        } else {
            0
        };
        rest = rest + moved;
        q = q / 2;
        weight = weight * 2;
        k = k + 1;
        proof {
            lemma_quotient_bound(m as nat, q as nat, weight as nat, rest as nat, k as nat);
        }
    }
    let high: u32 = e + k - t;
    proof {
        lemma_high(high as nat, step as nat);
    }
    let pattern: u128 = high as u128 * step + q;
    let ghost p = pattern as nat;
    proof {
        let kn = k as nat;
        let en = e as nat;
        assert(high == 0 || pow2(fr) <= q) by {
            if k == 0 {
                lemma2_to64();
                assert(q * 1 == q);
            }
        }
        lemma_pack(fr, high as nat, q as nat);
        lemma_pack(fr, high as nat, (q + 1) as nat);
        assert(high as nat * pow2(fr) + (q + 1) as nat == p + 1);
        // Both neighbours and the number itself, in units of two to the `e`.
        lemma_scale(q as nat, high as nat, t as nat);
        lemma_scale((q + 1) as nat, high as nat, t as nat);
        lemma_scale(q as nat, kn, en);
        lemma_scale((q + 1) as nat, kn, en);
        assert(high as nat + t as nat == kn + en);
        lemma_pow2_pos(en);
        lemma_between(q as nat, weight as nat, rest as nat, pow2(en));
        lemma_parity(high as nat, fr, q as nat);
    }
    if pattern >= f.infinity as u128 {
        proof {
            if p > infinity {
                lemma_scaled_increases(fr, infinity, p, unit);
            }
            lemma_round_above(fr, infinity, n, unit);
        }
        return f.infinity;
    }
    proof {
        lemma_round_between(fr, infinity, n, unit, p);
    }
    let twice: u128 = 2 * rest;
    if twice > weight || twice == weight && q % 2 == 1 {
        (pattern + 1) as u64
    } else {
        pattern as u64
    }
}

proof fn lemma_high(high: nat, step: nat)
    requires
        high <= 16400,
        0 < step <= 0x20_0000_0000_0000,
    ensures
        high * step <= 16400 * 0x20_0000_0000_0000,
{
    assert(high * step <= 16400 * 0x20_0000_0000_0000) by (nonlinear_arith)
        requires
            high <= 16400,
            0 < step <= 0x20_0000_0000_0000,
    ;
}

proof fn lemma_parity(high: nat, f: nat, q: nat)
    requires
        f >= 1,
    ensures
        (high * pow2(f) + q) % 2 == q % 2,
{
    lemma_pow2_unfold(f);
    let h = pow2((f - 1) as nat);
    assert(high * (2 * h) == 2 * (high * h)) by (nonlinear_arith);
}

/// Moving the last bit of the quotient to the rest.
proof fn lemma_split(q: nat, weight: nat, rest: nat)
    requires
        rest < weight,
    ensures
        q * weight + rest == (q / 2) * (2 * weight) + (rest + (if q % 2 == 1 {
            weight
        } else {
            0
        })),
        rest + (if q % 2 == 1 {
            weight
        } else {
            0
        }) < 2 * weight,
{
    let h = q / 2;
    assert(q == 2 * h + q % 2);
    assert((2 * h + 1) * weight == h * (2 * weight) + weight) by (nonlinear_arith);
    assert((2 * h) * weight == h * (2 * weight)) by (nonlinear_arith);
}

proof fn lemma_quotient_bound(m: nat, q: nat, weight: nat, rest: nat, k: nat)
    requires
        m == q * weight + rest,
        m < pow2(112),
        weight == pow2(k),
    ensures
        q <= m,
        k >= 113 ==> q == 0,
{
    lemma_pow2_pos(k);
    assert(q <= q * weight) by (nonlinear_arith)
        requires
            weight >= 1,
    ;
    if k >= 113 {
        lemma_pow2_strictly_increases(112, k);
        if q > 0 {
            assert(q * weight >= weight) by (nonlinear_arith)
                requires
                    q >= 1,
            ;
        }
    }
}

/// A number lies between its quotient and the next one, by what is left and what is missing.
proof fn lemma_between(q: nat, weight: nat, rest: nat, scale: nat)
    requires
        rest < weight,
        scale > 0,
    ensures
        (q * weight + rest) * scale - q * weight * scale == rest * scale,
        (q + 1) * weight * scale - (q * weight + rest) * scale == (weight - rest) * scale,
        2 * rest < weight ==> rest * scale < (weight - rest) * scale,
        2 * rest == weight ==> rest * scale == (weight - rest) * scale,
        2 * rest > weight ==> rest * scale > (weight - rest) * scale,
        rest * scale >= 0,
        (weight - rest) * scale >= 0,
{
    assert((q * weight + rest) * scale - q * weight * scale == rest * scale) by (nonlinear_arith);
    assert((q + 1) * weight * scale - (q * weight + rest) * scale == (weight - rest) * scale)
        by (nonlinear_arith);
    let missing = (weight - rest) as nat;
    assert(2 * rest < weight ==> rest * scale < missing * scale) by (nonlinear_arith)
        requires
            scale > 0,
            missing == weight - rest,
    ;
    assert(2 * rest > weight ==> rest * scale > missing * scale) by (nonlinear_arith)
        requires
            scale > 0,
            missing == weight - rest,
    ;
    assert(rest * scale >= 0) by (nonlinear_arith);
    assert(missing * scale >= 0) by (nonlinear_arith);
}

/// What is far below the least positive number is rounded to zero.
proof fn lemma_tiny(f: nat, infinity: nat, m: nat, e: nat, t: nat)
    requires
        m < pow2(112),
        t - e > 114,
        f >= 2,
        infinity > 0,
    ensures
        is_rounding(f, infinity, m * pow2(e), pow2(t), 0),
{
    lemma_pow2_pos(t);
    lemma_pow2_pos(e);
    lemma_pow2_pos(f);
    lemma_pow2_strictly_increases(0, f);
    lemma2_to64();
    lemma_pack(f, 0, 0);
    lemma_pack(f, 0, 1);
    lemma_pow2_adds(112, e);
    let n = m * pow2(e);
    assert(n < pow2(112) * pow2(e)) by (nonlinear_arith)
        requires
            m < pow2(112),
            pow2(e) > 0,
            n == m * pow2(e),
    ;
    lemma_pow2_strictly_increases(112 + e, (t - 1) as nat);
    lemma_pow2_unfold(t);
    assert(magnitude(f, 0) == 0) by (nonlinear_arith)
        requires
            magnitude(f, 0) == 0 * pow2(0),
    ;
    assert(magnitude(f, 1) == 1) by (nonlinear_arith)
        requires
            magnitude(f, 1) == 1 * pow2(0),
            pow2(0) == 1,
    ;
    assert(magnitude(f, 0) * pow2(t) == 0) by (nonlinear_arith)
        requires
            magnitude(f, 0) == 0,
    ;
    assert(magnitude(f, 1) * pow2(t) == pow2(t)) by (nonlinear_arith)
        requires
            magnitude(f, 1) == 1,
    ;
    lemma_round_between(f, infinity, n, pow2(t), 0);
}

/// Whether `x` is a pattern of the format.
pub open spec fn is_pattern(f: Format, x: u64) -> bool {
    x < 2 * f.sign
}

pub open spec fn is_negative(f: Format, x: u64) -> bool {
    x >= f.sign
}

/// The pattern without its sign.
pub open spec fn unsigned(f: Format, x: u64) -> u64 {
    if is_negative(f, x) {
        (x - f.sign) as u64
    } else {
        x
    }
}

pub open spec fn is_nan(f: Format, x: u64) -> bool {
    unsigned(f, x) > f.infinity
}

pub open spec fn is_infinite(f: Format, x: u64) -> bool {
    unsigned(f, x) == f.infinity
}

/// The quiet NaN without sign and payload.
pub open spec fn quiet_nan(f: Format) -> u64 {
    (f.infinity + pow2((f.fraction_bits - 1) as nat)) as u64
}

/// The size of the number, in units of the least positive one.
pub open spec fn size_of(f: Format, x: u64) -> nat {
    magnitude(f.fraction_bits as nat, unsigned(f, x) as nat)
}

/// The number, in units of the least positive one.
pub open spec fn value_of(f: Format, x: u64) -> int {
    if is_negative(f, x) {
        -(size_of(f, x) as int)
    } else {
        size_of(f, x) as int
    }
}

/// The pattern with this size and sign.
pub open spec fn with_sign(f: Format, negative: bool, size: nat) -> u64 {
    if negative {
        (f.sign + size) as u64
    } else {
        size as u64
    }
}

/// The pattern that `n / unit` is rounded to in this format.
pub open spec fn rounded_in(f: Format, n: nat, unit: nat) -> nat {
    rounded(f.fraction_bits as nat, f.infinity as nat, n, unit)
}

/// IEEE addition. What is not a number comes out as the quiet NaN without sign and payload.
pub open spec fn sum(f: Format, a: u64, b: u64) -> u64 {
    let z = value_of(f, a) + value_of(f, b);
    if is_nan(f, a) || is_nan(f, b) {
        quiet_nan(f)
    } else if is_infinite(f, a) && is_infinite(f, b) {
        if a == b {
            a
        } else {
            quiet_nan(f)
        }
    } else if is_infinite(f, a) {
        a
    } else if is_infinite(f, b) {
        b
    } else if z == 0 {
        with_sign(f, is_negative(f, a) && is_negative(f, b), 0)
    } else if z > 0 {
        with_sign(f, false, rounded_in(f, z as nat, 1))
    } else {
        with_sign(f, true, rounded_in(f, (-z) as nat, 1))
    }
}

/// IEEE multiplication. What is not a number comes out as the quiet NaN without sign and payload.
pub open spec fn product(f: Format, a: u64, b: u64) -> u64 {
    let negative = is_negative(f, a) != is_negative(f, b);
    if is_nan(f, a) || is_nan(f, b) {
        quiet_nan(f)
    } else if is_infinite(f, a) || is_infinite(f, b) {
        if unsigned(f, a) == 0 || unsigned(f, b) == 0 {
            quiet_nan(f)
        } else {
            with_sign(f, negative, f.infinity as nat)
        }
    } else {
        with_sign(
            f,
            negative,
            rounded_in(f, size_of(f, a) * size_of(f, b), pow2(f.least as nat)),
        )
    }
}

/// A finite number as a mantissa and an exponent of two.
struct Parts {
    mantissa: u128,
    exponent: u32,
}

fn unpack(f: Format, u: u64) -> (r: Parts)
    requires
        is_format(f),
        u < f.infinity,
    ensures
        magnitude(f.fraction_bits as nat, u as nat) == r.mantissa as nat * pow2(r.exponent as nat),
        r.mantissa < 2 * pow2(f.fraction_bits as nat),
        r.mantissa < 0x20_0000_0000_0000,
        r.exponent == 0 || r.mantissa >= pow2(f.fraction_bits as nat),
        r.exponent <= 2048,
        u == r.exponent * pow2(f.fraction_bits as nat) + r.mantissa,
{
    let ghost fr = f.fraction_bits as nat;
    proof {
        lemma_pow2_bound(fr);
        lemma_pow2_unfold(53);
        lemma2_to64();
        lemma2_to64_rest();
        if fr < 52 {
            lemma_pow2_strictly_increases(fr, 52);
        }
    }
    let step: u64 = power(f.fraction_bits) as u64;
    let e: u64 = u / step;
    proof {
        let (k, q) = lemma_unpack(fr, u as nat);
        lemma_pack(fr, k, q);
        vstd::arithmetic::div_mod::lemma_div_is_ordered(u as int, f.sign as int, step as int);
        assert(k <= 2048);
    }
    if e == 0 {
        assert(u == 0 * pow2(fr) + u) by (nonlinear_arith);
        assert(u * pow2(0) == u) by (nonlinear_arith)
            requires
                pow2(0) == 1,
        ;
        Parts { mantissa: u as u128, exponent: 0 }
    } else {
        let exponent: u32 = (e - 1) as u32;
        let mantissa: u128 = step as u128 + (u % step) as u128;
        proof {
            let k = exponent as nat;
            vstd::arithmetic::div_mod::lemma_fundamental_div_mod(u as int, step as int);
            assert(u == k * step + mantissa) by (nonlinear_arith)
                requires
                    u == step * e + u % step,
                    k == e - 1,
                    mantissa == step + u % step,
            ;
        }
        Parts { mantissa, exponent }
    }
}

/// Adding or taking away a number far smaller leaves a pattern as it is.
proof fn lemma_absorb(f: Format, u: u64, mantissa: nat, exponent: nat, small: nat)
    requires
        is_format(f),
        u < f.infinity,
        u == exponent * pow2(f.fraction_bits as nat) + mantissa,
        pow2(f.fraction_bits as nat) <= mantissa < 2 * pow2(f.fraction_bits as nat),
        exponent >= 3,
        small < pow2((exponent - 2) as nat),
    ensures
        ({
            let fr = f.fraction_bits as nat;
            let n = magnitude(fr, u as nat);
            &&& n > small
            &&& is_rounding(fr, f.infinity as nat, n + small, 1, u as nat)
            &&& is_rounding(fr, f.infinity as nat, (n - small) as nat, 1, u as nat)
        }),
{
    let fr = f.fraction_bits as nat;
    let s = pow2(fr);
    let infinity = f.infinity as nat;
    lemma_pow2_pos(fr);
    lemma_pack(fr, exponent, mantissa);
    lemma_pack(fr, exponent, mantissa + 1);
    lemma_pow2_unfold(exponent);
    lemma_pow2_unfold((exponent - 1) as nat);
    let h = pow2((exponent - 2) as nat);
    let n = magnitude(fr, u as nat);
    assert(pow2(exponent) == 4 * h);
    assert((mantissa + 1) * pow2(exponent) == mantissa * pow2(exponent) + 4 * h)
        by (nonlinear_arith)
        requires
            pow2(exponent) == 4 * h,
    ;
    assert(n >= 4 * h) by (nonlinear_arith)
        requires
            n == mantissa * pow2(exponent),
            mantissa >= 1,
            pow2(exponent) == 4 * h,
    ;
    assert(exponent * s + (mantissa + 1) == u + 1);
    lemma_unit(magnitude(fr, u as nat));
    lemma_unit(magnitude(fr, (u + 1) as nat));
    lemma_round_between(fr, infinity, n + small, 1, u as nat);
    let before = (u - 1) as nat;
    assert(u >= 1);
    if mantissa > s {
        lemma_pack(fr, exponent, (mantissa - 1) as nat);
        assert(exponent * s + (mantissa - 1) == before);
        assert((mantissa - 1) * pow2(exponent) == mantissa * pow2(exponent) - 4 * h)
            by (nonlinear_arith)
            requires
                pow2(exponent) == 4 * h,
        ;
    } else {
        let k = (exponent - 1) as nat;
        let q = (2 * s - 1) as nat;
        lemma_pack(fr, k, q);
        assert(k * s + q == before) by (nonlinear_arith)
            requires
                before == exponent * s + s - 1,
                k == exponent - 1,
                q == 2 * s - 1,
        ;
        assert(q * pow2(k) == s * pow2(exponent) - 2 * h) by (nonlinear_arith)
            requires
                q == 2 * s - 1,
                pow2(k) == 2 * h,
                pow2(exponent) == 4 * h,
        ;
    }
    lemma_unit(magnitude(fr, before));
    lemma_round_between(fr, infinity, (n - small) as nat, 1, before);
}

proof fn lemma_unit(a: nat)
    ensures
        a * 1 == a,
{
}

fn split_sign(f: Format, x: u64) -> (r: (bool, u64))
    requires
        is_format(f),
        is_pattern(f, x),
    ensures
        r.0 == is_negative(f, x),
        r.1 == unsigned(f, x),
        r.1 < f.sign,
{
    if x >= f.sign {
        (true, x - f.sign)
    } else {
        (false, x)
    }
}

fn put_sign(f: Format, negative: bool, size: u64) -> (r: u64)
    requires
        is_format(f),
        size <= f.infinity,
    ensures
        r == with_sign(f, negative, size as nat),
{
    if negative {
        f.sign + size
    } else {
        size
    }
}

fn not_a_number(f: Format) -> (r: u64)
    requires
        is_format(f),
    ensures
        r == quiet_nan(f),
{
    proof {
        lemma_pow2_bound((f.fraction_bits - 1) as nat);
    }
    f.infinity + power(f.fraction_bits - 1) as u64
}

/// A number takes in another that is smaller by far.
proof fn lemma_far_apart(f: Format, a: u64, b: u64, pa: Parts, pb: Parts)
    requires
        is_format(f),
        is_pattern(f, a),
        is_pattern(f, b),
        unsigned(f, a) < f.infinity,
        unsigned(f, b) < f.infinity,
        size_of(f, a) == pa.mantissa as nat * pow2(pa.exponent as nat),
        size_of(f, b) == pb.mantissa as nat * pow2(pb.exponent as nat),
        pb.mantissa < 0x20_0000_0000_0000,
        pa.mantissa < 2 * pow2(f.fraction_bits as nat),
        pa.exponent == 0 || pa.mantissa >= pow2(f.fraction_bits as nat),
        unsigned(f, a) == pa.exponent * pow2(f.fraction_bits as nat) + pa.mantissa,
        pb.exponent + 58 < pa.exponent <= 2048,
    ensures
        a == sum(f, a, b),
{
    let ua = unsigned(f, a);
    let fr = f.fraction_bits as nat;
    let infinity = f.infinity as nat;
    let sa = size_of(f, a);
    let sb = size_of(f, b);
    let ea = pa.exponent as nat;
    let eb = pb.exponent as nat;
    lemma2_to64();
    lemma2_to64_rest();
    lemma_pow2_pos(eb);
    lemma_pow2_adds(53, eb);
    assert(sb < pow2(53) * pow2(eb)) by (nonlinear_arith)
        requires
            sb == pb.mantissa as nat * pow2(eb),
            pb.mantissa < pow2(53),
            pow2(eb) > 0,
    ;
    lemma_pow2_strictly_increases(53 + eb, (ea - 2) as nat);
    lemma_absorb(f, ua, pa.mantissa as nat, ea, sb);
    let n = if is_negative(f, a) == is_negative(f, b) {
        sa + sb
    } else {
        (sa - sb) as nat
    };
    assert(is_rounding(fr, infinity, n, 1, ua as nat));
    rounding_is_unique(fr, infinity, n, 1, ua as nat, rounded_in(f, n, 1));
}

/// The sum of two finite numbers of the same sign, in units of two to the `e`.
fn plus_alike(f: Format, a: u64, b: u64, large: u128, small: u128, e: u32) -> (r: u64)
    requires
        is_format(f),
        is_pattern(f, a),
        is_pattern(f, b),
        unsigned(f, a) < f.infinity,
        unsigned(f, b) < f.infinity,
        is_negative(f, a) == is_negative(f, b),
        size_of(f, a) == large as nat * pow2(e as nat),
        size_of(f, b) == small as nat * pow2(e as nat),
        large + small < 0x1_0000_0000_0000_0000_0000_0000_0000,
        e <= 2048,
    ensures
        r == sum(f, a, b),
{
    let (negative, _) = split_sign(f, a);
    let ghost scale = pow2(e as nat);
    let ghost n = size_of(f, a) + size_of(f, b);
    let total: u128 = large + small;
    proof {
        assert(total as nat * scale == n) by (nonlinear_arith)
            requires
                total == large + small,
                n == large as nat * scale + small as nat * scale,
        ;
        lemma_pow2_pos(e as nat);
        lemma_positive(total as nat, scale);
    }
    if total == 0 {
        return put_sign(f, negative, 0);
    }
    let rounded: u64 = round_pattern(f, total, e, 0);
    proof {
        lemma2_to64();
        rounding_is_unique(
            f.fraction_bits as nat,
            f.infinity as nat,
            n,
            1,
            rounded as nat,
            rounded_in(f, n, 1),
        );
    }
    put_sign(f, negative, rounded)
}

/// The sum of two finite numbers of different signs, in units of two to the `e`.
fn plus_unlike(f: Format, a: u64, b: u64, large: u128, small: u128, e: u32) -> (r: u64)
    requires
        is_format(f),
        is_pattern(f, a),
        is_pattern(f, b),
        unsigned(f, a) < f.infinity,
        unsigned(f, b) < f.infinity,
        is_negative(f, a) != is_negative(f, b),
        size_of(f, a) == large as nat * pow2(e as nat),
        size_of(f, b) == small as nat * pow2(e as nat),
        large < 0x1_0000_0000_0000_0000_0000_0000_0000,
        small < 0x1_0000_0000_0000_0000_0000_0000_0000,
        e <= 2048,
    ensures
        r == sum(f, a, b),
{
    let (negative_a, _) = split_sign(f, a);
    let ghost scale = pow2(e as nat);
    let ghost sa = size_of(f, a);
    let ghost sb = size_of(f, b);
    let first: bool = large >= small;
    let difference: u128 = if first {
        large - small
    } else {
        small - large
    };
    let negative: bool = first == negative_a;
    let ghost n = difference as nat * scale;
    proof {
        assert(first ==> n == sa - sb) by (nonlinear_arith)
            requires
                first ==> difference == large - small,
                n == difference as nat * scale,
                sa == large as nat * scale,
                sb == small as nat * scale,
        ;
        assert(!first ==> n == sb - sa) by (nonlinear_arith)
            requires
                !first ==> difference == small - large,
                n == difference as nat * scale,
                sa == large as nat * scale,
                sb == small as nat * scale,
        ;
        lemma_pow2_pos(e as nat);
        lemma_positive(difference as nat, scale);
    }
    if difference == 0 {
        return put_sign(f, false, 0);
    }
    let rounded: u64 = round_pattern(f, difference, e, 0);
    proof {
        lemma2_to64();
        rounding_is_unique(
            f.fraction_bits as nat,
            f.infinity as nat,
            n,
            1,
            rounded as nat,
            rounded_in(f, n, 1),
        );
    }
    put_sign(f, negative, rounded)
}

/// The sum of two finite numbers, the first with an exponent that is not smaller.
fn plus_finite(f: Format, a: u64, b: u64, pa: Parts, pb: Parts) -> (r: u64)
    requires
        is_format(f),
        is_pattern(f, a),
        is_pattern(f, b),
        unsigned(f, a) < f.infinity,
        unsigned(f, b) < f.infinity,
        size_of(f, a) == pa.mantissa as nat * pow2(pa.exponent as nat),
        size_of(f, b) == pb.mantissa as nat * pow2(pb.exponent as nat),
        pa.mantissa < 0x20_0000_0000_0000,
        pb.mantissa < 0x20_0000_0000_0000,
        pa.mantissa < 2 * pow2(f.fraction_bits as nat),
        pa.exponent == 0 || pa.mantissa >= pow2(f.fraction_bits as nat),
        unsigned(f, a) == pa.exponent * pow2(f.fraction_bits as nat) + pa.mantissa,
        pb.exponent <= pa.exponent <= 2048,
    ensures
        r == sum(f, a, b),
{
    let (negative_a, _) = split_sign(f, a);
    let (negative_b, _) = split_sign(f, b);
    let d: u32 = pa.exponent - pb.exponent;
    if d > 58 {
        proof {
            lemma_far_apart(f, a, b, pa, pb);
        }
        return a;
    }
    proof {
        lemma_pow2_bound(d as nat);
        lemma2_to64();
        lemma2_to64_rest();
        if d < 58 {
            lemma_pow2_strictly_increases(d as nat, 58);
        }
        lemma_product_bound(pa.mantissa as nat, pow2(d as nat));
        // The larger number in units of the smaller one's exponent.
        lemma_scale(pa.mantissa as nat, d as nat, pb.exponent as nat);
    }
    let large: u128 = pa.mantissa * power(d);
    let small: u128 = pb.mantissa;
    if negative_a == negative_b {
        plus_alike(f, a, b, large, small, pb.exponent)
    } else {
        plus_unlike(f, a, b, large, small, pb.exponent)
    }
}

proof fn lemma_positive(m: nat, scale: nat)
    requires
        scale > 0,
    ensures
        m > 0 <==> m * scale > 0,
        m == 0 ==> m * scale == 0,
{
    assert(m > 0 ==> m * scale > 0) by (nonlinear_arith)
        requires
            scale > 0,
    ;
    assert(m == 0 ==> m * scale == 0) by (nonlinear_arith);
}

proof fn lemma_product_bound(m: nat, p: nat)
    requires
        m < 0x20_0000_0000_0000,
        p <= pow2(58),
    ensures
        m * p < 0x8000_0000_0000_0000_0000_0000_0000,
{
    lemma2_to64();
    lemma2_to64_rest();
    assert(m * p < 0x8000_0000_0000_0000_0000_0000_0000) by (nonlinear_arith)
        requires
            m < 0x20_0000_0000_0000,
            p <= 0x400_0000_0000_0000,
    ;
}

/// The sum of two patterns.
fn plus(f: Format, a: u64, b: u64) -> (r: u64)
    requires
        is_format(f),
        is_pattern(f, a),
        is_pattern(f, b),
    ensures
        r == sum(f, a, b),
{
    let (negative_a, ua) = split_sign(f, a);
    let (negative_b, ub) = split_sign(f, b);
    if ua > f.infinity || ub > f.infinity {
        return not_a_number(f);
    }
    if ua == f.infinity && ub == f.infinity {
        return if negative_a == negative_b {
            a
        } else {
            not_a_number(f)
        };
    }
    if ua == f.infinity {
        return a;
    }
    if ub == f.infinity {
        return b;
    }
    let pa = unpack(f, ua);
    let pb = unpack(f, ub);
    if pa.exponent >= pb.exponent {
        plus_finite(f, a, b, pa, pb)
    } else {
        plus_finite(f, b, a, pb, pa)
    }
}

/// The product of two patterns.
fn times(f: Format, a: u64, b: u64) -> (r: u64)
    requires
        is_format(f),
        is_pattern(f, a),
        is_pattern(f, b),
    ensures
        r == product(f, a, b),
{
    let (negative_a, ua) = split_sign(f, a);
    let (negative_b, ub) = split_sign(f, b);
    if ua > f.infinity || ub > f.infinity {
        return not_a_number(f);
    }
    let negative: bool = negative_a != negative_b;
    if ua == f.infinity || ub == f.infinity {
        return if ua == 0 || ub == 0 {
            not_a_number(f)
        } else {
            put_sign(f, negative, f.infinity)
        };
    }
    let pa = unpack(f, ua);
    let pb = unpack(f, ub);
    let ghost n = size_of(f, a) * size_of(f, b);
    proof {
        let ma = pa.mantissa as nat;
        let mb = pb.mantissa as nat;
        let ea = pow2(pa.exponent as nat);
        let eb = pow2(pb.exponent as nat);
        assert(ma * mb < 0x400_0000_0000_0000_0000_0000_0000) by (nonlinear_arith)
            requires
                ma < 0x20_0000_0000_0000,
                mb < 0x20_0000_0000_0000,
        ;
        lemma_pow2_adds(pa.exponent as nat, pb.exponent as nat);
        assert((ma * ea) * (mb * eb) == (ma * mb) * (ea * eb)) by (nonlinear_arith);
    }
    let m: u128 = pa.mantissa * pb.mantissa;
    let rounded: u64 = round_pattern(f, m, pa.exponent + pb.exponent, f.least);
    proof {
        lemma_pow2_pos(f.least as nat);
        rounding_is_unique(
            f.fraction_bits as nat,
            f.infinity as nat,
            n,
            pow2(f.least as nat),
            rounded as nat,
            rounded_in(f, n, pow2(f.least as nat)),
        );
    }
    put_sign(f, negative, rounded)
}

/// IEEE division. What is not a number comes out as the quiet NaN without sign and payload.
pub open spec fn quotient(f: Format, a: u64, b: u64) -> u64 {
    let negative = is_negative(f, a) != is_negative(f, b);
    if is_nan(f, a) || is_nan(f, b) {
        quiet_nan(f)
    } else if is_infinite(f, a) {
        if is_infinite(f, b) {
            quiet_nan(f)
        } else {
            with_sign(f, negative, f.infinity as nat)
        }
    } else if is_infinite(f, b) {
        with_sign(f, negative, 0)
    } else if unsigned(f, b) == 0 {
        if unsigned(f, a) == 0 {
            quiet_nan(f)
        } else {
            with_sign(f, negative, f.infinity as nat)
        }
    } else {
        with_sign(
            f,
            negative,
            rounded_in(f, size_of(f, a) * pow2(f.least as nat), size_of(f, b)),
        )
    }
}

/// A mantissa with its highest bit at the place of the hidden one, and how far it was moved.
fn normalized(f: Format, mantissa: u128) -> (r: (u128, u32))
    requires
        is_format(f),
        0 < mantissa < 2 * pow2(f.fraction_bits as nat),
    ensures
        r.0 as nat == mantissa as nat * pow2(r.1 as nat),
        pow2(f.fraction_bits as nat) <= r.0 < 2 * pow2(f.fraction_bits as nat),
        r.1 <= 52,
{
    let ghost fr = f.fraction_bits as nat;
    proof {
        lemma_pow2_bound(fr);
        lemma2_to64();
        lemma2_to64_rest();
        if fr < 52 {
            lemma_pow2_strictly_increases(fr, 52);
        }
    }
    let step: u128 = power(f.fraction_bits);
    let mut m: u128 = mantissa;
    let mut shift: u32 = 0;
    assert(mantissa as nat * 1 == mantissa as nat);
    while m < step
        invariant
            step == pow2(fr),
            step <= 0x10_0000_0000_0000,
            0 < mantissa,
            fr <= 52,
            0 < m < 2 * step,
            m as nat == mantissa as nat * pow2(shift as nat),
            m >= pow2(shift as nat),
            shift <= fr,
        decreases fr - shift,
    {
        proof {
            let p = pow2(shift as nat);
            lemma_pow2_unfold((shift + 1) as nat);
            assert(mantissa as nat * (2 * p) == (m * 2) as nat) by (nonlinear_arith)
                requires
                    m as nat == mantissa as nat * p,
            ;
            if shift >= fr {
                assert(m >= step);
            }
        }
        m = m * 2;
        shift = shift + 1;
    }
    (m, shift)
}

/// The quotient of two fractions that stand for the same number, rounded.
proof fn lemma_fraction(
    f: nat,
    infinity: nat,
    n: nat,
    unit: nat,
    numerator: nat,
    denominator: nat,
    k: nat,
    q: nat,
)
    requires
        unit > 0,
        denominator > 0,
        f >= 1,
        numerator * (unit * pow2(k)) == n * denominator,
        q == numerator / denominator,
        q < 2 * pow2(f),
        k == 0 || pow2(f) <= q,
    ensures
        ({
            let rest = numerator % denominator;
            let p = k * pow2(f) + q;
            &&& p >= infinity ==> is_rounding(f, infinity, n, unit, infinity)
            &&& p < infinity && (2 * rest < denominator || 2 * rest == denominator && q % 2 == 0)
                ==> is_rounding(f, infinity, n, unit, p)
            &&& p < infinity && (2 * rest > denominator || 2 * rest == denominator && q % 2 == 1)
                ==> is_rounding(f, infinity, n, unit, p + 1)
        }),
{
    let rest = numerator % denominator;
    let w = unit * pow2(k);
    let p = k * pow2(f) + q;
    lemma_pow2_pos(k);
    assert(w > 0) by (nonlinear_arith)
        requires
            unit > 0,
            pow2(k) > 0,
            w == unit * pow2(k),
    ;
    vstd::arithmetic::div_mod::lemma_fundamental_div_mod(numerator as int, denominator as int);
    vstd::arithmetic::div_mod::lemma_mod_bound(numerator as int, denominator as int);
    lemma_pack(f, k, q);
    lemma_pack(f, k, q + 1);
    assert(k * pow2(f) + (q + 1) == p + 1);
    let low = magnitude(f, p) * unit;
    let high = magnitude(f, p + 1) * unit;
    let pk = pow2(k);
    assert(low == q * w) by (nonlinear_arith)
        requires
            low == (q * pk) * unit,
            w == unit * pk,
    ;
    assert(high == (q + 1) * w) by (nonlinear_arith)
        requires
            high == ((q + 1) * pk) * unit,
            w == unit * pk,
    ;
    assert((n - low) * denominator == rest * w) by (nonlinear_arith)
        requires
            numerator * w == n * denominator,
            numerator == denominator * q + rest,
            low == q * w,
    ;
    assert((high - n) * denominator == (denominator - rest) * w) by (nonlinear_arith)
        requires
            numerator * w == n * denominator,
            numerator == denominator * q + rest,
            high == (q + 1) * w,
    ;
    let below = n - low;
    let above = high - n;
    let missing = denominator - rest;
    lemma_sides(below, above, denominator as int, rest as int, missing, w as int);
    lemma_parity(k, f, q);
    if p >= infinity {
        if p > infinity {
            lemma_scaled_increases(f, infinity, p, unit);
        }
        lemma_round_above(f, infinity, n, unit);
    } else {
        lemma_round_between(f, infinity, n, unit, p);
    }
}

proof fn lemma_sides(below: int, above: int, denominator: int, rest: int, missing: int, w: int)
    requires
        denominator > 0,
        w > 0,
        rest >= 0,
        missing > 0,
        below * denominator == rest * w,
        above * denominator == missing * w,
    ensures
        below >= 0,
        above >= 0,
        rest < missing ==> below < above,
        rest == missing ==> below == above,
        rest > missing ==> below > above,
{
    assert(below >= 0) by (nonlinear_arith)
        requires
            denominator > 0,
            w > 0,
            rest >= 0,
            below * denominator == rest * w,
    ;
    assert(above >= 0) by (nonlinear_arith)
        requires
            denominator > 0,
            w > 0,
            missing >= 0,
            above * denominator == missing * w,
    ;
    assert(rest < missing ==> below < above) by (nonlinear_arith)
        requires
            denominator > 0,
            w > 0,
            below * denominator == rest * w,
            above * denominator == missing * w,
    ;
    assert(rest > missing ==> below > above) by (nonlinear_arith)
        requires
            denominator > 0,
            w > 0,
            below * denominator == rest * w,
            above * denominator == missing * w,
    ;
    assert(rest == missing ==> below == above) by (nonlinear_arith)
        requires
            denominator > 0,
            below * denominator == rest * w,
            above * denominator == missing * w,
    ;
}

/// `(ma * 2^sa) * (mb * 2^eb) * 2^x == (ma * 2^ea) * (mb * 2^sb) * 2^y` where the exponents agree.
proof fn lemma_cross(ma: nat, mb: nat, sa: nat, eb: nat, x: nat, ea: nat, sb: nat, y: nat)
    requires
        sa + eb + x == ea + sb + y,
    ensures
        (ma * pow2(sa)) * ((mb * pow2(eb)) * pow2(x)) == (ma * pow2(ea)) * ((mb * pow2(sb)) * pow2(
            y,
        )),
{
    lemma_pow2_adds(sa, eb);
    lemma_pow2_adds(sa + eb, x);
    lemma_pow2_adds(ea, sb);
    lemma_pow2_adds(ea + sb, y);
    let (p, q, r) = (pow2(sa), pow2(eb), pow2(x));
    let (u, v, t) = (pow2(ea), pow2(sb), pow2(y));
    assert((ma * p) * ((mb * q) * r) == (ma * mb) * ((p * q) * r)) by (nonlinear_arith);
    assert((ma * u) * ((mb * v) * t) == (ma * mb) * ((u * v) * t)) by (nonlinear_arith);
}

/// The pattern that the quotient of two finite numbers is rounded to, without its sign.
fn divide_finite(f: Format, a: Parts, b: Parts) -> (r: u64)
    requires
        is_format(f),
        0 < a.mantissa < 2 * pow2(f.fraction_bits as nat),
        0 < b.mantissa < 2 * pow2(f.fraction_bits as nat),
        a.exponent <= 2048,
        b.exponent <= 2048,
    ensures
        is_rounding(
            f.fraction_bits as nat,
            f.infinity as nat,
            a.mantissa as nat * pow2(a.exponent as nat) * pow2(f.least as nat),
            b.mantissa as nat * pow2(b.exponent as nat),
            r as nat,
        ),
{
    let fb: u32 = f.fraction_bits;
    let ghost fr = fb as nat;
    let ghost infinity = f.infinity as nat;
    let ghost ma0 = a.mantissa as nat;
    let ghost mb0 = b.mantissa as nat;
    let ghost up = a.exponent as nat + f.least as nat;
    let ghost n = ma0 * pow2(a.exponent as nat) * pow2(f.least as nat);
    let ghost unit = mb0 * pow2(b.exponent as nat);
    let (ma, sa) = normalized(f, a.mantissa);
    let (mb, sb) = normalized(f, b.mantissa);
    proof {
        lemma_scale(ma0, a.exponent as nat, f.least as nat);
        lemma_pow2_pos(b.exponent as nat);
        lemma_positive(mb0, pow2(b.exponent as nat));
        lemma_pow2_bound(fr);
        lemma2_to64();
        lemma2_to64_rest();
        if fr < 52 {
            lemma_pow2_strictly_increases(fr, 52);
        }
    }
    assert(n == ma0 * pow2(up));
    // The quotient is `ma / mb` times two to the `rise - fall`.
    let rise: u32 = a.exponent + f.least + sb;
    let fall: u32 = b.exponent + sa;
    let mut numerator: u128 = ma;
    let mut denominator: u128 = mb;
    let mut k: u32 = 0;
    if rise >= fall {
        let e: u32 = rise - fall;
        let full: u32 = if ma >= mb {
            fb
        } else {
            fb + 1
        };
        let j: u32 = if e >= full {
            full
        } else {
            e
        };
        k = e - j;
        let scale: u128 = power(j);
        proof {
            lemma_pow2_bound(j as nat);
            if j < 53 {
                lemma_pow2_strictly_increases(j as nat, 53);
            }
            lemma_numerator(ma as nat, scale as nat);
        }
        numerator = ma * scale;
        proof {
            lemma_cross(
                ma0,
                mb0,
                sa as nat,
                b.exponent as nat,
                e as nat,
                up,
                sb as nat,
                0,
            );
            lemma_pow2_adds(j as nat, k as nat);
            let pj = pow2(j as nat);
            let pk = pow2(k as nat);
            assert((ma as nat * pj) * (unit * pk) == ma as nat * (unit * (pj * pk)))
                by (nonlinear_arith);
            assert(n * (mb as nat * 1) == n * mb as nat) by (nonlinear_arith);
            lemma_quotient_range(ma as nat, mb as nat, fr, j as nat, full as nat);
        }
    } else {
        let e: u32 = fall - rise;
        if e > 60 {
            proof {
                lemma_far_below(
                    f,
                    n,
                    unit,
                    ma as nat,
                    mb as nat,
                    ma0,
                    mb0,
                    sa as nat,
                    b.exponent as nat,
                    up,
                    sb as nat,
                    e as nat,
                );
            }
            return 0;
        }
        let scale: u128 = power(e);
        proof {
            lemma_pow2_bound(e as nat);
            lemma_pow2_bound(60);
            if e < 60 {
                lemma_pow2_strictly_increases(e as nat, 60);
            }
            lemma_numerator(mb as nat, scale as nat);
        }
        denominator = mb * scale;
        proof {
            lemma_cross(
                ma0,
                mb0,
                sa as nat,
                b.exponent as nat,
                0,
                up,
                sb as nat,
                e as nat,
            );
            assert(unit * 1 == unit) by (nonlinear_arith);
            lemma_small_quotient(ma as nat, mb as nat, scale as nat, fr);
        }
    }
    proof {
        assert(numerator as nat * (unit * pow2(k as nat)) == n * denominator as nat);
        assert(denominator > 0);
    }
    let q: u128 = numerator / denominator;
    let rest: u128 = numerator % denominator;
    proof {
        lemma_fraction(
            fr,
            infinity,
            n,
            unit,
            numerator as nat,
            denominator as nat,
            k as nat,
            q as nat,
        );
        lemma_high(k as nat, pow2(fr));
    }
    let pattern: u128 = k as u128 * power(fb) + q;
    if pattern >= f.infinity as u128 {
        return f.infinity;
    }
    let twice: u128 = 2 * rest;
    if twice > denominator || twice == denominator && q % 2 == 1 {
        (pattern + 1) as u64
    } else {
        pattern as u64
    }
}

proof fn lemma_numerator(m: nat, scale: nat)
    requires
        m < 0x20_0000_0000_0000,
        0 < scale <= 0x1000_0000_0000_0000,
    ensures
        m * scale < 0x2_0000_0000_0000_0000_0000_0000_0000,
        m > 0 ==> m * scale > 0,
{
    assert(m * scale < 0x2_0000_0000_0000_0000_0000_0000_0000) by (nonlinear_arith)
        requires
            m < 0x20_0000_0000_0000,
            0 < scale <= 0x1000_0000_0000_0000,
    ;
    assert(m > 0 ==> m * scale > 0) by (nonlinear_arith)
        requires
            scale > 0,
    ;
}

/// The quotient of normalized mantissas fills exactly the bits of a mantissa.
proof fn lemma_quotient_range(ma: nat, mb: nat, f: nat, j: nat, full: nat)
    requires
        pow2(f) <= ma < 2 * pow2(f),
        pow2(f) <= mb < 2 * pow2(f),
        full == if ma >= mb {
            f
        } else {
            f + 1
        },
        j <= full,
    ensures
        (ma * pow2(j)) / mb < 2 * pow2(f),
        j == full ==> (ma * pow2(j)) / mb >= pow2(f),
{
    let s = pow2(f);
    lemma_pow2_unfold(f + 1);
    lemma_pow2_pos(j);
    lemma_pow2_pos(full);
    if j < full {
        lemma_pow2_strictly_increases(j, full);
    }
    let x = ma * pow2(j);
    let top = ma * pow2(full);
    assert(x <= top) by (nonlinear_arith)
        requires
            x == ma * pow2(j),
            top == ma * pow2(full),
            pow2(j) <= pow2(full),
    ;
    if ma >= mb {
        assert(top < (2 * s) * mb) by (nonlinear_arith)
            requires
                top == ma * s,
                ma < 2 * s,
                s <= mb,
                s > 0,
        ;
        assert(top >= s * mb) by (nonlinear_arith)
            requires
                top == ma * s,
                ma >= mb,
        ;
    } else {
        assert(top < (2 * s) * mb) by (nonlinear_arith)
            requires
                top == ma * (2 * s),
                ma < mb,
                s > 0,
        ;
        assert(top >= s * mb) by (nonlinear_arith)
            requires
                top == ma * (2 * s),
                mb < 2 * s,
                s <= ma,
                s > 0,
        ;
    }
    lemma_division(x, mb, 2 * s, s);
    lemma_division(top, mb, 2 * s, s);
}

proof fn lemma_division(x: nat, d: nat, above: nat, least: nat)
    requires
        d > 0,
    ensures
        x < above * d ==> x / d < above,
        x >= least * d ==> x / d >= least,
{
    vstd::arithmetic::div_mod::lemma_fundamental_div_mod(x as int, d as int);
    vstd::arithmetic::div_mod::lemma_mod_bound(x as int, d as int);
    let q = x / d;
    let r = x % d;
    assert(x < above * d ==> q < above) by (nonlinear_arith)
        requires
            x == d * q + r,
            0 <= r < d,
    ;
    assert(x >= least * d ==> q >= least) by (nonlinear_arith)
        requires
            x == d * q + r,
            0 <= r < d,
    ;
}

proof fn lemma_small_quotient(ma: nat, mb: nat, scale: nat, f: nat)
    requires
        pow2(f) <= ma < 2 * pow2(f),
        pow2(f) <= mb < 2 * pow2(f),
        scale >= 1,
    ensures
        ma / (mb * scale) < 2 * pow2(f),
        mb * scale > 0,
{
    lemma_pow2_pos(f);
    let s = pow2(f);
    assert(mb * scale >= mb) by (nonlinear_arith)
        requires
            scale >= 1,
    ;
    assert(ma < (2 * s) * (mb * scale)) by (nonlinear_arith)
        requires
            ma < 2 * s,
            mb * scale >= 1,
    ;
    lemma_division(ma, mb * scale, 2 * s, 0);
}

/// A quotient far below the least positive number is rounded to zero.
proof fn lemma_far_below(
    f: Format,
    n: nat,
    unit: nat,
    ma: nat,
    mb: nat,
    ma0: nat,
    mb0: nat,
    sa: nat,
    eb: nat,
    up: nat,
    sb: nat,
    e: nat,
)
    requires
        is_format(f),
        unit > 0,
        n == ma0 * pow2(up),
        unit == mb0 * pow2(eb),
        ma == ma0 * pow2(sa),
        mb == mb0 * pow2(sb),
        pow2(f.fraction_bits as nat) <= ma < 2 * pow2(f.fraction_bits as nat),
        pow2(f.fraction_bits as nat) <= mb < 2 * pow2(f.fraction_bits as nat),
        e > 60,
        sa + eb == up + sb + e,
    ensures
        is_rounding(f.fraction_bits as nat, f.infinity as nat, n, unit, 0),
{
    let fr = f.fraction_bits as nat;
    lemma_cross(ma0, mb0, sa, eb, 0, up, sb, e);
    lemma2_to64();
    lemma_pow2_strictly_increases(2, e);
    assert(pow2(2) == 4) by {
        lemma2_to64();
    }
    let big = pow2(e);
    assert(unit * 1 == unit) by (nonlinear_arith);
    assert(ma * unit == n * (mb * big));
    // `2 * n < unit`, for `ma < 2 * mb` and `big > 4`.
    assert(2 * n < unit) by (nonlinear_arith)
        requires
            ma * unit == n * (mb * big),
            ma < 2 * mb,
            big > 4,
            mb > 0,
            unit > 0,
    ;
    lemma_zero(fr);
    lemma_pow2_pos(fr);
    lemma_pow2_strictly_increases(0, fr);
    lemma_pack(fr, 0, 1);
    assert(magnitude(fr, 1) == 1) by (nonlinear_arith)
        requires
            magnitude(fr, 0 * pow2(fr) + 1) == 1 * pow2(0),
            pow2(0) == 1,
    ;
    assert(0 * unit == 0) by (nonlinear_arith);
    assert(1 * unit == unit) by (nonlinear_arith);
    lemma_round_between(fr, f.infinity as nat, n, unit, 0);
}

/// The quotient of two patterns.
fn over(f: Format, a: u64, b: u64) -> (r: u64)
    requires
        is_format(f),
        is_pattern(f, a),
        is_pattern(f, b),
    ensures
        r == quotient(f, a, b),
{
    let (negative_a, ua) = split_sign(f, a);
    let (negative_b, ub) = split_sign(f, b);
    if ua > f.infinity || ub > f.infinity {
        return not_a_number(f);
    }
    let negative: bool = negative_a != negative_b;
    if ua == f.infinity {
        return if ub == f.infinity {
            not_a_number(f)
        } else {
            put_sign(f, negative, f.infinity)
        };
    }
    if ub == f.infinity {
        return put_sign(f, negative, 0);
    }
    let ghost fr = f.fraction_bits as nat;
    if ub == 0 {
        return if ua == 0 {
            not_a_number(f)
        } else {
            put_sign(f, negative, f.infinity)
        };
    }
    let ghost n = size_of(f, a) * pow2(f.least as nat);
    let ghost unit = size_of(f, b);
    proof {
        lemma_zero(fr);
        magnitude_increases(fr, 0, ub as nat);
        if ua > 0 {
            magnitude_increases(fr, 0, ua as nat);
        }
    }
    let pa = unpack(f, ua);
    let pb = unpack(f, ub);
    proof {
        lemma_pow2_pos(pa.exponent as nat);
        lemma_pow2_pos(pb.exponent as nat);
        lemma_positive(pa.mantissa as nat, pow2(pa.exponent as nat));
        lemma_positive(pb.mantissa as nat, pow2(pb.exponent as nat));
    }
    if ua == 0 {
        proof {
            assert(n == 0) by (nonlinear_arith)
                requires
                    n == size_of(f, a) * pow2(f.least as nat),
                    size_of(f, a) == 0,
            ;
            lemma_zero_rounds_to_zero(f, unit);
            rounding_is_unique(fr, f.infinity as nat, n, unit, 0, rounded_in(f, n, unit));
        }
        return put_sign(f, negative, 0);
    }
    let rounded: u64 = divide_finite(f, pa, pb);
    proof {
        rounding_is_unique(
            fr,
            f.infinity as nat,
            n,
            unit,
            rounded as nat,
            rounded_in(f, n, unit),
        );
    }
    put_sign(f, negative, rounded)
}

proof fn lemma_zero_rounds_to_zero(f: Format, unit: nat)
    requires
        unit > 0,
    ensures
        is_rounding(f.fraction_bits as nat, f.infinity as nat, 0, unit, 0),
{
    let fr = f.fraction_bits as nat;
    lemma_zero(fr);
    assert(0 * unit == 0) by (nonlinear_arith);
    assert forall|q: nat| #![trigger magnitude(fr, q)] q <= f.infinity && q != 0 implies magnitude(
        fr,
        q,
    ) * unit > 0 by {
        lemma_scaled_increases(fr, 0, q, unit);
    }
}

/// Whether the number of `a` is below that of `b`. Nothing is below or above what is not a number.
pub open spec fn is_below(f: Format, a: u64, b: u64) -> bool {
    !is_nan(f, a) && !is_nan(f, b) && value_of(f, a) < value_of(f, b)
}

fn below(f: Format, a: u64, b: u64) -> (r: bool)
    requires
        is_format(f),
        is_pattern(f, a),
        is_pattern(f, b),
    ensures
        r == is_below(f, a, b),
{
    let (negative_a, ua) = split_sign(f, a);
    let (negative_b, ub) = split_sign(f, b);
    if ua > f.infinity || ub > f.infinity {
        return false;
    }
    proof {
        let fr = f.fraction_bits as nat;
        lemma_zero(fr);
        if ua < ub {
            magnitude_increases(fr, ua as nat, ub as nat);
        }
        if ub < ua {
            magnitude_increases(fr, ub as nat, ua as nat);
        }
        if ua > 0 {
            magnitude_increases(fr, 0, ua as nat);
        }
        if ub > 0 {
            magnitude_increases(fr, 0, ub as nat);
        }
    }
    if negative_a {
        if negative_b {
            ua > ub
        } else {
            ua > 0 || ub > 0
        }
    } else {
        !negative_b && ua < ub
    }
}

/// Whether `a` and `b` are the same number. The two zeros are; what is not a number is the same as
/// nothing, not even as itself.
pub open spec fn is_equal(f: Format, a: u64, b: u64) -> bool {
    !is_nan(f, a) && !is_nan(f, b) && value_of(f, a) == value_of(f, b)
}

fn equal(f: Format, a: u64, b: u64) -> (r: bool)
    requires
        is_format(f),
        is_pattern(f, a),
        is_pattern(f, b),
    ensures
        r == is_equal(f, a, b),
{
    let (negative_a, ua) = split_sign(f, a);
    let (negative_b, ub) = split_sign(f, b);
    if ua > f.infinity || ub > f.infinity {
        return false;
    }
    proof {
        let fr = f.fraction_bits as nat;
        lemma_zero(fr);
        if ua < ub {
            magnitude_increases(fr, ua as nat, ub as nat);
        }
        if ub < ua {
            magnitude_increases(fr, ub as nat, ua as nat);
        }
        if ua > 0 {
            magnitude_increases(fr, 0, ua as nat);
        }
        if ub > 0 {
            magnitude_increases(fr, 0, ub as nat);
        }
    }
    ua == ub && (negative_a == negative_b || ua == 0)
}

/// Of two numbers one is below the other, or they are equal.
pub proof fn numbers_are_below_above_or_equal(f: Format, a: u64, b: u64)
    requires
        !is_nan(f, a),
        !is_nan(f, b),
    ensures
        is_equal(f, a, b) == (!is_below(f, a, b) && !is_below(f, b, a)),
{
}

/// The pattern with the other sign.
pub open spec fn opposite(f: Format, a: u64) -> u64 {
    with_sign(f, !is_negative(f, a), unsigned(f, a) as nat)
}

/// Every number is rounded to some pattern.
pub proof fn lemma_rounding_exists(f: nat, infinity: nat, n: nat, unit: nat)
    requires
        unit > 0,
    ensures
        is_rounding(f, infinity, n, unit, rounded(f, infinity, n, unit)),
{
    if magnitude(f, infinity) * unit <= n {
        lemma_round_above(f, infinity, n, unit);
    } else {
        let p = lemma_floor(f, infinity, n, unit);
        lemma_round_between(f, infinity, n, unit, p);
    }
}

/// The last pattern that stands for no more than `n / unit`.
proof fn lemma_floor(f: nat, above: nat, n: nat, unit: nat) -> (p: nat)
    requires
        unit > 0,
        magnitude(f, above) * unit > n,
    ensures
        p < above,
        magnitude(f, p) * unit <= n < magnitude(f, p + 1) * unit,
    decreases above,
{
    if above == 0 {
        lemma_zero(f);
        assert(0 * unit == 0) by (nonlinear_arith);
        0
    } else {
        let p = (above - 1) as nat;
        if magnitude(f, p) * unit <= n {
            p
        } else {
            lemma_floor(f, p, n, unit)
        }
    }
}

pub proof fn lemma_zero(f: nat)
    ensures
        magnitude(f, 0) == 0,
{
    lemma_pow2_pos(f);
    lemma_pack(f, 0, 0);
    assert(0 * pow2(0) == 0) by (nonlinear_arith);
    assert(0 * pow2(f) + 0 == 0) by (nonlinear_arith);
}

/// A number that a pattern stands for is rounded to that pattern.
pub proof fn lemma_exact(f: nat, infinity: nat, p: nat)
    requires
        p <= infinity,
    ensures
        rounded(f, infinity, magnitude(f, p), 1) == p,
{
    let n = magnitude(f, p);
    lemma_rounding_exists(f, infinity, n, 1);
    assert(is_rounding(f, infinity, n, 1, p)) by {
        assert forall|q: nat| #![trigger magnitude(f, q)] q <= infinity && q != p implies distance(
            magnitude(f, q) * 1,
            n,
        ) > 0 by {
            if q < p {
                magnitude_increases(f, q, p);
            } else {
                magnitude_increases(f, p, q);
            }
        }
    }
    rounding_is_unique(f, infinity, n, 1, p, rounded(f, infinity, n, 1));
}

/// A number that is not negative, infinity included. Zero may carry a sign.
pub open spec fn is_non_negative(f: Format, x: u64) -> bool {
    x <= f.infinity || x == f.sign
}

/// The place of a number that is not negative in the total order: zero with a sign comes before
/// zero without one.
pub open spec fn rank(f: Format, x: u64) -> int {
    if x == f.sign {
        -1
    } else {
        x as int
    }
}

/// The sum of numbers that are not negative, infinity included, is their exact sum rounded.
proof fn lemma_sum_non_negative(f: Format, a: u64, b: u64)
    requires
        is_format(f),
        is_non_negative(f, a),
        is_non_negative(f, b),
    ensures
        is_non_negative(f, sum(f, a, b)),
        a == f.sign && b == f.sign ==> sum(f, a, b) == f.sign,
        !(a == f.sign && b == f.sign) ==> sum(f, a, b) == rounded_in(
            f,
            size_of(f, a) + size_of(f, b),
            1,
        ) && sum(f, a, b) <= f.infinity,
{
    let fr = f.fraction_bits as nat;
    let infinity = f.infinity as nat;
    let n = size_of(f, a) + size_of(f, b);
    lemma_zero(fr);
    lemma_rounding_exists(fr, infinity, n, 1);
    lemma_exact(fr, infinity, 0);
    if a == f.infinity || b == f.infinity {
        lemma_round_above(fr, infinity, n, 1);
        rounding_is_unique(fr, infinity, n, 1, infinity, rounded(fr, infinity, n, 1));
    }
}

/// Adding the same to two numbers that are not negative keeps their order.
pub proof fn adding_keeps_the_order(f: Format, a: u64, b: u64, c: u64)
    requires
        is_format(f),
        is_non_negative(f, a),
        is_non_negative(f, b),
        is_non_negative(f, c),
        rank(f, a) <= rank(f, b),
    ensures
        is_non_negative(f, sum(f, a, c)),
        is_non_negative(f, sum(f, b, c)),
        rank(f, sum(f, a, c)) <= rank(f, sum(f, b, c)),
{
    let fr = f.fraction_bits as nat;
    let infinity = f.infinity as nat;
    lemma_sum_non_negative(f, a, c);
    lemma_sum_non_negative(f, b, c);
    lemma_zero(fr);
    let na = size_of(f, a) + size_of(f, c);
    let nb = size_of(f, b) + size_of(f, c);
    if unsigned(f, a) < unsigned(f, b) {
        magnitude_increases(fr, unsigned(f, a) as nat, unsigned(f, b) as nat);
    }
    assert(na <= nb);
    lemma_rounding_exists(fr, infinity, na, 1);
    lemma_rounding_exists(fr, infinity, nb, 1);
    rounding_is_monotone(
        fr,
        infinity,
        na,
        nb,
        1,
        rounded(fr, infinity, na, 1),
        rounded(fr, infinity, nb, 1),
    );
}

/// The product of finite numbers that are not negative is not negative.
pub proof fn multiplying_stays_non_negative(f: Format, a: u64, b: u64)
    requires
        is_format(f),
        is_non_negative(f, a),
        is_non_negative(f, b),
        a != f.infinity,
        b != f.infinity,
    ensures
        is_non_negative(f, product(f, a, b)),
{
    let fr = f.fraction_bits as nat;
    let infinity = f.infinity as nat;
    let unit = pow2(f.least as nat);
    lemma_pow2_pos(f.least as nat);
    lemma_zero(fr);
    let n = size_of(f, a) * size_of(f, b);
    lemma_rounding_exists(fr, infinity, n, unit);
    if a == f.sign || b == f.sign {
        assert(n == 0) by (nonlinear_arith)
            requires
                n == size_of(f, a) * size_of(f, b),
                size_of(f, a) == 0 || size_of(f, b) == 0,
        ;
        lemma_zero_rounds_to_zero(f, unit);
        rounding_is_unique(fr, infinity, n, unit, 0, rounded(fr, infinity, n, unit));
    }
}

/// The format of [`Float64`].
pub open spec fn binary64() -> Format {
    Format {
        fraction_bits: 52,
        infinity: 0x7ff0_0000_0000_0000,
        sign: 0x8000_0000_0000_0000,
        least: 1074,
    }
}

fn binary64_format() -> (r: Format)
    ensures
        r == binary64(),
{
    Format {
        fraction_bits: 52,
        infinity: 0x7ff0_0000_0000_0000,
        sign: 0x8000_0000_0000_0000,
        least: 1074,
    }
}

/// The format of [`Float32`].
pub open spec fn binary32() -> Format {
    Format {
        fraction_bits: 23,
        infinity: 0x7f80_0000,
        sign: 0x8000_0000,
        least: 149,
    }
}

fn binary32_format() -> (r: Format)
    ensures
        r == binary32(),
{
    Format {
        fraction_bits: 23,
        infinity: 0x7f80_0000,
        sign: 0x8000_0000,
        least: 149,
    }
}

pub proof fn the_formats_are_formats()
    ensures
        is_format(binary64()),
        is_format(binary32()),
{
    lemma2_to64();
    lemma2_to64_rest();
}

/// A number of the IEEE format binary64, by its bits.
#[derive(Debug, Clone, Copy)]
pub struct Float64 {
    pub bits: u64,
}

impl PartialEq for Float64 {
    fn eq(&self, other: &Self) -> (r: bool) {
        proof {
            the_formats_are_formats();
        }
        equal(binary64_format(), self.bits, other.bits)
    }
}

impl PartialEqSpecImpl for Float64 {
    open spec fn obeys_eq_spec() -> bool {
        true
    }

    open spec fn eq_spec(&self, other: &Self) -> bool {
        is_equal(binary64(), self.bits, other.bits)
    }
}

impl Float64 {
    /// Finite and not below zero. Zero may carry a sign.
    pub open spec fn is_cost(self) -> bool {
        self.bits < binary64().infinity || self.bits == binary64().sign
    }

    pub fn is_finite_non_negative(self) -> (r: bool)
        ensures
            r == self.is_cost(),
    {
        self.bits < 0x7ff0_0000_0000_0000 || self.bits == 0x8000_0000_0000_0000
    }

    /// The place of the number in the total order of the format.
    pub open spec fn total_rank(self) -> int {
        if self.bits >= binary64().sign {
            -(self.bits - binary64().sign) - 1
        } else {
            self.bits as int
        }
    }

    /// Whether this number comes before `other` in the total order of the format.
    pub fn is_totally_before(self, other: Self) -> (r: bool)
        ensures
            r == (self.total_rank() < other.total_rank()),
    {
        let sign: u64 = 0x8000_0000_0000_0000;
        if self.bits >= sign {
            other.bits < sign || self.bits > other.bits
        } else {
            other.bits < sign && self.bits < other.bits
        }
    }

    pub open spec fn add_spec(self, other: Self) -> Self {
        Float64 { bits: sum(binary64(), self.bits, other.bits) }
    }

    pub fn plus(self, other: Self) -> (r: Self)
        ensures
            r == self.add_spec(other),
    {
        proof {
            the_formats_are_formats();
        }
        Float64 { bits: plus(binary64_format(), self.bits, other.bits) }
    }

    pub open spec fn mul_spec(self, other: Self) -> Self {
        Float64 { bits: product(binary64(), self.bits, other.bits) }
    }

    pub fn times(self, other: Self) -> (r: Self)
        ensures
            r == self.mul_spec(other),
    {
        proof {
            the_formats_are_formats();
        }
        Float64 { bits: times(binary64_format(), self.bits, other.bits) }
    }

    pub open spec fn div_spec(self, other: Self) -> Self {
        Float64 { bits: quotient(binary64(), self.bits, other.bits) }
    }

    pub fn divided_by(self, other: Self) -> (r: Self)
        ensures
            r == self.div_spec(other),
    {
        proof {
            the_formats_are_formats();
        }
        Float64 { bits: over(binary64_format(), self.bits, other.bits) }
    }
}

/// A number of the IEEE format binary32, by its bits.
#[derive(Debug, Clone, Copy)]
pub struct Float32 {
    pub bits: u32,
}

impl PartialEq for Float32 {
    fn eq(&self, other: &Self) -> (r: bool) {
        proof {
            the_formats_are_formats();
        }
        equal(binary32_format(), self.bits as u64, other.bits as u64)
    }
}

impl PartialEqSpecImpl for Float32 {
    open spec fn obeys_eq_spec() -> bool {
        true
    }

    open spec fn eq_spec(&self, other: &Self) -> bool {
        is_equal(binary32(), self.bits as u64, other.bits as u64)
    }
}

impl Float32 {
    /// Finite and above zero.
    pub open spec fn is_positive(self) -> bool {
        0 < self.bits < binary32().infinity
    }

    pub fn is_finite_positive(self) -> (r: bool)
        ensures
            r == self.is_positive(),
    {
        0 < self.bits && self.bits < 0x7f80_0000
    }

    pub open spec fn add_spec(self, other: Self) -> Self {
        Float32 { bits: sum(binary32(), self.bits as u64, other.bits as u64) as u32 }
    }

    pub fn plus(self, other: Self) -> (r: Self)
        ensures
            r == self.add_spec(other),
    {
        proof {
            the_formats_are_formats();
        }
        Float32 { bits: plus(binary32_format(), self.bits as u64, other.bits as u64) as u32 }
    }

    pub open spec fn mul_spec(self, other: Self) -> Self {
        Float32 { bits: product(binary32(), self.bits as u64, other.bits as u64) as u32 }
    }

    pub fn times(self, other: Self) -> (r: Self)
        ensures
            r == self.mul_spec(other),
    {
        proof {
            the_formats_are_formats();
        }
        Float32 { bits: times(binary32_format(), self.bits as u64, other.bits as u64) as u32 }
    }

    pub open spec fn div_spec(self, other: Self) -> Self {
        Float32 { bits: quotient(binary32(), self.bits as u64, other.bits as u64) as u32 }
    }

    pub fn divided_by(self, other: Self) -> (r: Self)
        ensures
            r == self.div_spec(other),
    {
        proof {
            the_formats_are_formats();
        }
        Float32 { bits: over(binary32_format(), self.bits as u64, other.bits as u64) as u32 }
    }

    /// The number with the other sign.
    pub open spec fn neg_spec(self) -> Self {
        Float32 { bits: opposite(binary32(), self.bits as u64) as u32 }
    }

    pub fn negated(self) -> (r: Self)
        ensures
            r == self.neg_spec(),
    {
        if self.bits >= 0x8000_0000 {
            Float32 { bits: self.bits - 0x8000_0000 }
        } else {
            Float32 { bits: self.bits + 0x8000_0000 }
        }
    }

    pub open spec fn less_spec(self, other: Self) -> bool {
        is_below(binary32(), self.bits as u64, other.bits as u64)
    }

    pub fn is_less(self, other: Self) -> (r: bool)
        ensures
            r == self.less_spec(other),
    {
        proof {
            the_formats_are_formats();
        }
        below(binary32_format(), self.bits as u64, other.bits as u64)
    }

    /// Zero, with or without a sign.
    pub open spec fn is_zero_spec(self) -> bool {
        self.bits == 0 || self.bits == binary32().sign
    }

    pub fn is_zero(self) -> (r: bool)
        ensures
            r == self.is_zero_spec(),
    {
        self.bits == 0 || self.bits == 0x8000_0000
    }
}

} // verus!
