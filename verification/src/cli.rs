//! What the command line decides: how bytes are written, and how a benchmark is checked and summed
//! up.

use crate::cpu;
use crate::exact;
use crate::float;
use crate::float::{Float32, Float64};
use crate::text;
use crate::text::NumberFault;
use vstd::prelude::*;
use vstd::string::*;

verus! {

/// The byte that a text stands for: in hexadecimal behind `0x` or `0X`, else in decimal.
pub open spec fn byte_value(trimmed: Seq<char>) -> Result<nat, NumberFault> {
    if trimmed.len() >= 2 && trimmed[0] == '0' && (trimmed[1] == 'x' || trimmed[1] == 'X') {
        text::number_value(trimmed.skip(2), 16, 255)
    } else {
        text::number_value(trimmed, 10, 255)
    }
}

/// Reads a byte, with white space around it or not.
pub fn parse_byte(value: &str) -> (r: Result<u8, String>)
    ensures
        match r {
            Ok(byte) => byte_value(text::trimmed(value@)) == Ok::<nat, NumberFault>(byte as nat),
            Err(reason) => {
                &&& byte_value(text::trimmed(value@)) matches Err(fault)
                &&& reason@ == "invalid byte '"@ + value@ + "': "@ + fault.text()
            },
        },
{
    let trimmed = text::characters(text::trim(value));
    let hexadecimal: bool = trimmed.len() >= 2 && trimmed[0] == '0' && (trimmed[1] == 'x'
        || trimmed[1] == 'X');
    let parsed = if hexadecimal {
        let mut digits: Vec<char> = Vec::new();
        let mut i: usize = 2;
        while i < trimmed.len()
            invariant
                2 <= i <= trimmed@.len(),
                digits@ == trimmed@.subrange(2, i as int),
            decreases trimmed@.len() - i,
        {
            digits.push(trimmed[i]);
            assert(digits@ =~= trimmed@.subrange(2, i + 1));
            i = i + 1;
        }
        assert(digits@ =~= trimmed@.skip(2));
        text::parse_number(digits.as_slice(), 16, 255)
    } else {
        text::parse_number(trimmed.as_slice(), 10, 255)
    };
    proof {
        text::lemma_number_is_no_larger(trimmed@, 10, 255);
        text::lemma_number_is_no_larger(trimmed@.skip(2), 16, 255);
    }
    match parsed {
        Ok(byte) => Ok(byte as u8),
        Err(fault) => {
            let mut reason = "invalid byte '".to_owned();
            reason.append(value);
            reason.append("': ");
            reason.append(fault.message());
            Err(reason)
        },
    }
}

/// A byte is read as it is written in decimal.
pub proof fn a_byte_is_read_as_written(byte: u8)
    ensures
        byte_value(text::decimal(byte as nat)) == Ok::<nat, NumberFault>(byte as nat),
{
    let written = text::decimal(byte as nat);
    text::a_decimal_is_read_as_written(byte as nat, 255);
    text::lemma_decimal_is_made_of_digits(byte as nat);
}

/// What is wrong with the size of a benchmark.
pub open spec fn bench_fault(elements: usize, iterations: u32) -> Option<&'static str> {
    if elements == 0 {
        Some("--elements must be greater than zero")
    } else if iterations == 0 {
        Some("--iterations must be greater than zero")
    } else {
        None
    }
}

pub fn check_bench(elements: usize, iterations: u32) -> (r: Result<(), &'static str>)
    ensures
        match r {
            Ok(_) => bench_fault(elements, iterations) is None,
            Err(reason) => bench_fault(elements, iterations) == Some(reason),
        },
{
    if elements == 0 {
        return Err("--elements must be greater than zero");
    }
    if iterations == 0 {
        return Err("--iterations must be greater than zero");
    }
    Ok(())
}

/// The first element that is not the sum of the two before it, to the bit.
pub fn first_mismatch(left: &[Float32], right: &[Float32], output: &[Float32]) -> (r: Option<usize>)
    requires
        left@.len() == right@.len() == output@.len(),
    ensures
        match r {
            Some(i) => {
                &&& i < output@.len()
                &&& output@[i as int] != left@[i as int].add_spec(right@[i as int])
                &&& forall|j: int|
                    #![trigger output@[j]]
                    0 <= j < i ==> output@[j] == left@[j].add_spec(right@[j])
            },
            None => cpu::is_vector_sum(left@, right@, output@),
        },
{
    let mut i: usize = 0;
    while i < output.len()
        invariant
            i <= output@.len(),
            left@.len() == right@.len() == output@.len(),
            forall|j: int|
                #![trigger output@[j]]
                0 <= j < i ==> output@[j] == left@[j].add_spec(right@[j]),
        decreases output@.len() - i,
    {
        if output[i].bits != left[i].plus(right[i]).bits {
            return Some(i);
        }
        i = i + 1;
    }
    None
}

/// Whether samples stand in the total order of their format.
pub open spec fn is_sorted(samples: Seq<Float64>) -> bool {
    forall|i: int, j: int|
        #![trigger samples[i], samples[j]]
        0 <= i <= j < samples.len() ==> samples[i].total_rank() <= samples[j].total_rank()
}

/// Where `sample` belongs among sorted samples: behind all that do not come after it.
fn place_among(samples: &Vec<Float64>, sample: Float64) -> (r: usize)
    requires
        is_sorted(samples@),
    ensures
        r <= samples@.len(),
        forall|i: int|
            #![trigger samples@[i]]
            0 <= i < r ==> samples@[i].total_rank() <= sample.total_rank(),
        forall|i: int|
            #![trigger samples@[i]]
            r <= i < samples@.len() ==> sample.total_rank() < samples@[i].total_rank(),
{
    let mut low: usize = 0;
    let mut high: usize = samples.len();
    while low < high
        invariant
            low <= high <= samples@.len(),
            is_sorted(samples@),
            forall|i: int|
                #![trigger samples@[i]]
                0 <= i < low ==> samples@[i].total_rank() <= sample.total_rank(),
            forall|i: int|
                #![trigger samples@[i]]
                high <= i < samples@.len() ==> sample.total_rank() < samples@[i].total_rank(),
        decreases high - low,
    {
        let middle: usize = low + (high - low) / 2;
        if sample.is_totally_before(samples[middle]) {
            high = middle;
        } else {
            low = middle + 1;
        }
    }
    low
}

/// The samples in the total order of their format.
pub fn sorted_samples(samples: &[Float64]) -> (r: Vec<Float64>)
    ensures
        is_sorted(r@),
        r@.to_multiset() == samples@.to_multiset(),
        r@.len() == samples@.len(),
{
    broadcast use vstd::seq_lib::group_to_multiset_ensures;

    let mut r: Vec<Float64> = Vec::new();
    let mut i: usize = 0;
    assert(samples@.take(0) =~= Seq::empty());
    while i < samples.len()
        invariant
            i <= samples@.len(),
            is_sorted(r@),
            r@.len() == i,
            r@.to_multiset() == samples@.take(i as int).to_multiset(),
        decreases samples@.len() - i,
    {
        let sample = samples[i];
        let place: usize = place_among(&r, sample);
        let ghost before = r@;
        r.insert(place, sample);
        proof {
            assert(r@.remove(place as int) =~= before);
            r@.to_multiset_ensures();
            assert(r@[place as int] == sample);
            assert(r@.contains(sample));
            assert(r@.to_multiset() =~= before.to_multiset().insert(sample));
            assert(samples@.take(i + 1) =~= samples@.take(i as int).push(sample));
            samples@.take(i as int).to_multiset_ensures();
        }
        i = i + 1;
    }
    assert(samples@.take(i as int) =~= samples@);
    r
}

/// The middle of sorted samples, or half the sum of the two in the middle.
pub open spec fn median_of(samples: Seq<Float64>) -> Float64 {
    let middle = samples.len() as int / 2;
    if samples.len() % 2 == 0 {
        samples[middle - 1].add_spec(samples[middle]).div_spec(two())
    } else {
        samples[middle]
    }
}

/// 2.0
pub open spec fn two() -> Float64 {
    Float64 { bits: 0x4000_0000_0000_0000 }
}

pub fn median(samples: &[Float64]) -> (r: Float64)
    requires
        samples@.len() > 0,
    ensures
        r == median_of(samples@),
{
    let middle: usize = samples.len() / 2;
    if samples.len() % 2 == 0 {
        samples[middle - 1].plus(samples[middle]).divided_by(
            Float64 { bits: 0x4000_0000_0000_0000 },
        )
    } else {
        samples[middle]
    }
}

/// The median of samples is the one in the middle or, of an even number of them, half the sum of
/// the two in the middle: of whole microseconds, twice the median is that sum.
pub proof fn the_median_is_in_the_middle(samples: Seq<Float64>, below: int, above: int)
    requires
        samples.len() > 0,
    ensures
        samples.len() % 2 == 1 ==> median_of(samples) == samples[(samples.len() - 1) / 2],
        samples.len() % 2 == 0 && samples[samples.len() / 2 - 1].is_integer(below)
            && samples[samples.len() as int / 2].is_integer(above) && -0x20_0000_0000_0000 <= below
            + above <= 0x20_0000_0000_0000 ==> exact::is_number(
            float::binary64(),
            median_of(samples).bits,
            (below + above) * vstd::arithmetic::power2::pow2(1073),
        ),
{
    let f = float::binary64();
    let middle = samples.len() as int / 2;
    if samples.len() % 2 == 0 && samples[middle - 1].is_integer(below)
        && samples[middle].is_integer(above) && -0x20_0000_0000_0000 <= below + above
        <= 0x20_0000_0000_0000 {
        let sum = samples[middle - 1].add_spec(samples[middle]);
        let unit = vstd::arithmetic::power2::pow2(1074) as int;
        let half = vstd::arithmetic::power2::pow2(1073) as int;
        let n = below + above;
        Float64::integers_are_exact(samples[middle - 1], samples[middle], below, above);
        Float64::zero_to_four();
        exact::the_formats_are_wide();
        vstd::arithmetic::power2::lemma_pow2_unfold(1074);
        vstd::arithmetic::power2::lemma_pow2_pos(1073);
        vstd::arithmetic::power2::lemma2_to64();
        vstd::arithmetic::power2::lemma2_to64_rest();
        exact::small_multiples_have_patterns(f, n, 1073);
        assert((n * half) * (2 * unit) == (n * unit) * unit) by (nonlinear_arith)
            requires
                unit == 2 * half,
        ;
        exact::an_exact_quotient_is_not_rounded(
            f,
            sum.bits,
            two().bits,
            n * unit,
            2 * unit,
            n * half,
        );
    }
}

/// A benchmark can be run if and only if it has elements and iterations.
pub proof fn a_benchmark_that_can_be_run(elements: usize, iterations: u32)
    ensures
        bench_fault(elements, iterations) is None <==> elements > 0 && iterations > 0,
{
}

/// Two hexadecimal digits behind `0x` or `0X` are a byte: sixteen times the first and the second.
pub proof fn a_hexadecimal_byte(prefix: char, high: char, low: char)
    requires
        prefix == 'x' || prefix == 'X',
        '0' <= high <= '9' || 'a' <= high <= 'f' || 'A' <= high <= 'F',
        '0' <= low <= '9' || 'a' <= low <= 'f' || 'A' <= low <= 'F',
    ensures
        ({
            let value = |c: char|
                if c <= '9' {
                    c as int - 48
                } else if c <= 'F' {
                    c as int - 55
                } else {
                    c as int - 87
                };
            byte_value(seq!['0', prefix, high, low]) == Ok::<nat, NumberFault>(
                (16 * value(high) + value(low)) as nat,
            )
        }),
{
    let text = seq!['0', prefix, high, low];
    let digits = text.skip(2);
    assert(digits =~= seq![high, low]);
    assert(digits.drop_last() =~= seq![high]);
    assert(seq![high].drop_last() =~= Seq::<char>::empty());
    reveal_with_fuel(text::digits_value, 3);
}

/// The median over all numbers: of an even number of samples, the two in the middle are added and
/// the sum is divided by two.
pub proof fn the_median_of_an_even_number(samples: Seq<Float64>, two: Float64)
    requires
        samples.len() > 0,
        samples.len() % 2 == 0,
        two.is_integer(2),
        two.bits < 0x8000_0000_0000_0000,
    ensures
        median_of(samples) == samples[samples.len() / 2 - 1].add_spec(
            samples[samples.len() as int / 2],
        ).div_spec(two),
{
    Float64::zero_to_four();
    let other = self::two();
    if two.bits < other.bits {
        float::magnitude_increases(52, two.bits as nat, other.bits as nat);
    }
    if other.bits < two.bits {
        float::magnitude_increases(52, other.bits as nat, two.bits as nat);
    }
}

} // verus!
