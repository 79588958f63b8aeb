use vrb::float::{Float32, Float64};

const SINGLES: [u32; 22] = [
    0,
    0x8000_0000,
    1,
    0x8000_0001,
    0x007f_ffff,
    0x0080_0000,
    0x0080_0001,
    0x3f80_0000,
    0xbf80_0000,
    0x3f80_0001,
    0x3f7f_ffff,
    0x4000_0000,
    0x4040_0000,
    0x3eaa_aaab,
    0x7f7f_ffff,
    0xff7f_ffff,
    0x7f80_0000,
    0xff80_0000,
    0x7fc0_0000,
    0x7f80_0001,
    0x0012_3456,
    0x4b80_0001,
];

fn same_single(actual: Float32, expected: f32) -> bool {
    actual.bits == expected.to_bits()
        || (f32::from_bits(actual.bits).is_nan() && expected.is_nan())
}

fn same_double(actual: Float64, expected: f64) -> bool {
    actual.bits == expected.to_bits()
        || (f64::from_bits(actual.bits).is_nan() && expected.is_nan())
}

fn check_singles(left: u32, right: u32) {
    let (a, b) = (Float32 { bits: left }, Float32 { bits: right });
    let (x, y) = (f32::from_bits(left), f32::from_bits(right));
    assert!(same_single(a.plus(b), x + y), "{x:e} + {y:e}");
    assert!(same_single(a.times(b), x * y), "{x:e} * {y:e}");
    assert!(same_single(a.divided_by(b), x / y), "{x:e} / {y:e}");
    assert_eq!(a.is_less(b), x < y);
    assert_eq!(a.is_zero(), x == 0.0);
    assert_eq!(a.negated().bits, (-x).to_bits());
    assert_eq!(a.is_finite_positive(), x.is_finite() && x > 0.0);
}

fn check_doubles(left: u64, right: u64) {
    let (a, b) = (Float64 { bits: left }, Float64 { bits: right });
    let (x, y) = (f64::from_bits(left), f64::from_bits(right));
    assert!(same_double(a.plus(b), x + y), "{x:e} + {y:e}");
    assert!(same_double(a.times(b), x * y), "{x:e} * {y:e}");
    assert!(same_double(a.divided_by(b), x / y), "{x:e} / {y:e}");
    assert_eq!(a.is_totally_before(b), x.total_cmp(&y).is_lt());
    assert_eq!(a.is_finite_non_negative(), x.is_finite() && x >= 0.0);
}

#[test]
fn singles_agree_with_the_hardware_at_the_edges() {
    for left in SINGLES {
        for right in SINGLES {
            check_singles(left, right);
        }
    }
}

fn next(state: &mut u64) -> u64 {
    *state ^= *state << 13;
    *state ^= *state >> 7;
    *state ^= *state << 17;
    *state
}

#[test]
fn singles_agree_with_the_hardware_on_many_values() {
    let mut state = 0x9e37_79b9_7f4a_7c15_u64;
    for _ in 0..20_000 {
        let word = next(&mut state);
        let (left, right) = (word as u32, (word >> 32) as u32);
        check_singles(left, right);
        let near = (left & 0x80ff_ffff) | 0x3f00_0000;
        check_singles(near, (right & 0x80ff_ffff) | 0x3f00_0000);
        check_singles(left & 0x80ff_ffff, near);
    }
}

#[test]
fn doubles_agree_with_the_hardware() {
    let mut state = 0x1234_5678_9abc_def1_u64;
    for single in SINGLES {
        let wide = f64::from(f32::from_bits(single)).to_bits();
        check_doubles(wide, 0x3ff0_0000_0000_0001);
        check_doubles(1, wide);
        check_doubles(wide, 0x7fef_ffff_ffff_ffff);
    }
    for _ in 0..20_000 {
        let (left, right) = (next(&mut state), next(&mut state));
        check_doubles(left, right);
        check_doubles(
            (left & 0x803f_ffff_ffff_ffff) | 0x3fc0_0000_0000_0000,
            (right & 0x803f_ffff_ffff_ffff) | 0x3fc0_0000_0000_0000,
        );
    }
}

#[test]
fn numbers_are_equal_as_in_hardware() {
    for left in SINGLES {
        for right in SINGLES {
            assert_eq!(
                Float32 { bits: left } == Float32 { bits: right },
                f32::from_bits(left) == f32::from_bits(right),
                "{left:#x} {right:#x}"
            );
        }
    }
    let doubles = [0.0, -0.0, 1.0, -1.0, f64::MIN_POSITIVE, f64::INFINITY, f64::NEG_INFINITY, f64::NAN];
    for left in doubles {
        for right in doubles {
            assert_eq!(
                Float64 { bits: left.to_bits() } == Float64 { bits: right.to_bits() },
                left == right
            );
        }
    }
}
