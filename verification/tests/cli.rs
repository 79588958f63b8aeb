use vrb::cli::{check_bench, first_mismatch, median, parse_byte, sorted_samples};
use vrb::float::{Float32, Float64};
use vrb::text::{append_hexadecimal, append_joined, append_signed_decimal, characters, parse_number};
use vrb::text::{append_decimal, append_wide_decimal, NumberFault};

fn doubles(values: &[f64]) -> Vec<Float64> {
    values.iter().map(|v| Float64 { bits: v.to_bits() }).collect()
}

fn double(value: Float64) -> f64 {
    f64::from_bits(value.bits)
}

fn single(value: f32) -> Float32 {
    Float32 { bits: value.to_bits() }
}

#[test]
fn median_handles_even_and_odd_sample_counts() {
    assert_eq!(double(median(&doubles(&[1.0, 2.0, 3.0]))), 2.0);
    assert_eq!(double(median(&doubles(&[1.0, 2.0, 3.0, 4.0]))), 2.5);
}

#[test]
fn parse_byte_accepts_decimal_and_hex() {
    assert_eq!(parse_byte("90").unwrap(), 90);
    assert_eq!(parse_byte("0x5a").unwrap(), 0x5a);
    assert!(parse_byte("0x100").is_err());
}

#[test]
fn bytes_are_read_as_the_standard_library_reads_them() {
    for text in ["", "+7", "-1", "256", "255", "0", "007", "1 2", "+", "12a", "\u{664}"] {
        let expected = text.parse::<u8>().map_err(|e| format!("invalid byte '{text}': {e}"));
        assert_eq!(parse_byte(text), expected);
        let written = format!("0X{text}");
        let expected =
            u8::from_str_radix(text, 16).map_err(|e| format!("invalid byte '{written}': {e}"));
        assert_eq!(parse_byte(&written), expected);
    }
    assert_eq!(parse_byte("  0xFf\n"), Ok(255));
    for byte in 0..=255_u8 {
        assert_eq!(parse_byte(&byte.to_string()), Ok(byte));
    }
}

#[test]
fn benchmarks_need_elements_and_iterations() {
    assert_eq!(check_bench(1, 1), Ok(()));
    assert_eq!(check_bench(0, 0), Err("--elements must be greater than zero"));
    assert_eq!(check_bench(1, 0), Err("--iterations must be greater than zero"));
    let left = [single(1.0), single(2.0), single(3.0)];
    let good = [single(2.0), single(4.0), single(6.0)];
    let bad = [single(2.0), single(4.5), single(6.5)];
    assert_eq!(first_mismatch(&left, &left, &good), None);
    assert_eq!(first_mismatch(&left, &left, &bad), Some(1));
}

#[test]
fn samples_are_sorted_in_total_order() {
    let mut values = vec![3.0, -0.0, 0.0, f64::NAN, 1.5, -f64::NAN, 1.5, f64::INFINITY, -2.0, 1e-310];
    let sorted = sorted_samples(&doubles(&values));
    values.sort_by(f64::total_cmp);
    let bits: Vec<u64> = sorted.iter().map(|sample| sample.bits).collect();
    let expected: Vec<u64> = values.iter().map(|value| value.to_bits()).collect();
    assert_eq!(bits, expected);
}

#[test]
fn texts_are_written_and_read() {
    let mut out = String::new();
    append_decimal(&mut out, u64::MAX);
    append_signed_decimal(&mut out, i32::MIN);
    append_hexadecimal(&mut out, 0x73bf, 4);
    append_hexadecimal(&mut out, 0xf, 2);
    append_wide_decimal(&mut out, u128::MAX);
    assert_eq!(
        out,
        format!("{}{}{:04x}{:02x}{}", u64::MAX, i32::MIN, 0x73bf, 0xf, u128::MAX)
    );
    let mut list = "[".to_owned();
    append_joined(&mut list, &["a".to_owned(), "".to_owned(), "c".to_owned()], ", ");
    assert_eq!(list, "[a, , c");
    assert_eq!(characters("a\u{e9}\u{1f600}"), ['a', '\u{e9}', '\u{1f600}']);
    assert_eq!(parse_number(&characters("18446744073709551615"), 10, u64::MAX), Ok(u64::MAX));
    assert_eq!(
        parse_number(&characters("18446744073709551616"), 10, u64::MAX),
        Err(NumberFault::TooLarge)
    );
}
