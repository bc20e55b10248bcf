use ttygif::errors::ReplayError;
use ttygif::timing::parse_timing_line;

#[test]
fn parses_simple_line() {
    let line = b"0.5 3".to_vec();
    let rec = parse_timing_line(&line).unwrap();
    assert_eq!(rec.delay_secs, 0);
    assert_eq!(rec.delay_nanos, 500_000_000);
    assert_eq!(rec.byte_count, 3);
    assert_eq!(rec.delay_token, b"0.5".to_vec());
}

#[test]
fn pacing_decomposition_of_two_point_five() {
    let line = b"2.5 1".to_vec();
    let rec = parse_timing_line(&line).unwrap();
    assert_eq!(rec.delay_secs, 2);
    assert_eq!(rec.delay_nanos, 500_000_000);
}

#[test]
fn zero_byte_chunk_line_is_valid() {
    let line = b"1.0 0".to_vec();
    let rec = parse_timing_line(&line).unwrap();
    assert_eq!(rec.delay_secs, 1);
    assert_eq!(rec.delay_nanos, 0);
    assert_eq!(rec.byte_count, 0);
}

#[test]
fn reparsing_gives_identical_record() {
    let line = b"0.123456 42".to_vec();
    let first = parse_timing_line(&line).unwrap();
    let second = parse_timing_line(&line).unwrap();
    assert_eq!(first, second);
}

#[test]
fn delay_without_fraction() {
    let line = b"3 9".to_vec();
    let rec = parse_timing_line(&line).unwrap();
    assert_eq!(rec.delay_secs, 3);
    assert_eq!(rec.delay_nanos, 0);
    assert_eq!(rec.byte_count, 9);
}

#[test]
fn delay_with_trailing_dot() {
    let line = b"2. 1".to_vec();
    let rec = parse_timing_line(&line).unwrap();
    assert_eq!(rec.delay_secs, 2);
    assert_eq!(rec.delay_nanos, 0);
}

#[test]
fn long_fraction_is_truncated_to_nanoseconds() {
    let line = b"0.1234567899 1".to_vec();
    let rec = parse_timing_line(&line).unwrap();
    assert_eq!(rec.delay_nanos, 123_456_789);
}

#[test]
fn three_tokens_is_malformed() {
    let line = b"0.1 2 3".to_vec();
    assert_eq!(parse_timing_line(&line), Err(ReplayError::MalformedTimingLine));
}

#[test]
fn one_token_is_malformed() {
    let line = b"0.1".to_vec();
    assert_eq!(parse_timing_line(&line), Err(ReplayError::MalformedTimingLine));
}

#[test]
fn empty_line_is_malformed() {
    let line = Vec::new();
    assert_eq!(parse_timing_line(&line), Err(ReplayError::MalformedTimingLine));
}

#[test]
fn alphabetic_delay_is_malformed() {
    let line = b"a 1".to_vec();
    assert_eq!(parse_timing_line(&line), Err(ReplayError::MalformedTimingLine));
}

#[test]
fn alphabetic_count_is_malformed() {
    let line = b"1 b".to_vec();
    assert_eq!(parse_timing_line(&line), Err(ReplayError::MalformedTimingLine));
}

#[test]
fn double_dot_delay_is_malformed() {
    let line = b"1..2 3".to_vec();
    assert_eq!(parse_timing_line(&line), Err(ReplayError::MalformedTimingLine));
}

#[test]
fn dot_without_integer_part_is_malformed() {
    let line = b".5 3".to_vec();
    assert_eq!(parse_timing_line(&line), Err(ReplayError::MalformedTimingLine));
}

#[test]
fn leading_space_is_malformed() {
    let line = b" 1 2".to_vec();
    assert_eq!(parse_timing_line(&line), Err(ReplayError::MalformedTimingLine));
}

#[test]
fn overflowing_seconds_is_malformed() {
    let line = b"99999999999999999999 1".to_vec();
    assert_eq!(parse_timing_line(&line), Err(ReplayError::MalformedTimingLine));
}

#[test]
fn negative_delay_is_malformed() {
    let line = b"-1.0 2".to_vec();
    assert_eq!(parse_timing_line(&line), Err(ReplayError::MalformedTimingLine));
}

#[test]
fn seconds_at_the_u64_boundary() {
    let line = b"18446744073709551615 1".to_vec();
    let rec = parse_timing_line(&line).unwrap();
    assert_eq!(rec.delay_secs, u64::MAX);

    let line = b"18446744073709551616 1".to_vec();
    assert_eq!(parse_timing_line(&line), Err(ReplayError::MalformedTimingLine));
}

#[test]
fn overflowing_byte_count_is_malformed() {
    let line = b"0.1 99999999999999999999999".to_vec();
    assert_eq!(parse_timing_line(&line), Err(ReplayError::MalformedTimingLine));
}

#[test]
fn leading_zeros_are_accepted() {
    let line = b"007.250 0010".to_vec();
    let rec = parse_timing_line(&line).unwrap();
    assert_eq!(rec.delay_secs, 7);
    assert_eq!(rec.delay_nanos, 250_000_000);
    assert_eq!(rec.byte_count, 10);
    assert_eq!(rec.delay_token, b"007.250".to_vec());
}
