use textutils::head::head_bytes;
use textutils::head::head_lines;
use textutils::head::parse_positive_int;

#[test]
fn test_parse_positive_int() {
    // 3 is an OK integer
    let result = parse_positive_int("3");
    assert!(result.is_ok());
    assert_eq!(result.unwrap(), 3);

    // Any string is an error
    let result = parse_positive_int("foo");
    assert!(result.is_err());
    assert_eq!(result.unwrap_err().to_string(), "foo".to_string());

    // A zero is an error
    let result = parse_positive_int("0");
    assert!(result.is_err());
    assert_eq!(result.unwrap_err().to_string(), "0".to_string());
}

#[test]
fn parse_accepts_leading_plus() {
    assert_eq!(parse_positive_int("+5").unwrap(), 5);
}

#[test]
fn parse_rejects_sign_alone_and_empty() {
    assert_eq!(parse_positive_int("+").unwrap_err(), "+");
    assert_eq!(parse_positive_int("").unwrap_err(), "");
}

#[test]
fn parse_rejects_values_over_the_machine_word() {
    // One more than usize::MAX on a 64-bit machine.
    assert!(parse_positive_int("18446744073709551616").is_err());
    assert_eq!(
        parse_positive_int("18446744073709551615").unwrap(),
        usize::MAX
    );
}

#[test]
fn parse_rejects_interior_garbage() {
    assert_eq!(parse_positive_int("12x").unwrap_err(), "12x");
    assert_eq!(parse_positive_int(" 3").unwrap_err(), " 3");
}

#[test]
fn head_lines_takes_a_prefix_of_lines() {
    assert_eq!(head_lines("a\nb\nc\n", 2), "a\nb\n");
    assert_eq!(head_lines("a\nb\nc\n", 0), "");
}

#[test]
fn head_lines_short_source_is_returned_whole() {
    assert_eq!(head_lines("a\nb\n", 10), "a\nb\n");
    assert_eq!(head_lines("a\nb", 10), "a\nb");
    assert_eq!(head_lines("", 10), "");
}

#[test]
fn head_lines_keeps_a_trailing_partial_line() {
    assert_eq!(head_lines("a\nbcd", 2), "a\nbcd");
    assert_eq!(head_lines("a\nbcd", 1), "a\n");
}

#[test]
fn head_bytes_takes_exactly_the_first_bytes() {
    let data: Vec<u8> = b"abcdef".to_vec();
    assert_eq!(head_bytes(&data, 3), b"abc".to_vec());
    assert_eq!(head_bytes(&data, 0), Vec::<u8>::new());
    assert_eq!(head_bytes(&data, 6), data);
}

#[test]
fn head_bytes_short_source_is_returned_whole() {
    let data: Vec<u8> = b"ab".to_vec();
    assert_eq!(head_bytes(&data, 100), data);
}

#[test]
fn head_bytes_needs_no_line_alignment() {
    let data: Vec<u8> = b"one\ntwo\n".to_vec();
    assert_eq!(head_bytes(&data, 5), b"one\nt".to_vec());
}
