use resp_kv::error::RedisError;
use resp_kv::protocol::array::Array;

fn strings(args: &[&str]) -> Vec<String> {
    args.iter().map(|arg| arg.to_string()).collect()
}

fn frame(args: &[&str]) -> Array {
    Array::new(args.len(), strings(args))
}

fn details_of(error: RedisError) -> String {
    match error {
        RedisError::DeserializationError { details, .. } => details,
    }
}

fn raw_of(error: RedisError) -> String {
    match error {
        RedisError::DeserializationError {
            raw_redis_message, ..
        } => raw_redis_message,
    }
}

#[test]
fn serialize_writes_count_and_length_headers() {
    assert_eq!(
        frame(&["echo", "Hello, world!"]).serialize(),
        "*2\r\n$4\r\necho\r\n$13\r\nHello, world!\r\n"
    );
    assert_eq!(Array::new(0, Vec::new()).serialize(), "*0\r\n");
}

#[test]
fn serialize_counts_characters_not_bytes() {
    assert_eq!(frame(&["héllo"]).serialize(), "*1\r\n$5\r\nhéllo\r\n");
}

#[test]
fn serialize_writes_numbers_of_several_digits() {
    let args: Vec<&str> = std::iter::repeat("x").take(12).collect();
    let text = frame(&args).serialize();
    assert!(text.starts_with("*12\r\n$1\r\nx\r\n"));
    assert_eq!(text.len(), 5 + 12 * 7);
    assert_eq!(
        frame(&["0123456789012345678901234567890123456789"]).serialize(),
        "*1\r\n$40\r\n0123456789012345678901234567890123456789\r\n"
    );
}

#[test]
fn frame_round_trip_keeps_arguments_verbatim() {
    let cases: Vec<Vec<&str>> = vec![
        vec!["echo", "Hello, World!"],
        vec!["set", "Key", "VaLuE"],
        vec!["set", "k", "v", "PX", "1500"],
        vec!["get", "Some Key"],
        vec!["echo", ""],
        vec!["echo", "ends with return\r"],
        vec!["echo", "star * inside"],
    ];
    for args in cases {
        let mut buffer = frame(&args).serialize();
        let decoded = Array::deserialize(&mut buffer).unwrap();
        assert_eq!(decoded, frame(&args));
        assert!(buffer.is_empty());
    }
}

#[test]
fn argument_that_looks_like_a_header_is_not_kept() {
    let mut buffer = frame(&["echo", "$5"]).serialize();
    assert!(Array::deserialize(&mut buffer).is_err());
    assert!(buffer.is_empty());
}

#[test]
fn two_frames_in_one_buffer_come_out_in_order() {
    let first = frame(&["set", "a", "b"]);
    let second = frame(&["get", "a"]);
    let second_text = frame(&["get", "a"]).serialize();
    let mut buffer = first.serialize() + &second_text;
    assert_eq!(
        Array::deserialize(&mut buffer).unwrap(),
        frame(&["set", "a", "b"])
    );
    assert_eq!(buffer, second_text);
    assert_eq!(Array::deserialize(&mut buffer).unwrap(), second);
    assert!(buffer.is_empty());
}

#[test]
fn split_before_the_last_line_is_decoded_after_the_second_piece() {
    let whole = frame(&["set", "key", "value"]).serialize();
    let last_line_start = whole.len() - "value\r\n".len();
    for cut in 0..=last_line_start {
        let mut buffer = whole[..cut].to_string();
        assert!(Array::deserialize(&mut buffer).is_err(), "cut at {}", cut);
        assert_eq!(buffer, &whole[..cut], "cut at {}", cut);
        buffer.push_str(&whole[cut..]);
        assert_eq!(
            Array::deserialize(&mut buffer).unwrap(),
            frame(&["set", "key", "value"]),
            "cut at {}",
            cut
        );
        assert!(buffer.is_empty());
    }
}

#[test]
fn split_inside_the_last_line_is_decoded_at_once() {
    let mut buffer = "*1\r\n$4\r\npi".to_string();
    assert_eq!(Array::deserialize(&mut buffer).unwrap(), frame(&["pi"]));
    assert!(buffer.is_empty());
}

#[test]
fn no_marker_empties_the_buffer() {
    let mut buffer = "no marker here\r\n$4\r\n".to_string();
    let error = Array::deserialize(&mut buffer).unwrap_err();
    assert!(buffer.is_empty());
    assert_eq!(
        details_of(error),
        "Couldn't find asterisk in a buffer"
    );
    let mut buffer = "junk".to_string();
    assert_eq!(
        raw_of(Array::deserialize(&mut buffer).unwrap_err()),
        "junk"
    );
}

#[test]
fn incomplete_frame_stays_from_the_marker_on() {
    let mut buffer = "junk*2\r\n$4\r\necho\r\n$2\r\n".to_string();
    let error = Array::deserialize(&mut buffer).unwrap_err();
    assert_eq!(buffer, "*2\r\n$4\r\necho\r\n$2\r\n");
    assert_eq!(
        details_of(error),
        "Not enough args for array. Message: '*2\r\n$4\r\necho\r\n$2\r\n'"
    );
    buffer.push_str("hi\r\n");
    assert_eq!(
        Array::deserialize(&mut buffer).unwrap(),
        frame(&["echo", "hi"])
    );
}

#[test]
fn missing_count_is_an_error_and_keeps_the_marker() {
    let mut buffer = "xx*\r\n$4\r\nping\r\n".to_string();
    let error = Array::deserialize(&mut buffer).unwrap_err();
    assert_eq!(buffer, "*\r\n$4\r\nping\r\n");
    assert_eq!(details_of(error), "cannot parse integer from empty string");
    let mut buffer = "*abc\r\n".to_string();
    let error = Array::deserialize(&mut buffer).unwrap_err();
    assert_eq!(raw_of(error), "*abc\r\n");
}

#[test]
fn count_that_does_not_fit_is_an_error() {
    let mut buffer = "*99999999999999999999999999\r\n$4\r\nping\r\n".to_string();
    let error = Array::deserialize(&mut buffer).unwrap_err();
    assert_eq!(buffer, "*99999999999999999999999999\r\n$4\r\nping\r\n");
    assert_eq!(details_of(error), "number too large to fit in target type");
}

#[test]
fn huge_count_is_incomplete() {
    let text = format!("*{}\r\n$4\r\nping\r\n", usize::MAX);
    let mut buffer = text.clone();
    let error = Array::deserialize(&mut buffer).unwrap_err();
    assert_eq!(buffer, text);
    assert!(details_of(error).starts_with("Not enough args for array."));
}

#[test]
fn count_ends_at_the_first_character_that_is_no_digit() {
    let mut buffer = "*1abc\r\n$4\r\nping\r\n".to_string();
    assert_eq!(Array::deserialize(&mut buffer).unwrap(), frame(&["ping"]));
    assert!(buffer.is_empty());
}

#[test]
fn wrong_number_of_arguments_is_an_error_and_consumes_the_lines() {
    let mut buffer = "*1\r\nping\r\nfoo\r\n$1\r\n".to_string();
    let error = Array::deserialize(&mut buffer).unwrap_err();
    assert_eq!(buffer, "$1\r\n");
    match error {
        RedisError::DeserializationError {
            raw_redis_message,
            details,
        } => {
            assert_eq!(raw_redis_message, "$1\r\n");
            assert_eq!(
                details,
                "Array is incomplete Array(size: 1, args: [\"ping\", \"foo\"])"
            );
        }
    }
}

#[test]
fn frame_without_arguments_is_decoded() {
    let mut buffer = "*0\r\nnext".to_string();
    assert_eq!(
        Array::deserialize(&mut buffer).unwrap(),
        Array::new(0, Vec::new())
    );
    assert_eq!(buffer, "next\r\n");
}

#[test]
fn bare_line_feeds_end_lines_too() {
    let mut buffer = "*1\n$4\nping\nrest\nmore".to_string();
    assert_eq!(Array::deserialize(&mut buffer).unwrap(), frame(&["ping"]));
    assert_eq!(buffer, "rest\r\nmore\r\n");
}

#[test]
fn carriage_return_without_line_feed_stays_in_the_line() {
    let mut buffer = "*1\r\n$4\r\nping\r".to_string();
    assert_eq!(
        Array::deserialize(&mut buffer).unwrap(),
        frame(&["ping\r"])
    );
}

#[test]
fn describe_lists_the_arguments() {
    assert_eq!(
        frame(&["get", "a\"b"]).describe(),
        "Array(size: 2, args: [\"get\", \"a\\\"b\"])"
    );
    assert_eq!(
        frame(&["get"]).describe_with("[]"),
        "Array(size: 1, args: [])"
    );
}

#[test]
fn array_grows_until_it_is_complete() {
    let mut array = Array::new(2, Vec::new());
    assert!(!array.is_complete());
    assert_eq!(array.args_count(), 0);
    array.add_element("get".to_string());
    assert!(!array.is_complete());
    array.add_element("key".to_string());
    assert!(array.is_complete());
    assert_eq!(array.args_count(), 2);
    assert_eq!(array, frame(&["get", "key"]));
}

#[test]
fn length_header_is_not_held_against_the_argument() {
    let mut buffer = "*2\r\n$999\r\necho\r\n$0\r\nhello\r\n".to_string();
    assert_eq!(
        Array::deserialize(&mut buffer).unwrap(),
        frame(&["echo", "hello"])
    );
    assert!(buffer.is_empty());
}

#[test]
fn line_feed_inside_an_argument_ends_it() {
    let mut buffer = frame(&["echo", "a\nb"]).serialize();
    assert_eq!(buffer, "*2\r\n$4\r\necho\r\n$3\r\na\nb\r\n");
    assert_eq!(
        Array::deserialize(&mut buffer).unwrap(),
        frame(&["echo", "a"])
    );
    assert_eq!(buffer, "b\r\n");
}
