use resp_kv::error::RedisError;
use resp_kv::protocol::array::Array;
use resp_kv::protocol::request::Request;
use resp_kv::protocol::set::SetRequest;

fn frame(args: &[&str]) -> Array {
    Array::new(args.len(), args.iter().map(|arg| arg.to_string()).collect())
}

fn parts(error: RedisError) -> (String, String) {
    match error {
        RedisError::DeserializationError {
            raw_redis_message,
            details,
        } => (raw_redis_message, details),
    }
}

fn set_of(key: &str, value: &str, expiry: Option<u64>) -> SetRequest {
    SetRequest {
        key: key.to_string(),
        value: value.to_string(),
        expiration_timeout_ms: expiry,
    }
}

#[test]
fn ping_ignores_further_arguments() {
    assert_eq!(
        Request::try_from(frame(&["PING", "extra"])).unwrap(),
        Request::Ping
    );
}

#[test]
fn command_name_is_matched_in_any_case() {
    assert_eq!(
        Request::try_from(frame(&["EcHo", "MiXeD"])).unwrap(),
        Request::Echo("MiXeD".to_string())
    );
    assert_eq!(
        Request::try_from(frame(&["GET", "Key"])).unwrap(),
        Request::Get("Key".to_string())
    );
    assert_eq!(
        Request::try_from(frame(&["Set", "A", "B"])).unwrap(),
        Request::SetKey(set_of("A", "B", None))
    );
}

#[test]
fn from_command_takes_the_name_in_lower_case() {
    assert_eq!(
        Request::from_command("get", frame(&["whatever", "k"])).unwrap(),
        Request::Get("k".to_string())
    );
    assert!(Request::from_command("GET", frame(&["GET", "k"])).is_err());
}

#[test]
fn unknown_command_quotes_the_frame_and_the_name() {
    let (raw, details) = parts(Request::try_from(frame(&["ÉCHO", "x"])).unwrap_err());
    assert_eq!(raw, "*2\r\n$4\r\nÉCHO\r\n$1\r\nx\r\n");
    assert_eq!(details, "Unknown command: écho");
}

#[test]
fn missing_argument_is_an_error() {
    let (raw, details) = parts(Request::try_from(frame(&["ECHO"])).unwrap_err());
    assert_eq!(raw, "*1\r\n$4\r\nECHO\r\n");
    assert_eq!(details, "Missing argument of command: echo");
    let (_, details) = parts(Request::try_from(frame(&["get"])).unwrap_err());
    assert_eq!(details, "Missing argument of command: get");
}

#[test]
fn frame_without_command_is_an_error() {
    let (raw, details) = parts(Request::try_from(Array::new(0, Vec::new())).unwrap_err());
    assert_eq!(raw, "*0\r\n");
    assert_eq!(details, "Command name is missing");
    let mut buffer = "*0\r\n".to_string();
    assert!(Request::deserialize(&mut buffer).is_err());
    assert!(buffer.is_empty());
}

#[test]
fn unknown_command_consumes_its_frame() {
    let mut buffer = "*1\r\n$3\r\nfoo\r\n*1\r\n$4\r\nping\r\n".to_string();
    assert!(Request::deserialize(&mut buffer).is_err());
    assert_eq!(buffer, "*1\r\n$4\r\nping\r\n");
    assert_eq!(Request::deserialize(&mut buffer).unwrap(), Request::Ping);
}

#[test]
fn set_through_the_decoder_reads_modifiers() {
    let mut buffer = "*5\r\n$3\r\nSET\r\n$1\r\nA\r\n$1\r\nb\r\n$2\r\nex\r\n$1\r\n2\r\n".to_string();
    assert_eq!(
        Request::deserialize(&mut buffer).unwrap(),
        Request::SetKey(set_of("A", "b", Some(2000)))
    );
    assert!(buffer.is_empty());
}

#[test]
fn seconds_and_milliseconds_give_the_same_request() {
    let seconds = SetRequest::try_from(frame(&["SET", "a", "b", "EX", "2"])).unwrap();
    let millis = SetRequest::try_from(frame(&["SET", "a", "b", "PX", "2000"])).unwrap();
    assert_eq!(seconds, millis);
    assert_eq!(seconds.expiration_timeout_ms, Some(2000));
}

#[test]
fn set_needs_key_and_value() {
    let (raw, details) = parts(SetRequest::try_from(frame(&["SET", "a"])).unwrap_err());
    assert_eq!(raw, "*2\r\n$3\r\nSET\r\n$1\r\na\r\n");
    assert_eq!(details, "SET command requires at least 2 arguments");
}

#[test]
fn second_modifier_is_refused() {
    for args in [
        ["SET", "a", "b", "PX", "1", "px", "1"],
        ["SET", "a", "b", "ex", "1", "PX", "1"],
        ["SET", "a", "b", "Ex", "1", "eX", "1"],
    ] {
        let (raw, details) = parts(SetRequest::try_from(frame(&args)).unwrap_err());
        assert_eq!(raw, "N/A");
        assert_eq!(details, "Expiration time cannot be set twice");
    }
    let (_, details) =
        parts(SetRequest::try_from(frame(&["SET", "a", "b", "PX", "1", "junk", "EX"])).unwrap_err());
    assert_eq!(details, "Expiration time cannot be set twice");
}

#[test]
fn modifier_in_place_of_a_number_is_refused() {
    let (_, details) =
        parts(SetRequest::try_from(frame(&["SET", "a", "b", "EX", "PX", "5"])).unwrap_err());
    assert_eq!(details, "invalid digit found in string");
}

#[test]
fn modifier_without_number_is_refused() {
    let (raw, details) = parts(SetRequest::try_from(frame(&["SET", "a", "b", "ex"])).unwrap_err());
    assert_eq!(raw, "N/A");
    assert_eq!(details, "EX argument is missing");
    let (_, details) = parts(SetRequest::try_from(frame(&["SET", "a", "b", "pX"])).unwrap_err());
    assert_eq!(details, "PX argument is missing");
}

#[test]
fn number_of_a_modifier_must_be_unsigned_decimal() {
    for (number, expected) in [
        ("", "cannot parse integer from empty string"),
        ("+", "invalid digit found in string"),
        ("-1", "invalid digit found in string"),
        ("12a", "invalid digit found in string"),
        ("1 ", "invalid digit found in string"),
        ("18446744073709551616", "number too large to fit in target type"),
        ("99999999999999999999999999a", "invalid digit found in string"),
    ] {
        let (_, details) =
            parts(SetRequest::try_from(frame(&["SET", "a", "b", "PX", number])).unwrap_err());
        assert_eq!(details, expected, "number {:?}", number);
    }
}

#[test]
fn number_of_a_modifier_may_have_a_plus_and_leading_zeros() {
    assert_eq!(
        SetRequest::try_from(frame(&["SET", "a", "b", "PX", "+0015"])).unwrap(),
        set_of("a", "b", Some(15))
    );
    assert_eq!(
        SetRequest::try_from(frame(&["SET", "a", "b", "PX", "18446744073709551615"])).unwrap(),
        set_of("a", "b", Some(u64::MAX))
    );
    assert_eq!(
        SetRequest::try_from(frame(&["SET", "a", "b", "EX", "0"])).unwrap(),
        set_of("a", "b", Some(0))
    );
}

#[test]
fn seconds_that_do_not_fit_as_milliseconds_are_refused() {
    assert_eq!(
        SetRequest::try_from(frame(&["SET", "a", "b", "EX", "18446744073709551"])).unwrap(),
        set_of("a", "b", Some(18446744073709551000))
    );
    let (_, details) = parts(
        SetRequest::try_from(frame(&["SET", "a", "b", "EX", "18446744073709552"])).unwrap_err(),
    );
    assert_eq!(details, "number too large to fit in target type");
}

#[test]
fn tokens_that_are_no_modifiers_are_passed_over() {
    assert_eq!(
        SetRequest::try_from(frame(&["SET", "a", "b", "NX", "px", "7", "tail"])).unwrap(),
        set_of("a", "b", Some(7))
    );
    assert_eq!(
        SetRequest::try_from(frame(&["SET", "ex", "px"])).unwrap(),
        set_of("ex", "px", None)
    );
}

#[test]
fn set_counts_the_arguments_held_not_the_declared_size() {
    let array = Array::new(7, vec!["set".to_string(), "a".to_string(), "b".to_string()]);
    assert_eq!(SetRequest::try_from(array).unwrap(), set_of("a", "b", None));
}
