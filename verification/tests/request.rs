use resp_kv::error::RedisError;
use resp_kv::protocol::request::Request;
use resp_kv::protocol::set::SetRequest;

const PING_RAW: &str = "*1\r\n$4\r\nping\r\n";
const ECHO_ARG: &str = "Hello, world!";
const ECHO_RAW: &str = "*2\r\n$4\r\necho\r\n$13\r\nHello, world!\r\n";

#[test]
fn empty_buffer() {
    let mut buffer = "".to_string();
    assert!(matches!(
        Request::deserialize(&mut buffer).unwrap_err(),
        RedisError::DeserializationError { .. }
    ));
    assert!(buffer.is_empty());
}

#[test]
fn junk() {
    let mut buffer = "junk".to_string();
    assert!(matches!(
        Request::deserialize(&mut buffer).unwrap_err(),
        RedisError::DeserializationError { .. }
    ));
    assert!(buffer.is_empty());
}

#[test]
fn incomplete_request() {
    // If message is incomplete, the buffer must remain intact.
    let mut buffer = "*1\r\n$4\r\n".to_string();
    let old_buf_len = buffer.len();
    assert!(matches!(
        Request::deserialize(&mut buffer).unwrap_err(),
        RedisError::DeserializationError { .. }
    ));
    assert_eq!(buffer.len(), old_buf_len);
}

#[test]
fn incomplete_request_with_prefix() {
    // If message is incomplete, buffer must remain intact starting from the asterisk.
    let prefix = "\r\n$4s";
    let mut buffer = format!("{}*1\r\n$4\r\n", prefix);
    let old_buf_len = buffer.len();
    assert!(matches!(
        Request::deserialize(&mut buffer).unwrap_err(),
        RedisError::DeserializationError { .. }
    ));
    assert_eq!(buffer.len(), old_buf_len - prefix.len());
    assert_eq!(&buffer, "*1\r\n$4\r\n");
}

#[test]
fn ping() {
    let mut buffer = PING_RAW.to_string();
    assert_eq!(Request::deserialize(&mut buffer).unwrap(), Request::Ping);
    assert!(buffer.is_empty());
}

#[test]
fn ping_various_case() {
    let mut buffer = "*1\r\n$4\r\nPING\r\n".to_string();
    assert_eq!(Request::deserialize(&mut buffer).unwrap(), Request::Ping);
    let mut buffer = "*1\r\n$4\r\npiNG\r\n".to_string();
    assert_eq!(Request::deserialize(&mut buffer).unwrap(), Request::Ping);
}

#[test]
fn ping_with_prefix() {
    // The deserialize function should skip unrelated characters
    let mut buffer = format!("\r\n$4s{}", PING_RAW);
    assert_eq!(Request::deserialize(&mut buffer).unwrap(), Request::Ping);
    assert!(buffer.is_empty());
}

#[test]
fn ping_with_prefix_and_postfix() {
    // The deserialize function should skip unrelated characters and leave the part
    // of the message that wasn't parsed
    let mut buffer = format!("$4\r\n{}$4\r\n", PING_RAW);
    assert_eq!(Request::deserialize(&mut buffer).unwrap(), Request::Ping);
    assert_eq!(buffer, "$4\r\n");
}

#[test]
fn ping_and_then_echo() {
    let mut buffer = format!("\r\n$4s{}\r\n$4s{}", PING_RAW, ECHO_RAW);
    assert_eq!(Request::deserialize(&mut buffer).unwrap(), Request::Ping);
    assert_eq!(
        Request::deserialize(&mut buffer).unwrap(),
        Request::Echo("Hello, world!".to_string())
    );
}

#[test]
fn echo() {
    let mut buffer = ECHO_RAW.to_string();
    assert_eq!(
        Request::deserialize(&mut buffer).unwrap(),
        Request::Echo(ECHO_ARG.to_string())
    );
    assert!(buffer.is_empty());
}

#[test]
fn set() {
    // set a b
    let mut buffer: String = "*3\r\n$3\r\nset\r\n$1\r\na\r\n$1\r\nb\r\n".to_owned();
    assert_eq!(
        Request::deserialize(&mut buffer).unwrap(),
        Request::SetKey(SetRequest {
            key: "a".to_string(),
            value: "b".to_string(),
            expiration_timeout_ms: None,
        })
    );
    assert!(buffer.is_empty());
}

/// Validates that case of the command arguments is preserved.
#[test]
fn set_case_sensitive_args() {
    // set a b
    let mut buffer: String = "*3\r\n$3\r\nset\r\n$1\r\nA\r\n$1\r\nb\r\n".to_owned();
    assert_eq!(
        Request::deserialize(&mut buffer).unwrap(),
        Request::SetKey(SetRequest {
            key: "A".to_string(),
            value: "b".to_string(),
            expiration_timeout_ms: None,
        })
    );
    assert!(buffer.is_empty());
}

#[test]
fn get() {
    // get a
    let mut buffer: String = "*2\r\n$3\r\nget\r\n$1\r\na\r\n".to_owned();
    assert_eq!(
        Request::deserialize(&mut buffer).unwrap(),
        Request::Get("a".to_string())
    );
    assert!(buffer.is_empty());
}
