use resp_kv::error::RedisError;
use resp_kv::protocol::request::Request;
use resp_kv::protocol::response::Response;
use resp_kv::request_processor::RequestProcessor;

/// Feeds received text to the decoder and gives what is sent back for
/// every request that it holds.
fn exchange(processor: &mut RequestProcessor, buffer: &mut String, received: &str) -> String {
    buffer.push_str(received);
    let mut sent = String::new();
    while let Ok(request) = Request::deserialize(buffer) {
        sent.push_str(&processor.process_request(request).unwrap().serialize());
    }
    sent
}

#[test]
fn ping_set_get_scenario() {
    let mut processor = RequestProcessor::new();
    let mut buffer = String::new();
    assert_eq!(
        exchange(&mut processor, &mut buffer, "*1\r\n$4\r\nping\r\n"),
        "+PONG\r\n"
    );
    assert_eq!(
        exchange(
            &mut processor,
            &mut buffer,
            "*3\r\n$3\r\nset\r\n$1\r\na\r\n$1\r\nb\r\n"
        ),
        "+OK\r\n"
    );
    assert_eq!(
        exchange(&mut processor, &mut buffer, "*2\r\n$3\r\nget\r\n$1\r\na\r\n"),
        "$1\r\nb\r\n"
    );
    assert_eq!(
        exchange(
            &mut processor,
            &mut buffer,
            "*2\r\n$3\r\nget\r\n$6\r\nabsent\r\n"
        ),
        "$-1\r\n"
    );
    assert!(buffer.is_empty());
}

#[test]
fn pipelined_requests_are_answered_in_order() {
    let mut processor = RequestProcessor::new();
    let mut buffer = String::new();
    let received = "*3\r\n$3\r\nset\r\n$1\r\nk\r\n$5\r\nvalue\r\n*2\r\n$3\r\nget\r\n$1\r\nk\r\n*2\r\n$4\r\necho\r\n$2\r\nhi\r\n";
    assert_eq!(
        exchange(&mut processor, &mut buffer, received),
        "+OK\r\n$5\r\nvalue\r\n+hi\r\n"
    );
    assert!(buffer.is_empty());
}

#[test]
fn request_in_two_pieces_is_answered_once() {
    let mut processor = RequestProcessor::new();
    let mut buffer = String::new();
    assert_eq!(
        exchange(&mut processor, &mut buffer, "noise*2\r\n$4\r\nec"),
        ""
    );
    assert_eq!(buffer, "*2\r\n$4\r\nec");
    assert_eq!(
        exchange(&mut processor, &mut buffer, "ho\r\n$5\r\nhéllo\r\n"),
        "+héllo\r\n"
    );
    assert!(buffer.is_empty());
}

#[test]
fn echo_reply_carries_no_length() {
    assert_eq!(
        Response::Echo("a longer text".to_string()).serialize(),
        "+a longer text\r\n"
    );
    assert_eq!(
        Response::Get(Some("héllo wörld".to_string())).serialize(),
        "$11\r\nhéllo wörld\r\n"
    );
    assert_eq!(Response::Get(Some(String::new())).serialize(), "$0\r\n\r\n");
}

#[test]
fn error_message_quotes_text_and_details() {
    let mut buffer = "junk".to_string();
    let error = Request::deserialize(&mut buffer).unwrap_err();
    assert_eq!(
        error.message(),
        "Failed to deserialize string 'junk' into Redis message. Couldn't find asterisk in a buffer"
    );
    let built = RedisError::new("raw".to_string(), "why".to_string());
    assert!(matches!(
        built,
        RedisError::DeserializationError { ref raw_redis_message, ref details }
            if raw_redis_message == "raw" && details == "why"
    ));
}
