use resp_kv::protocol::response::Response;

#[test]
fn all() {
    assert_eq!(Response::Okay.serialize(), "+OK\r\n");
    assert_eq!(Response::Ping.serialize(), "+PONG\r\n");
    assert_eq!(
        Response::Echo("hello".to_string()).serialize(),
        "+hello\r\n"
    );
    assert_eq!(
        Response::Get(Some("value".to_string())).serialize(),
        "$5\r\nvalue\r\n"
    );
    assert_eq!(Response::Get(None).serialize(), "$-1\r\n");
}
