use itcoolmcplang1c::jsonrpc::{classify_line, invalid_request_failure, not_utf8_error, parse_failure, Line, RpcError};

#[test]
fn error_constructors_carry_their_codes() {
    assert_eq!(RpcError::parse_error("a".to_string()).code, -32700);
    assert_eq!(RpcError::invalid_request("a".to_string()).code, -32600);
    assert_eq!(RpcError::method_not_found("a".to_string()).code, -32601);
    assert_eq!(RpcError::invalid_params("a".to_string()).code, -32602);
    let e = RpcError::internal_error("сбой".to_string());
    assert_eq!(e.code, -32603);
    assert_eq!(e.message, "сбой");
}

#[test]
fn lines_are_classified_before_parsing() {
    assert!(matches!(classify_line(b"\xff\xfe{}"), Line::NotUtf8));
    assert!(matches!(classify_line(b"   \r\n"), Line::Blank));
    match classify_line(b"  {\"id\":1}\n") {
        Line::Text(t) => assert_eq!(t, "{\"id\":1}"),
        other => panic!("{:?}", other),
    }
}

#[test]
fn failures_name_what_went_wrong() {
    let e = not_utf8_error();
    assert_eq!(e.code, -32700);
    assert_eq!(e.message, "ru: Строка не в кодировке UTF-8, en: Input line is not valid UTF-8");

    let p = parse_failure("EOF");
    assert_eq!(p.code, -32700);
    assert_eq!(p.message, "ru: Ошибка разбора JSON: EOF, en: Parse error: EOF");

    let r = invalid_request_failure("missing field `method`");
    assert_eq!(r.code, -32600);
    assert_eq!(r.message, "ru: Невалидный JSON-RPC запрос: missing field `method`, en: Invalid Request: missing field `method`");
}
