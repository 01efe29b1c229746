//! JSON-RPC 2.0 over lines: the error object, and what the transport makes of
//! one line of input before any JSON is parsed.

use vstd::prelude::*;
use vstd::utf8::{decode_utf8, valid_utf8};
use crate::text::{chars_of, push_str, string_of, trim, trimmed};

verus! {

/// A JSON-RPC 2.0 error object.
#[derive(Debug, Clone)]
pub struct RpcError {
    pub code: i32,
    pub message: String,
}

impl RpcError {
    /// An error with a code and a message.
    pub fn new(code: i32, message: String) -> (res: Self)
        ensures
            res.code == code,
            res.message@ == message@,
    {
        RpcError { code, message }
    }

    /// -32700 Parse error.
    pub fn parse_error(message: String) -> (res: Self)
        ensures
            res.code == -32700,
            res.message@ == message@,
    {
        Self::new(-32700, message)
    }

    /// -32600 Invalid Request.
    pub fn invalid_request(message: String) -> (res: Self)
        ensures
            res.code == -32600,
            res.message@ == message@,
    {
        Self::new(-32600, message)
    }

    /// -32601 Method not found.
    pub fn method_not_found(message: String) -> (res: Self)
        ensures
            res.code == -32601,
            res.message@ == message@,
    {
        Self::new(-32601, message)
    }

    /// -32602 Invalid params.
    pub fn invalid_params(message: String) -> (res: Self)
        ensures
            res.code == -32602,
            res.message@ == message@,
    {
        Self::new(-32602, message)
    }

    /// -32603 Internal error.
    pub fn internal_error(message: String) -> (res: Self)
        ensures
            res.code == -32603,
            res.message@ == message@,
    {
        Self::new(-32603, message)
    }
}

/// A line of input: bytes that are not UTF-8 (answered with a parse error,
/// not replaced — a damaged request could otherwise run silently), a blank
/// line (passed over), or the trimmed text to parse.
#[derive(Debug)]
pub enum Line {
    NotUtf8,
    Blank,
    Text(String),
}

/// What a line of input is.
pub open spec fn line_of(bytes: Seq<u8>) -> Option<Seq<char>> {
    if valid_utf8(bytes) { Some(trim(decode_utf8(bytes))) } else { None }
}

/// A line of input taken apart.
pub fn classify_line(bytes: &[u8]) -> (res: Line)
    ensures
        match res {
            Line::NotUtf8 => !valid_utf8(bytes@),
            Line::Blank => line_of(bytes@) == Some(Seq::<char>::empty()),
            Line::Text(t) => line_of(bytes@) == Some(t@) && t@.len() > 0,
        },
{
    match crate::container::utf8_text(bytes) {
        None => Line::NotUtf8,
        Some(text) => {
            let chars = chars_of(text.as_str());
            let t = trimmed(&chars);
            if t.len() == 0 {
                assert(t@ =~= Seq::<char>::empty());
                Line::Blank
            } else {
                Line::Text(string_of(&t))
            }
        },
    }
}

/// The parse error for a line that is not UTF-8.
pub fn not_utf8_error() -> (res: RpcError)
    ensures
        res.code == -32700,
        res.message@ == "ru: Строка не в кодировке UTF-8, en: Input line is not valid UTF-8"@,
{
    RpcError::parse_error(String::from_str("ru: Строка не в кодировке UTF-8, en: Input line is not valid UTF-8"))
}

/// The parse error for a line that is not JSON, with the parser's words.
pub fn parse_failure(detail: &str) -> (res: RpcError)
    ensures
        res.code == -32700,
        res.message@ == "ru: Ошибка разбора JSON: "@ + detail@ + ", en: Parse error: "@ + detail@,
{
    let mut out: Vec<char> = Vec::new();
    push_str(&mut out, "ru: Ошибка разбора JSON: ");
    push_str(&mut out, detail);
    push_str(&mut out, ", en: Parse error: ");
    push_str(&mut out, detail);
    RpcError::parse_error(string_of(&out))
}

/// The error for JSON that is not a request object, with the parser's words.
pub fn invalid_request_failure(detail: &str) -> (res: RpcError)
    ensures
        res.code == -32600,
        res.message@ == "ru: Невалидный JSON-RPC запрос: "@ + detail@ + ", en: Invalid Request: "@ + detail@,
{
    let mut out: Vec<char> = Vec::new();
    push_str(&mut out, "ru: Невалидный JSON-RPC запрос: ");
    push_str(&mut out, detail);
    push_str(&mut out, ", en: Invalid Request: ");
    push_str(&mut out, detail);
    RpcError::invalid_request(string_of(&out))
}

} // verus!
