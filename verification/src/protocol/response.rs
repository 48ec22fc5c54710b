//! Responses: what the server sends back.
use crate::decimal::{append_decimal, decimal_text};
use crate::lines::crlf;
use vstd::prelude::*;
use vstd::string::StrSliceExecFns;
use vstd::string::StringExecFns;

verus! {

/// The answer to a request.
#[derive(Debug, PartialEq, Eq)]
pub enum Response {
    /// The request was carried out.
    Okay,
    /// The answer to `PING`.
    Ping,
    /// The answer to `ECHO`: the text that was sent.
    Echo(String),
    /// The answer to `GET`: the value, or nothing where the key is unknown.
    Get(Option<String>),
}

/// A response as plain values.
pub enum ResponseView {
    Okay,
    Ping,
    Echo(Seq<char>),
    Get(Option<Seq<char>>),
}

impl View for Response {
    type V = ResponseView;

    open spec fn view(&self) -> ResponseView {
        match *self {
            Response::Okay => ResponseView::Okay,
            Response::Ping => ResponseView::Ping,
            Response::Echo(text) => ResponseView::Echo(text@),
            Response::Get(Some(value)) => ResponseView::Get(Some(value@)),
            Response::Get(None) => ResponseView::Get(None),
        }
    }
}

/// A response on the wire.
///
/// A status line is a `+`, the text and a line ending; an echo travels as
/// one, with its text as it is. A value travels as a `$` and the number of
/// its characters on one line and the value on the next; an unknown key is
/// answered by the length `-1` alone.
pub open spec fn encode(response: ResponseView) -> Seq<char> {
    match response {
        ResponseView::Okay => "+OK\r\n"@,
        ResponseView::Ping => "+PONG\r\n"@,
        ResponseView::Echo(text) => seq!['+'] + text + crlf(),
        ResponseView::Get(Some(value)) => seq!['$'] + decimal_text(value.len()) + crlf() + value
            + crlf(),
        ResponseView::Get(None) => "$-1\r\n"@,
    }
}

impl Response {
    /// The response as it travels on the wire.
    pub fn serialize(self) -> (s: String)
        ensures
            s@ == encode(self@),
    {
        match self {
            Response::Okay => "+OK\r\n".to_owned(),
            Response::Ping => "+PONG\r\n".to_owned(),
            Response::Echo(text) => {
                let mut s = String::new();
                s.push('+');
                s.append(text.as_str());
                s.push('\r');
                s.push('\n');
                s
            },
            Response::Get(Some(value)) => {
                let mut s = String::new();
                s.push('$');
                append_decimal(&mut s, value.as_str().unicode_len());
                s.push('\r');
                s.push('\n');
                s.append(value.as_str());
                s.push('\r');
                s.push('\n');
                s
            },
            Response::Get(None) => "$-1\r\n".to_owned(),
        }
    }
}

} // verus!
