//! Requests: the commands that a client can send.
use crate::error::{ErrorView, RedisError};
use crate::protocol::array::{
    decode, decode_error, from_marker, wire_text, Array, DecodeFault, FrameView,
};
use crate::protocol::set::{parse_set, set_error, SetFault, SetRequest, SetView};
use crate::text::{lowercase_text, same_text};
use vstd::prelude::*;
use vstd::string::StringExecFns;

verus! {

/// A request of a client. On the wire every request is an array whose first
/// argument names the command.
#[derive(Debug, PartialEq, Eq)]
pub enum Request {
    /// Asks for a sign of life.
    Ping,
    /// Asks for the argument to be sent back.
    Echo(String),
    /// Stores a value under a key.
    SetKey(SetRequest),
    /// Asks for the value stored under a key.
    Get(String),
}

/// A request as plain values.
pub enum RequestView {
    Ping,
    Echo(Seq<char>),
    SetKey(SetView),
    Get(Seq<char>),
}

impl View for Request {
    type V = RequestView;

    open spec fn view(&self) -> RequestView {
        match *self {
            Request::Ping => RequestView::Ping,
            Request::Echo(text) => RequestView::Echo(text@),
            Request::SetKey(request) => RequestView::SetKey(request@),
            Request::Get(key) => RequestView::Get(key@),
        }
    }
}

/// Why the arguments of a frame make no request.
pub enum ParseFault {
    /// The frame holds no argument, so no command name.
    NoCommand,
    /// The command name is none of the known ones.
    UnknownCommand,
    /// The command needs an argument that the frame does not hold.
    MissingArgument,
    /// The command is `set` and its arguments are wrong.
    BadSet(SetFault),
}

/// The request that a command name in lower case and the arguments of its
/// frame stand for. The first argument is the command name as it was sent.
pub open spec fn request_for(command: Seq<char>, args: Seq<Seq<char>>) -> Result<
    RequestView,
    ParseFault,
> {
    if command == "ping"@ {
        Ok(RequestView::Ping)
    } else if command == "echo"@ {
        if args.len() < 2 {
            Err(ParseFault::MissingArgument)
        } else {
            Ok(RequestView::Echo(args[1]))
        }
    } else if command == "set"@ {
        match parse_set(args) {
            Ok(request) => Ok(RequestView::SetKey(request)),
            Err(fault) => Err(ParseFault::BadSet(fault)),
        }
    } else if command == "get"@ {
        if args.len() < 2 {
            Err(ParseFault::MissingArgument)
        } else {
            Ok(RequestView::Get(args[1]))
        }
    } else {
        Err(ParseFault::UnknownCommand)
    }
}

/// The error that reports why a frame makes no request; `command` is the
/// command name in lower case.
pub open spec fn parse_error(frame: FrameView, command: Seq<char>, fault: ParseFault) -> ErrorView {
    match fault {
        ParseFault::NoCommand => ErrorView {
            raw_redis_message: wire_text(frame),
            details: "Command name is missing"@,
        },
        ParseFault::UnknownCommand => ErrorView {
            raw_redis_message: wire_text(frame),
            details: "Unknown command: "@ + command,
        },
        ParseFault::MissingArgument => ErrorView {
            raw_redis_message: wire_text(frame),
            details: "Missing argument of command: "@ + command,
        },
        ParseFault::BadSet(fault) => set_error(frame, fault),
    }
}

/// The request that a frame stands for, or the error that says why it
/// stands for none, given the command name in lower case.
pub open spec fn request_named(command: Seq<char>, frame: FrameView) -> Result<
    RequestView,
    ErrorView,
> {
    match request_for(command, frame.args) {
        Ok(request) => Ok(request),
        Err(fault) => Err(parse_error(frame, command, fault)),
    }
}

/// The request that a frame stands for: its first argument, in lower case,
/// names the command.
pub open spec fn request_of(frame: FrameView) -> Result<RequestView, ErrorView> {
    if frame.args.len() == 0 {
        Err(parse_error(frame, Seq::empty(), ParseFault::NoCommand))
    } else {
        request_named(lowercase_text(frame.args[0]), frame)
    }
}

/// What one decoding step on a buffer gives: the request that the first
/// frame stands for, or the error that says why there is none.
pub open spec fn decode_request(buffer: Seq<char>) -> Result<RequestView, ErrorView> {
    match decode(buffer).outcome {
        Err(fault) => Err(decode_error(buffer, fault)),
        Ok(frame) => request_of(frame),
    }
}

/// A result of parsing as plain values.
pub open spec fn parsed(r: Result<Request, RedisError>) -> Result<RequestView, ErrorView> {
    match r {
        Ok(request) => Ok(request@),
        Err(e) => Err(e@),
    }
}

/// An error that quotes the frame, with an explanation that ends in the
/// command name.
fn command_error(array: Array, explanation: &str, command: &str) -> (e: RedisError)
    ensures
        e@ == (ErrorView {
            raw_redis_message: wire_text(array@),
            details: explanation@ + command@,
        }),
{
    let mut details = explanation.to_owned();
    details.append(command);
    RedisError::new(array.serialize(), details)
}

impl Request {
    /// Takes one request out of a buffer of received text.
    ///
    /// The buffer is left as `Array::deserialize` leaves it: a frame that
    /// was decoded is gone from it, whether or not it stands for a request.
    pub fn deserialize(buffer: &mut String) -> (r: Result<Request, RedisError>)
        ensures
            final(buffer)@ == decode(old(buffer)@).rest,
            parsed(r) == decode_request(old(buffer)@),
            decode(old(buffer)@).outcome == Err::<FrameView, DecodeFault>(DecodeFault::NoMarker)
                ==> r is Err && final(buffer)@.len() == 0,
            decode(old(buffer)@).outcome == Err::<FrameView, DecodeFault>(DecodeFault::Incomplete)
                ==> r is Err && final(buffer)@ == from_marker(old(buffer)@),
    {
        match Array::deserialize(buffer) {
            Ok(array) => Request::try_from(array),
            Err(e) => Err(e),
        }
    }

    /// The request that a frame stands for, given its command name in lower
    /// case.
    pub fn from_command(command: &str, array: Array) -> (r: Result<Request, RedisError>)
        ensures
            parsed(r) == request_named(command@, array@),
    {
        if same_text(command, "ping") {
            Ok(Request::Ping)
        } else if same_text(command, "echo") {
            if array.args_count() < 2 {
                Err(command_error(array, "Missing argument of command: ", command))
            } else {
                Ok(Request::Echo(array.args[1].clone()))
            }
        } else if same_text(command, "set") {
            match SetRequest::try_from(array) {
                Ok(request) => Ok(Request::SetKey(request)),
                Err(e) => Err(e),
            }
        } else if same_text(command, "get") {
            if array.args_count() < 2 {
                Err(command_error(array, "Missing argument of command: ", command))
            } else {
                Ok(Request::Get(array.args[1].clone()))
            }
        } else {
            Err(command_error(array, "Unknown command: ", command))
        }
    }
}

impl TryFrom<Array> for Request {
    type Error = RedisError;

    /// Reads a frame as a request.
    fn try_from(array: Array) -> (r: Result<Request, RedisError>)
        ensures
            parsed(r) == request_of(array@),
    {
        if array.args_count() == 0 {
            return Err(RedisError::new(array.serialize(), "Command name is missing".to_owned()));
        }
        let command = array.args[0].as_str().to_lowercase();
        Request::from_command(command.as_str(), array)
    }
}

impl vstd::std_specs::convert::TryFromSpecImpl<Array> for Request {
    /// The conversion is specified by the contract of `try_from` itself.
    open spec fn obeys_try_from_spec() -> bool {
        false
    }

    open spec fn try_from_spec(v: Array) -> Result<Self, Self::Error> {
        arbitrary()
    }
}

} // verus!
