//! The error that decoding and command parsing report.
use vstd::prelude::*;

verus! {

/// The failure of turning buffered text into a request.
#[derive(Debug)]
pub enum RedisError {
    /// The text could not be read as a request.
    DeserializationError {
        /// The text that was being read, as far as it is known.
        raw_redis_message: String,
        /// What was wrong with it, for a human reader.
        details: String,
    },
}

/// What an error says, as plain text.
pub struct ErrorView {
    pub raw_redis_message: Seq<char>,
    pub details: Seq<char>,
}

impl View for RedisError {
    type V = ErrorView;

    open spec fn view(&self) -> ErrorView {
        match *self {
            RedisError::DeserializationError { raw_redis_message, details } => ErrorView {
                raw_redis_message: raw_redis_message@,
                details: details@,
            },
        }
    }
}

impl RedisError {
    /// Builds the error from the text being read and an explanation.
    pub fn new(raw_redis_message: String, details: String) -> (e: RedisError)
        ensures
            e@ == (ErrorView { raw_redis_message: raw_redis_message@, details: details@ }),
    {
        RedisError::DeserializationError { raw_redis_message, details }
    }

    /// The message in the wording used for logs.
    pub fn message(&self) -> (s: String)
        ensures
            s@ == error_message(self@),
    {
        match self {
            RedisError::DeserializationError { raw_redis_message, details } => {
                let mut s = "Failed to deserialize string '".to_owned();
                s.append(raw_redis_message.as_str());
                s.append("' into Redis message. ");
                s.append(details.as_str());
                s
            },
        }
    }
}

/// The log line of an error: the text that was read, quoted, and the explanation.
pub open spec fn error_message(e: ErrorView) -> Seq<char> {
    "Failed to deserialize string '"@ + e.raw_redis_message + "' into Redis message. "@
        + e.details
}

} // verus!
