//! The `SET` request and its modifiers.
use crate::decimal::{is_digit, number_fault_text, parse_unsigned, read_unsigned, NumberFault};
use crate::error::{ErrorView, RedisError};
use crate::protocol::array::{wire_text, Array, FrameView};
use crate::text::{ascii_upper, ascii_upper_text, chars_of, is_word, matches_word};
use vstd::prelude::*;

verus! {

/// A request to store a value under a key, with an optional time to live.
#[derive(Debug, PartialEq, Eq)]
pub struct SetRequest {
    pub key: String,
    pub value: String,
    /// The time to live in milliseconds, if the request gave one.
    pub expiration_timeout_ms: Option<u64>,
}

/// A `SET` request as plain values.
pub struct SetView {
    pub key: Seq<char>,
    pub value: Seq<char>,
    pub expiration_timeout_ms: Option<u64>,
}

impl View for SetRequest {
    type V = SetView;

    open spec fn view(&self) -> SetView {
        SetView {
            key: self.key@,
            value: self.value@,
            expiration_timeout_ms: self.expiration_timeout_ms,
        }
    }
}

/// The modifiers that give a time to live.
pub enum Modifier {
    /// `EX`, with a number of seconds.
    Ex,
    /// `PX`, with a number of milliseconds.
    Px,
}

/// Why some arguments make no `SET` request.
pub enum SetFault {
    /// Fewer than a command name, a key and a value.
    TooFewArguments,
    /// A modifier after the time to live has been given.
    ExpiryTwice,
    /// A modifier at the very end, with no number after it.
    MissingValue(Modifier),
    /// A modifier followed by something that is no number that fits.
    BadValue(NumberFault),
}

/// The modifier that a token names, whatever the case of its letters.
pub open spec fn modifier_of(token: Seq<char>) -> Option<Modifier> {
    if is_word(token, "EX"@) {
        Some(Modifier::Ex)
    } else if is_word(token, "PX"@) {
        Some(Modifier::Px)
    } else {
        None
    }
}

/// The time to live in milliseconds that a modifier and its number give.
pub open spec fn milliseconds(modifier: Modifier, value: nat) -> nat {
    match modifier {
        Modifier::Ex => value * 1000,
        Modifier::Px => value,
    }
}

/// Reads the tokens after the value of a `SET` request, given the time to
/// live found so far.
///
/// A token that names a modifier takes the token after it as its number; any
/// other token is passed over. A modifier is accepted only while no time to
/// live has been found.
pub open spec fn scan_modifiers(tail: Seq<Seq<char>>, expiry: Option<u64>) -> Result<
    Option<u64>,
    SetFault,
>
    decreases tail.len(),
{
    if tail.len() == 0 {
        Ok(expiry)
    } else {
        match modifier_of(tail[0]) {
            None => scan_modifiers(tail.skip(1), expiry),
            Some(modifier) => {
                if expiry is Some {
                    Err(SetFault::ExpiryTwice)
                } else if tail.len() < 2 {
                    Err(SetFault::MissingValue(modifier))
                } else {
                    match parse_unsigned(tail[1], u64::MAX as nat) {
                        Err(fault) => Err(SetFault::BadValue(fault)),
                        Ok(value) => {
                            if milliseconds(modifier, value) > u64::MAX {
                                Err(SetFault::BadValue(NumberFault::TooLarge))
                            } else {
                                scan_modifiers(
                                    tail.skip(2),
                                    Some(milliseconds(modifier, value) as u64),
                                )
                            }
                        },
                    }
                }
            },
        }
    }
}

/// Reads the arguments of a frame as a `SET` request: the command name, the
/// key, the value, and the modifiers after them.
pub open spec fn parse_set(args: Seq<Seq<char>>) -> Result<SetView, SetFault> {
    if args.len() < 3 {
        Err(SetFault::TooFewArguments)
    } else {
        match scan_modifiers(args.skip(3), None) {
            Err(fault) => Err(fault),
            Ok(expiry) => Ok(SetView { key: args[1], value: args[2], expiration_timeout_ms: expiry }),
        }
    }
}

/// The error that reports why a frame makes no `SET` request.
pub open spec fn set_error(frame: FrameView, fault: SetFault) -> ErrorView {
    match fault {
        SetFault::TooFewArguments => ErrorView {
            raw_redis_message: wire_text(frame),
            details: "SET command requires at least 2 arguments"@,
        },
        SetFault::ExpiryTwice => ErrorView {
            raw_redis_message: "N/A"@,
            details: "Expiration time cannot be set twice"@,
        },
        SetFault::MissingValue(Modifier::Ex) => ErrorView {
            raw_redis_message: "N/A"@,
            details: "EX argument is missing"@,
        },
        SetFault::MissingValue(Modifier::Px) => ErrorView {
            raw_redis_message: "N/A"@,
            details: "PX argument is missing"@,
        },
        SetFault::BadValue(fault) => ErrorView {
            raw_redis_message: "N/A"@,
            details: number_fault_text(fault),
        },
    }
}

/// A token that names a modifier is no number.
pub proof fn lemma_modifier_is_no_number(token: Seq<char>)
    requires
        modifier_of(token) is Some,
    ensures
        parse_unsigned(token, u64::MAX as nat) is Err,
{
    reveal_strlit("EX");
    reveal_strlit("PX");
    let folded = ascii_upper_text(token);
    assert(folded.len() == 2);
    assert(folded[0] == ascii_upper(token[0]));
    assert(!is_digit(token[0]));
}

/// Once a time to live has been found, any further modifier is refused.
pub proof fn lemma_modifier_after_expiry(tail: Seq<Seq<char>>, expiry: Option<u64>, at: int)
    requires
        expiry is Some,
        0 <= at < tail.len(),
        modifier_of(tail[at]) is Some,
    ensures
        scan_modifiers(tail, expiry) == Err::<Option<u64>, SetFault>(SetFault::ExpiryTwice),
    decreases tail.len(),
{
    if modifier_of(tail[0]) is None {
        assert(tail.skip(1)[at - 1] == tail[at]);
        lemma_modifier_after_expiry(tail.skip(1), expiry, at - 1);
    }
}

/// Tokens that hold two modifier names are refused.
pub proof fn lemma_two_modifiers(tail: Seq<Seq<char>>, first: int, second: int)
    requires
        0 <= first < second < tail.len(),
        modifier_of(tail[first]) is Some,
        modifier_of(tail[second]) is Some,
    ensures
        scan_modifiers(tail, None) is Err,
    decreases tail.len(),
{
    if modifier_of(tail[0]) is None {
        assert(tail.skip(1)[first - 1] == tail[first]);
        assert(tail.skip(1)[second - 1] == tail[second]);
        lemma_two_modifiers(tail.skip(1), first - 1, second - 1);
    } else {
        match parse_unsigned(tail[1], u64::MAX as nat) {
            Err(_) => {},
            Ok(value) => {
                if second == 1 {
                    lemma_modifier_is_no_number(tail[1]);
                }
                let modifier = modifier_of(tail[0])->Some_0;
                if milliseconds(modifier, value) <= u64::MAX {
                    assert(tail.skip(2)[second - 2] == tail[second]);
                    lemma_modifier_after_expiry(
                        tail.skip(2),
                        Some(milliseconds(modifier, value) as u64),
                        second - 2,
                    );
                }
            },
        }
    }
}

/// Modifier conflicts: arguments that name two modifiers after the value,
/// be it the same one twice or one of each, make no `SET` request.
pub proof fn lemma_two_modifiers_fail(args: Seq<Seq<char>>, first: int, second: int)
    requires
        3 <= first < second < args.len(),
        modifier_of(args[first]) is Some,
        modifier_of(args[second]) is Some,
    ensures
        parse_set(args) is Err,
{
    let tail = args.skip(3);
    assert(tail[first - 3] == args[first]);
    assert(tail[second - 3] == args[second]);
    lemma_two_modifiers(tail, first - 3, second - 3);
}

/// A modifier with its number, after the value and with nothing else,
/// gives the time to live that the number stands for, in milliseconds.
pub proof fn lemma_single_modifier(
    command: Seq<char>,
    key: Seq<char>,
    value: Seq<char>,
    token: Seq<char>,
    number: Seq<char>,
)
    requires
        modifier_of(token) is Some,
        parse_unsigned(number, u64::MAX as nat) is Ok,
        milliseconds(modifier_of(token)->Some_0, parse_unsigned(number, u64::MAX as nat)->Ok_0)
            <= u64::MAX,
    ensures
        parse_set(seq![command, key, value, token, number]) == Ok::<SetView, SetFault>(
            SetView {
                key,
                value,
                expiration_timeout_ms: Some(
                    milliseconds(
                        modifier_of(token)->Some_0,
                        parse_unsigned(number, u64::MAX as nat)->Ok_0,
                    ) as u64,
                ),
            },
        ),
{
    let args = seq![command, key, value, token, number];
    let tail = args.skip(3);
    assert(tail[0] == token);
    assert(tail[1] == number);
    assert(tail.skip(2).len() == 0);
    let expiry = Some(
        milliseconds(
            modifier_of(token)->Some_0,
            parse_unsigned(number, u64::MAX as nat)->Ok_0,
        ) as u64,
    );
    assert(scan_modifiers(tail.skip(2), expiry) == Ok::<Option<u64>, SetFault>(expiry));
}

/// Seconds are kept as milliseconds: `EX` with a number of seconds and
/// `PX` with a thousand times that number make the same request.
pub proof fn lemma_seconds_are_milliseconds(
    command: Seq<char>,
    key: Seq<char>,
    value: Seq<char>,
    ex: Seq<char>,
    seconds: Seq<char>,
    px: Seq<char>,
    millis: Seq<char>,
)
    requires
        modifier_of(ex) == Some(Modifier::Ex),
        modifier_of(px) == Some(Modifier::Px),
        parse_unsigned(seconds, u64::MAX as nat) is Ok,
        parse_unsigned(millis, u64::MAX as nat) == Ok::<nat, NumberFault>(
            1000 * parse_unsigned(seconds, u64::MAX as nat)->Ok_0,
        ),
    ensures
        parse_set(seq![command, key, value, ex, seconds]) == parse_set(
            seq![command, key, value, px, millis],
        ),
        parse_set(seq![command, key, value, ex, seconds]) == Ok::<SetView, SetFault>(
            SetView {
                key,
                value,
                expiration_timeout_ms: Some(
                    (1000 * parse_unsigned(seconds, u64::MAX as nat)->Ok_0) as u64,
                ),
            },
        ),
{
    lemma_single_modifier(command, key, value, ex, seconds);
    lemma_single_modifier(command, key, value, px, millis);
}

/// An error about the modifiers; it does not quote the frame.
fn modifier_error(details: String) -> (e: RedisError)
    ensures
        e@ == (ErrorView { raw_redis_message: "N/A"@, details: details@ }),
{
    RedisError::new("N/A".to_owned(), details)
}

impl TryFrom<Array> for SetRequest {
    type Error = RedisError;

    /// Reads a frame as a `SET` request.
    fn try_from(array: Array) -> (r: Result<SetRequest, RedisError>)
        ensures
            match r {
                Ok(request) => parse_set(array@.args) == Ok::<SetView, SetFault>(request@),
                Err(e) => match parse_set(array@.args) {
                    Ok(_) => false,
                    Err(fault) => e@ == set_error(array@, fault),
                },
            },
    {
        if array.args_count() < 3 {
            return Err(
                RedisError::new(
                    array.serialize(),
                    "SET command requires at least 2 arguments".to_owned(),
                ),
            );
        }
        let ghost args = array@.args;
        let mut expiry: Option<u64> = None;
        let mut i: usize = 3;
        while i < array.args.len()
            invariant
                3 <= i <= array.args.len(),
                args == array.args.deep_view(),
                scan_modifiers(args.skip(i as int), expiry) == scan_modifiers(args.skip(3), None),
            decreases array.args.len() - i,
        {
            let ghost tail = args.skip(i as int);
            assert(tail[0] == array.args[i as int]@);
            assert(tail.skip(1) == args.skip(i + 1));
            let token: &str = array.args[i].as_str();
            let is_ex = matches_word(token, "EX");
            let is_px = matches_word(token, "PX");
            if is_ex || is_px {
                if expiry.is_some() {
                    return Err(modifier_error("Expiration time cannot be set twice".to_owned()));
                }
                if i + 1 >= array.args.len() {
                    return Err(
                        modifier_error(
                            if is_ex {
                                "EX argument is missing".to_owned()
                            } else {
                                "PX argument is missing".to_owned()
                            },
                        ),
                    );
                }
                assert(tail[1] == array.args[i + 1]@);
                assert(tail.skip(2) == args.skip(i + 2));
                let digits = chars_of(array.args[i + 1].as_str());
                assert(digits@.subrange(0, digits.len() as int) == digits@);
                let value: u64 = match read_unsigned(&digits, 0, digits.len(), u64::MAX) {
                    Ok(value) => value,
                    Err(fault) => {
                        return Err(modifier_error(fault.describe()));
                    },
                };
                if is_ex {
                    if value > u64::MAX / 1000 {
                        return Err(modifier_error(NumberFault::TooLarge.describe()));
                    }
                    expiry = Some(value * 1000);
                } else {
                    expiry = Some(value);
                }
                i += 2;
            } else {
                i += 1;
            }
        }
        assert(args.skip(array.args.len() as int).len() == 0);
        Ok(
            SetRequest {
                key: array.args[1].clone(),
                value: array.args[2].clone(),
                expiration_timeout_ms: expiry,
            },
        )
    }
}

impl vstd::std_specs::convert::TryFromSpecImpl<Array> for SetRequest {
    /// The conversion is specified by the contract of `try_from` itself.
    open spec fn obeys_try_from_spec() -> bool {
        false
    }

    open spec fn try_from_spec(v: Array) -> Result<Self, Self::Error> {
        arbitrary()
    }
}

} // verus!
