//! Frames: arrays of string arguments, and the decoder that takes them out of
//! a buffer of received text.
use crate::decimal::{
    append_decimal, decimal_text, digit_of, digit_run, is_digit, lemma_digit_run,
    number_fault_text, parse_unsigned, read_unsigned, NumberFault,
};
use crate::error::{ErrorView, RedisError};
use crate::lines::{
    crlf, find_char, join_lines, lemma_lines_len, lemma_position_is_first, lines, next_line,
    position,
};
use crate::text::{append_chars, chars_of, debug_list, debug_text, string_of};
use vstd::prelude::*;
use vstd::string::StrSliceExecFns;
use vstd::string::StringExecFns;

verus! {

/// A frame as plain values: the number of arguments that it declares and the
/// arguments that it holds.
pub struct FrameView {
    pub size: nat,
    pub args: Seq<Seq<char>>,
}

/// A frame of the protocol: an array of string arguments with the number of
/// arguments that its first line declared.
#[derive(Debug, PartialEq, Eq)]
pub struct Array {
    pub size: usize,
    pub args: Vec<String>,
}

impl View for Array {
    type V = FrameView;

    open spec fn view(&self) -> FrameView {
        FrameView { size: self.size as nat, args: self.args.deep_view() }
    }
}

/// Why no frame could be taken out of a buffer.
pub enum DecodeFault {
    /// The buffer holds no `*`.
    NoMarker,
    /// No count of arguments that fits follows the `*`.
    BadCount(NumberFault),
    /// The buffer ends before the lines that the count calls for.
    Incomplete,
    /// The lines that the count calls for hold another number of arguments;
    /// this is what they hold.
    WrongArity(FrameView),
}

/// What one decoding step makes of a buffer: a frame or a fault, and the
/// text that the buffer holds afterwards.
pub struct Decoding {
    pub outcome: Result<FrameView, DecodeFault>,
    pub rest: Seq<char>,
}

/// Whether a line announces the length of the argument after it.
pub open spec fn is_length_header(line: Seq<char>) -> bool {
    line.len() > 0 && line[0] == '$'
}

/// The arguments among some lines: the lines that are no length headers.
pub open spec fn arguments(ls: Seq<Seq<char>>) -> Seq<Seq<char>> {
    ls.filter(|line: Seq<char>| !is_length_header(line))
}

/// The number of arguments that the first line of a frame declares: the
/// digits that follow the marker, up to the first character that is no digit.
pub open spec fn declared_count(line: Seq<char>) -> Result<nat, NumberFault> {
    let after = line.skip(1);
    parse_unsigned(after.take(digit_run(after) as int), usize::MAX as nat)
}

/// The buffer from its first `*` on; empty if it holds none.
pub open spec fn from_marker(buffer: Seq<char>) -> Seq<char> {
    buffer.skip(position(buffer, '*') as int)
}

/// One decoding step on a buffer.
///
/// Text before the first `*` is dropped; without a `*` all of it is. The
/// line that starts with the `*` declares a count `n`, and the `2 * n` lines
/// after it are taken: those that are no length headers are the arguments.
/// The lines after them, each ended anew by a carriage return and a line
/// feed, stay in the buffer. Where the count cannot be read or lines are
/// missing, the buffer keeps everything from the `*` on.
pub open spec fn decode(buffer: Seq<char>) -> Decoding {
    let message = from_marker(buffer);
    let all = lines(message);
    if message.len() == 0 {
        Decoding { outcome: Err(DecodeFault::NoMarker), rest: Seq::empty() }
    } else {
        match declared_count(all[0]) {
            Err(fault) => Decoding { outcome: Err(DecodeFault::BadCount(fault)), rest: message },
            Ok(n) => {
                let used = (2 * n + 1) as int;
                if all.len() < used {
                    Decoding { outcome: Err(DecodeFault::Incomplete), rest: message }
                } else {
                    let frame = FrameView { size: n, args: arguments(all.subrange(1, used)) };
                    Decoding {
                        outcome: if frame.args.len() == n {
                            Ok(frame)
                        } else {
                            Err(DecodeFault::WrongArity(frame))
                        },
                        rest: join_lines(all.skip(used)),
                    }
                }
            },
        }
    }
}

/// A frame in the wording used for diagnostics, given the text that lists
/// its arguments.
pub open spec fn array_text_with(size: nat, listed: Seq<char>) -> Seq<char> {
    "Array(size: "@ + decimal_text(size) + ", args: "@ + listed + ")"@
}

/// A frame in the wording used for diagnostics: its arguments are listed as
/// the standard library's `{:?}` formatting lists strings.
pub open spec fn array_text(frame: FrameView) -> Seq<char> {
    array_text_with(frame.size, debug_text(frame.args))
}

/// The error that reports a decoding fault on a buffer.
pub open spec fn decode_error(buffer: Seq<char>, fault: DecodeFault) -> ErrorView {
    let message = from_marker(buffer);
    match fault {
        DecodeFault::NoMarker => ErrorView {
            raw_redis_message: buffer,
            details: "Couldn't find asterisk in a buffer"@,
        },
        DecodeFault::BadCount(fault) => ErrorView {
            raw_redis_message: message,
            details: number_fault_text(fault),
        },
        DecodeFault::Incomplete => ErrorView {
            raw_redis_message: message,
            details: "Not enough args for array. Message: '"@ + message + "'"@,
        },
        DecodeFault::WrongArity(frame) => ErrorView {
            raw_redis_message: decode(buffer).rest,
            details: "Array is incomplete "@ + array_text(frame),
        },
    }
}

/// The arguments of a frame on the wire: each as a length header and the
/// argument itself, both ended by a carriage return and a line feed.
pub open spec fn bulk_text(args: Seq<Seq<char>>) -> Seq<char>
    decreases args.len(),
{
    if args.len() == 0 {
        Seq::empty()
    } else {
        seq!['$'] + decimal_text(args[0].len()) + crlf() + args[0] + crlf() + bulk_text(
            args.drop_first(),
        )
    }
}

/// A frame on the wire: the marker and the declared count on a line, and the
/// arguments after it.
pub open spec fn wire_text(frame: FrameView) -> Seq<char> {
    seq!['*'] + decimal_text(frame.size) + crlf() + bulk_text(frame.args)
}

/// Adding a line to some lines adds it to their arguments, unless it is a
/// length header.
pub proof fn lemma_arguments_push(ls: Seq<Seq<char>>, line: Seq<char>)
    ensures
        arguments(ls.push(line)) == if is_length_header(line) {
            arguments(ls)
        } else {
            arguments(ls).push(line)
        },
{
    reveal(Seq::filter);
    assert(ls.push(line).drop_last() == ls);
}

/// The first line of a text that starts with a marker starts with it too.
pub proof fn lemma_first_line(s: Seq<char>)
    requires
        s.len() > 0,
        s[0] == '*',
    ensures
        lines(s).len() >= 1,
        lines(s)[0].len() >= 1,
        lines(s)[0][0] == '*',
{
    lemma_position_is_first(s, '\n');
}

/// The end of the digits that start at `from`, looking no further than `to`.
fn end_of_digits(chars: &Vec<char>, from: usize, to: usize) -> (r: usize)
    requires
        from <= to <= chars.len(),
    ensures
        from <= r <= to,
        r - from == digit_run(chars@.subrange(from as int, to as int)),
{
    let mut i: usize = from;
    while i < to && digit_of(chars[i]).is_some()
        invariant
            from <= i <= to <= chars.len(),
            forall|j: int| from <= j < i ==> is_digit(chars@[j]),
        decreases to - i,
    {
        i += 1;
    }
    proof {
        lemma_digit_run(chars@.subrange(from as int, to as int), i - from);
    }
    i
}

/// Reads the count of arguments on the first line of a frame. The line is
/// `chars[at..end]` and starts with the marker.
fn read_count(chars: &Vec<char>, at: usize, end: usize) -> (r: Result<usize, NumberFault>)
    requires
        at < end <= chars.len(),
    ensures
        r matches Ok(n) ==> declared_count(chars@.subrange(at as int, end as int)) == Ok::<
            nat,
            NumberFault,
        >(n as nat),
        r matches Err(fault) ==> declared_count(chars@.subrange(at as int, end as int)) == Err::<
            nat,
            NumberFault,
        >(fault),
{
    let digits_end = end_of_digits(chars, at + 1, end);
    proof {
        let after = chars@.subrange(at as int, end as int).skip(1);
        assert(after == chars@.subrange(at + 1, end as int));
        assert(after.take(digit_run(after) as int) == chars@.subrange(at + 1, digits_end as int));
    }
    match read_unsigned(chars, at + 1, digits_end, usize::MAX as u64) {
        Ok(n) => Ok(n as usize),
        Err(fault) => Err(fault),
    }
}

/// Reads `needed` lines from `from` on and gives the arguments among them,
/// and where the text after them starts; nothing if fewer lines are left.
fn read_arguments(chars: &Vec<char>, from: usize, needed: usize) -> (r: Option<
    (Vec<String>, usize),
>)
    requires
        from <= chars.len(),
    ensures
        r is None ==> lines(chars@.skip(from as int)).len() < needed,
        r matches Some((args, next)) ==> {
            let ahead = lines(chars@.skip(from as int));
            &&& needed <= ahead.len()
            &&& next <= chars.len()
            &&& args.deep_view() == arguments(ahead.take(needed as int))
            &&& lines(chars@.skip(next as int)) == ahead.skip(needed as int)
        },
{
    let ghost ahead = lines(chars@.skip(from as int));
    let mut args: Vec<String> = Vec::new();
    let mut cursor: usize = from;
    let mut taken: usize = 0;
    proof {
        reveal(Seq::filter);
        assert(ahead.take(0) == Seq::<Seq<char>>::empty());
        assert(args.deep_view() == Seq::<Seq<char>>::empty());
        assert(ahead.skip(0) == ahead);
    }
    while taken < needed
        invariant
            taken <= needed,
            cursor <= chars.len(),
            ahead == lines(chars@.skip(from as int)),
            taken <= ahead.len(),
            lines(chars@.skip(cursor as int)) == ahead.skip(taken as int),
            args.deep_view() == arguments(ahead.take(taken as int)),
        decreases needed - taken,
    {
        if cursor >= chars.len() {
            assert(chars@.skip(cursor as int).len() == 0);
            assert(ahead.skip(taken as int).len() == 0);
            return None;
        }
        let line = next_line(chars, cursor);
        let ghost text = chars@.subrange(line.start as int, line.end as int);
        let ghost left = ahead.skip(taken as int);
        proof {
            assert(left[0] == text);
            assert(left.len() >= 1);
            assert(ahead[taken as int] == left[0]);
            assert(left.skip(1) == lines(chars@.skip(line.next as int)));
            assert(ahead.skip(taken + 1) == left.skip(1));
            assert(ahead.take(taken + 1) == ahead.take(taken as int).push(text));
            lemma_arguments_push(ahead.take(taken as int), text);
        }
        if !(line.end > line.start && chars[line.start] == '$') {
            let ghost before = args.deep_view();
            let arg = string_of(chars, line.start, line.end);
            args.push(arg);
            assert(args.deep_view() == before.push(text));
        }
        cursor = line.next;
        taken += 1;
    }
    Some((args, cursor))
}

/// The lines from `from` on, each ended by a carriage return and a line
/// feed, as one string.
fn rejoin(chars: &Vec<char>, from: usize) -> (s: String)
    requires
        from <= chars.len(),
    ensures
        s@ == join_lines(lines(chars@.skip(from as int))),
{
    let mut s = String::new();
    let mut cursor: usize = from;
    while cursor < chars.len()
        invariant
            cursor <= chars.len(),
            s@ + join_lines(lines(chars@.skip(cursor as int))) == join_lines(
                lines(chars@.skip(from as int)),
            ),
        decreases chars.len() - cursor,
    {
        let line = next_line(chars, cursor);
        let ghost before = s@;
        proof {
            let text = chars@.subrange(line.start as int, line.end as int);
            let ahead = lines(chars@.skip(cursor as int));
            let beyond = lines(chars@.skip(line.next as int));
            assert(ahead[0] == text);
            assert(ahead.drop_first() == beyond);
            assert(join_lines(ahead) == text + crlf() + join_lines(beyond));
            assert(before + (text + crlf() + join_lines(beyond)) == before + text + crlf()
                + join_lines(beyond));
        }
        append_chars(&mut s, chars, line.start, line.end);
        s.push('\r');
        s.push('\n');
        assert(s@ == before + chars@.subrange(line.start as int, line.end as int) + crlf());
        cursor = line.next;
    }
    assert(lines(chars@.skip(chars.len() as int)) == Seq::<Seq<char>>::empty());
    s
}

/// Leaves in the buffer the text from the marker on, and reports that the
/// frame that starts there is not all there yet.
fn keep_incomplete(buffer: &mut String, chars: &Vec<char>, at: usize) -> (e: RedisError)
    requires
        at <= chars.len(),
    ensures
        final(buffer)@ == chars@.skip(at as int),
        e@ == (ErrorView {
            raw_redis_message: chars@.skip(at as int),
            details: "Not enough args for array. Message: '"@ + chars@.skip(at as int) + "'"@,
        }),
{
    let kept = string_of(chars, at, chars.len());
    assert(kept@ == chars@.skip(at as int));
    let mut details = "Not enough args for array. Message: '".to_owned();
    details.append(kept.as_str());
    details.append("'");
    *buffer = kept.clone();
    RedisError::new(kept, details)
}

impl Array {
    /// A frame that declares `args_count` arguments and holds `args`.
    pub fn new(args_count: usize, args: Vec<String>) -> (array: Array)
        ensures
            array@ == (FrameView { size: args_count as nat, args: args.deep_view() }),
    {
        Array { size: args_count, args }
    }

    /// Adds an argument at the end; the declared count stays.
    pub fn add_element(&mut self, arg: String)
        ensures
            final(self)@ == (FrameView { size: old(self)@.size, args: old(self)@.args.push(arg@) }),
    {
        self.args.push(arg);
        assert(self.args.deep_view() == old(self).args.deep_view().push(arg@));
    }

    /// Whether the frame holds as many arguments as it declares.
    pub fn is_complete(&self) -> (r: bool)
        ensures
            r == (self@.args.len() == self@.size),
    {
        self.args.len() == self.size
    }

    /// The number of arguments that the frame holds.
    pub fn args_count(&self) -> (r: usize)
        ensures
            r == self@.args.len(),
    {
        self.args.len()
    }

    /// The frame in the wording used for diagnostics.
    pub fn describe(&self) -> (s: String)
        ensures
            s@ == array_text(self@),
    {
        let listed = debug_list(&self.args);
        self.describe_with(listed.as_str())
    }

    /// The frame in the wording used for diagnostics, around a text that
    /// lists its arguments.
    pub fn describe_with(&self, listed: &str) -> (s: String)
        ensures
            s@ == array_text_with(self@.size, listed@),
    {
        let mut s = "Array(size: ".to_owned();
        append_decimal(&mut s, self.size);
        s.append(", args: ");
        s.append(listed);
        s.append(")");
        s
    }

    /// Takes one frame out of a buffer of received text.
    ///
    /// The buffer afterwards holds what `decode` leaves: nothing where no
    /// `*` was found, everything from the `*` on where the count cannot be
    /// read or lines are missing, and else the lines after the frame.
    pub fn deserialize(buffer: &mut String) -> (r: Result<Array, RedisError>)
        ensures
            final(buffer)@ == decode(old(buffer)@).rest,
            match r {
                Ok(array) => decode(old(buffer)@).outcome == Ok::<FrameView, DecodeFault>(array@),
                Err(e) => match decode(old(buffer)@).outcome {
                    Ok(_) => false,
                    Err(fault) => e@ == decode_error(old(buffer)@, fault),
                },
            },
            decode(old(buffer)@).outcome == Err::<FrameView, DecodeFault>(DecodeFault::NoMarker)
                ==> final(buffer)@.len() == 0,
            decode(old(buffer)@).outcome == Err::<FrameView, DecodeFault>(DecodeFault::Incomplete)
                ==> final(buffer)@ == from_marker(old(buffer)@),
    {
        let chars = chars_of(buffer.as_str());
        let len = chars.len();
        let ghost message = from_marker(chars@);
        let ghost all = lines(message);
        assert(chars@.skip(0) == chars@);
        let at = find_char(&chars, 0, '*');
        if at >= len {
            let dropped = buffer.clone();
            *buffer = String::new();
            return Err(RedisError::new(dropped, "Couldn't find asterisk in a buffer".to_owned()));
        }
        proof {
            lemma_position_is_first(chars@, '*');
            lemma_first_line(message);
        }
        let first = next_line(&chars, at);
        let ghost tail = lines(chars@.skip(first.next as int));
        assert(all[0] == chars@.subrange(at as int, first.end as int));
        assert(all.skip(1) == tail);
        let count: usize = match read_count(&chars, at, first.end) {
            Ok(n) => n,
            Err(fault) => {
                let kept = string_of(&chars, at, len);
                *buffer = kept.clone();
                return Err(RedisError::new(kept, fault.describe()));
            },
        };
        if count > usize::MAX / 2 {
            proof {
                lemma_lines_len(message);
            }
            return Err(keep_incomplete(buffer, &chars, at));
        }
        let needed: usize = 2 * count;
        assert(all.len() == 1 + tail.len());
        match read_arguments(&chars, first.next, needed) {
            None => Err(keep_incomplete(buffer, &chars, at)),
            Some((args, next)) => {
                assert(all.subrange(1, needed + 1) == tail.take(needed as int));
                assert(all.skip(needed + 1) == tail.skip(needed as int));
                let rest = rejoin(&chars, next);
                let array = Array::new(count, args);
                if array.is_complete() {
                    *buffer = rest;
                    Ok(array)
                } else {
                    let mut details = "Array is incomplete ".to_owned();
                    let described = array.describe();
                    details.append(described.as_str());
                    *buffer = rest.clone();
                    Err(RedisError::new(rest, details))
                }
            },
        }
    }

    /// The frame as it travels on the wire.
    pub fn serialize(self) -> (s: String)
        ensures
            s@ == wire_text(self@),
    {
        let mut s = String::new();
        s.push('*');
        append_decimal(&mut s, self.size);
        s.push('\r');
        s.push('\n');
        let ghost args = self.args.deep_view();
        let mut i: usize = 0;
        assert(args.skip(0) == args);
        while i < self.args.len()
            invariant
                i <= self.args.len(),
                args == self.args.deep_view(),
                s@ + bulk_text(args.skip(i as int)) == wire_text(self@),
            decreases self.args.len() - i,
        {
            let arg: &str = self.args[i].as_str();
            let ghost before = s@;
            let ghost tail = args.skip(i as int);
            assert(tail[0] == arg@);
            assert(tail.drop_first() == args.skip(i + 1));
            s.push('$');
            append_decimal(&mut s, arg.unicode_len());
            s.push('\r');
            s.push('\n');
            s.append(arg);
            s.push('\r');
            s.push('\n');
            assert(s@ == before + (seq!['$'] + decimal_text(arg@.len()) + crlf() + arg@ + crlf()));
            i += 1;
        }
        s
    }
}

} // verus!
