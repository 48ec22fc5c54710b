//! What holds of the decoder on frames that were written by `Array::serialize`.
use crate::decimal::{
    all_digits, decimal_text, decimal_value, is_digit, lemma_decimal_round_trip,
    lemma_decimal_text_digits, lemma_decimal_text_leading, lemma_digit_run, lemma_value_of_prefix,
    lemma_value_positive, parse_unsigned, NumberFault,
};
use crate::error::ErrorView;
use crate::lines::{
    crlf, is_one_line, join_lines, lemma_join_lines_concat, lemma_join_one_line,
    lemma_lines_of_ended_line, lemma_lines_of_front, lemma_lines_of_joined,
    lemma_lines_of_one_line, lines,
};
use crate::protocol::array::{
    arguments, bulk_text, declared_count, decode, from_marker, is_length_header,
    lemma_arguments_push, wire_text, Decoding, FrameView,
};
use crate::protocol::request::{decode_request, request_named, request_of, RequestView};
use crate::protocol::set::{lemma_single_modifier, modifier_of, Modifier};
use crate::text::ascii_upper_text;
use vstd::prelude::*;

verus! {

/// Whether a text can travel as an argument and come back as it was: it
/// holds no line feed and does not start like a length header.
pub open spec fn is_sendable_arg(arg: Seq<char>) -> bool {
    is_one_line(arg) && !is_length_header(arg)
}

/// Whether a frame can travel and come back as it was: it holds as many
/// arguments as it declares, their number fits the machine, and each of
/// them can travel.
pub open spec fn is_sendable(frame: FrameView) -> bool {
    &&& frame.size == frame.args.len()
    &&& frame.size <= usize::MAX
    &&& forall|i: int| 0 <= i < frame.args.len() ==> is_sendable_arg(#[trigger] frame.args[i])
}

/// The first line of a frame on the wire.
pub open spec fn count_line(size: nat) -> Seq<char> {
    seq!['*'] + decimal_text(size)
}

/// The length header of an argument.
pub open spec fn header_line(arg: Seq<char>) -> Seq<char> {
    seq!['$'] + decimal_text(arg.len())
}

/// The lines that carry the arguments of a frame: for each argument its
/// length header and the argument itself.
pub open spec fn bulk_lines(args: Seq<Seq<char>>) -> Seq<Seq<char>>
    decreases args.len(),
{
    if args.len() == 0 {
        Seq::empty()
    } else {
        seq![header_line(args[0]), args[0]] + bulk_lines(args.drop_first())
    }
}

/// The arguments of a frame travel as their lines, each with its line ending.
pub proof fn lemma_bulk_text_is_joined(args: Seq<Seq<char>>)
    ensures
        bulk_text(args) == join_lines(bulk_lines(args)),
    decreases args.len(),
{
    if args.len() > 0 {
        let later = args.drop_first();
        lemma_bulk_text_is_joined(later);
        let pair = seq![header_line(args[0]), args[0]];
        lemma_join_lines_concat(pair, bulk_lines(later));
        assert(pair.drop_first() == seq![args[0]]);
        lemma_join_one_line(args[0]);
        assert(join_lines(pair) == header_line(args[0]) + crlf() + (args[0] + crlf()));
        assert(bulk_text(args) == header_line(args[0]) + crlf() + (args[0] + crlf())
            + join_lines(bulk_lines(later)));
    }
}

/// A numeral holds no line feed.
pub proof fn lemma_numeral_is_one_line(n: nat, lead: char)
    requires
        lead != '\n',
    ensures
        is_one_line(seq![lead] + decimal_text(n)),
{
    lemma_decimal_text_digits(n);
    let s = seq![lead] + decimal_text(n);
    assert forall|i: int| 0 <= i < s.len() implies #[trigger] s[i] != '\n' by {
        if i > 0 {
            assert(s[i] == decimal_text(n)[i - 1]);
            assert(is_digit(decimal_text(n)[i - 1]));
        }
    }
}

/// The lines of the arguments that can travel: two for each argument, none
/// with a line feed, and the arguments are what is left of them without the
/// length headers.
pub proof fn lemma_bulk_lines(args: Seq<Seq<char>>)
    requires
        forall|i: int| 0 <= i < args.len() ==> is_sendable_arg(#[trigger] args[i]),
    ensures
        bulk_lines(args).len() == 2 * args.len(),
        forall|i: int| 0 <= i < bulk_lines(args).len() ==> is_one_line(#[trigger] bulk_lines(args)[i]),
        arguments(bulk_lines(args)) == args,
    decreases args.len(),
{
    reveal(Seq::filter);
    if args.len() == 0 {
        assert(arguments(bulk_lines(args)) == args);
    } else {
        let later = args.drop_first();
        assert forall|i: int| 0 <= i < later.len() implies is_sendable_arg(#[trigger] later[i]) by {
            assert(later[i] == args[i + 1]);
        }
        lemma_bulk_lines(later);
        let header = header_line(args[0]);
        let pair = seq![header, args[0]];
        lemma_numeral_is_one_line(args[0].len(), '$');
        assert forall|i: int| 0 <= i < bulk_lines(args).len() implies is_one_line(
            #[trigger] bulk_lines(args)[i],
        ) by {
            if i >= 2 {
                assert(bulk_lines(args)[i] == bulk_lines(later)[i - 2]);
            }
        }
        let none = Seq::<Seq<char>>::empty();
        assert(arguments(none) == none);
        lemma_arguments_push(none, header);
        lemma_arguments_push(none.push(header), args[0]);
        assert(none.push(header).push(args[0]) == pair);
        assert(arguments(pair) == seq![args[0]]);
        Seq::filter_distributes_over_add(
            pair,
            bulk_lines(later),
            |line: Seq<char>| !is_length_header(line),
        );
        assert(seq![args[0]] + later == args);
    }
}

/// The first line of a frame on the wire holds no line feed, starts with
/// the marker and declares the count that it was written for.
pub proof fn lemma_count_line(size: nat)
    requires
        size <= usize::MAX,
    ensures
        is_one_line(count_line(size)),
        count_line(size)[0] == '*',
        declared_count(count_line(size)) == Ok::<nat, NumberFault>(size),
{
    lemma_numeral_is_one_line(size, '*');
    lemma_decimal_text_digits(size);
    lemma_decimal_round_trip(size);
    let digits = decimal_text(size);
    assert(count_line(size).skip(1) == digits);
    lemma_digit_run(digits, digits.len() as int);
    assert(digits.take(digits.len() as int) == digits);
    assert(is_digit(digits[0]));
}

/// A frame on the wire is the lines of its count and of its arguments,
/// each with its line ending.
pub proof fn lemma_wire_text_is_joined(frame: FrameView)
    ensures
        wire_text(frame) == join_lines(seq![count_line(frame.size)] + bulk_lines(frame.args)),
{
    lemma_bulk_text_is_joined(frame.args);
    let first = seq![count_line(frame.size)];
    lemma_join_lines_concat(first, bulk_lines(frame.args));
    lemma_join_one_line(count_line(frame.size));
    assert(wire_text(frame) == count_line(frame.size) + crlf() + bulk_text(frame.args));
}

/// A frame on the wire starts with the marker.
pub proof fn lemma_wire_text_starts(frame: FrameView, tail: Seq<char>)
    ensures
        (wire_text(frame) + tail).len() > 0,
        (wire_text(frame) + tail)[0] == '*',
        from_marker(wire_text(frame) + tail) == wire_text(frame) + tail,
{
    let buffer = wire_text(frame) + tail;
    assert(buffer[0] == '*');
    assert(buffer.skip(0) == buffer);
}

/// Decoding a frame that was written to the wire, with any text after it,
/// gives the frame back and leaves the lines of that text.
pub proof fn lemma_decode_wire(frame: FrameView, tail: Seq<char>)
    requires
        is_sendable(frame),
    ensures
        decode(wire_text(frame) + tail) == (Decoding {
            outcome: Ok(frame),
            rest: join_lines(lines(tail)),
        }),
{
    let buffer = wire_text(frame) + tail;
    let n = frame.size;
    let written = seq![count_line(n)] + bulk_lines(frame.args);
    lemma_wire_text_starts(frame, tail);
    lemma_wire_text_is_joined(frame);
    lemma_count_line(n);
    lemma_bulk_lines(frame.args);
    assert forall|i: int| 0 <= i < written.len() implies is_one_line(#[trigger] written[i]) by {
        if i > 0 {
            assert(written[i] == bulk_lines(frame.args)[i - 1]);
        }
    }
    lemma_lines_of_joined(written, tail);
    let all = lines(buffer);
    assert(all == written + lines(tail));
    assert(all[0] == count_line(n));
    let used = (2 * n + 1) as int;
    assert(all.subrange(1, used) == bulk_lines(frame.args));
    assert(all.skip(used) == lines(tail));
    assert(frame == FrameView { size: n, args: arguments(all.subrange(1, used)) });
}

/// Round trip: decoding what `Array::serialize` wrote gives the frame
/// back, each argument as it was, and leaves the buffer empty.
pub proof fn lemma_round_trip(frame: FrameView)
    requires
        is_sendable(frame),
    ensures
        decode(wire_text(frame)) == (Decoding { outcome: Ok(frame), rest: Seq::empty() }),
        decode_request(wire_text(frame)) == request_of(frame),
{
    lemma_decode_wire(frame, Seq::empty());
    assert(wire_text(frame) + Seq::<char>::empty() == wire_text(frame));
    assert(lines(Seq::<char>::empty()) == Seq::<Seq<char>>::empty());
}

/// Pipelining: of two frames written one after the other, the first
/// decoding step gives the first and leaves the second as it was written,
/// and the second step gives the second and leaves the buffer empty.
pub proof fn lemma_pipelined(first: FrameView, second: FrameView)
    requires
        is_sendable(first),
        is_sendable(second),
    ensures
        decode(wire_text(first) + wire_text(second)) == (Decoding {
            outcome: Ok(first),
            rest: wire_text(second),
        }),
        decode(wire_text(second)) == (Decoding { outcome: Ok(second), rest: Seq::empty() }),
        decode_request(wire_text(first) + wire_text(second)) == request_of(first),
        decode_request(wire_text(second)) == request_of(second),
{
    lemma_decode_wire(first, wire_text(second));
    lemma_round_trip(second);
    let written = seq![count_line(second.size)] + bulk_lines(second.args);
    lemma_wire_text_is_joined(second);
    lemma_count_line(second.size);
    lemma_bulk_lines(second.args);
    assert forall|i: int| 0 <= i < written.len() implies is_one_line(#[trigger] written[i]) by {
        if i > 0 {
            assert(written[i] == bulk_lines(second.args)[i - 1]);
        }
    }
    lemma_lines_of_joined(written, Seq::empty());
    assert(wire_text(second) + Seq::<char>::empty() == wire_text(second));
    assert(lines(Seq::<char>::empty()) == Seq::<Seq<char>>::empty());
    assert(written + Seq::<Seq<char>>::empty() == written);
}

/// Where the last line of a frame on the wire starts: the line of its last
/// argument.
pub open spec fn last_line_start(frame: FrameView) -> int
    recommends
        frame.args.len() > 0,
{
    wire_text(frame).len() - (frame.args.last().len() + 2)
}

/// The last of the lines that carry some arguments is the last argument.
pub proof fn lemma_bulk_lines_last(args: Seq<Seq<char>>)
    requires
        args.len() > 0,
    ensures
        bulk_lines(args).len() >= 2,
        bulk_lines(args).last() == args.last(),
    decreases args.len(),
{
    let later = args.drop_first();
    if later.len() == 0 {
        assert(bulk_lines(later).len() == 0);
    } else {
        lemma_bulk_lines_last(later);
        assert(later.last() == args.last());
    }
}

/// A first piece that ends inside the first line of a frame, or just
/// before the line feed that ends it: the decoder reports a fault and keeps
/// the piece.
proof fn lemma_cut_in_count_line(frame: FrameView, cut: int)
    requires
        is_sendable(frame),
        frame.size >= 1,
        1 <= cut <= count_line(frame.size).len() + 1,
    ensures
        decode(wire_text(frame).take(cut)).outcome is Err,
        decode(wire_text(frame).take(cut)).rest == wire_text(frame).take(cut),
{
    let n = frame.size;
    let head = count_line(n);
    let digits = decimal_text(n);
    let whole = wire_text(frame);
    let first = whole.take(cut);
    lemma_count_line(n);
    lemma_decimal_text_digits(n);
    lemma_decimal_text_leading(n);
    lemma_decimal_round_trip(n);
    assert(whole == head + crlf() + bulk_text(frame.args));
    assert forall|j: int| 0 <= j < first.len() implies #[trigger] first[j] != '\n' by {
        if j < head.len() {
            assert(first[j] == head[j]);
        } else {
            assert(first[j] == '\r');
        }
    }
    lemma_lines_of_one_line(first);
    assert(first[0] == '*');
    assert(first.skip(0) == first);
    assert(from_marker(first) == first);
    let after = first.skip(1);
    let run: int = if cut - 1 <= digits.len() {
        cut - 1
    } else {
        digits.len() as int
    };
    assert forall|j: int| 0 <= j < run implies is_digit(#[trigger] after[j]) by {
        assert(after[j] == head[j + 1]);
        assert(head[j + 1] == digits[j]);
    }
    if run < after.len() {
        assert(after[run] == '\r');
    }
    lemma_digit_run(after, run);
    let read = after.take(run);
    assert(read == digits.take(run));
    if run > 0 {
        lemma_value_of_prefix(digits, run);
        lemma_value_positive(digits, run);
        assert(is_digit(read[0]));
        assert(all_digits(read));
        assert(parse_unsigned(read, usize::MAX as nat) == Ok::<nat, NumberFault>(
            decimal_value(read),
        ));
    }
}

/// A first piece that ends after the first line of a frame and before its
/// last line: the decoder finds too few lines and keeps the piece.
proof fn lemma_cut_in_arguments(frame: FrameView, cut: int)
    requires
        is_sendable(frame),
        frame.size >= 1,
        count_line(frame.size).len() + 2 <= cut <= last_line_start(frame),
    ensures
        decode(wire_text(frame).take(cut)).outcome is Err,
        decode(wire_text(frame).take(cut)).rest == wire_text(frame).take(cut),
{
    let n = frame.size;
    let head = count_line(n);
    let body = bulk_text(frame.args);
    let whole = wire_text(frame);
    let first = whole.take(cut);
    let carried = bulk_lines(frame.args);
    let early = carried.drop_last();
    let m = cut - head.len() - 2;
    lemma_count_line(n);
    lemma_bulk_lines(frame.args);
    lemma_bulk_lines_last(frame.args);
    lemma_bulk_text_is_joined(frame.args);
    assert(whole == head + crlf() + body);
    assert(carried == early + seq![carried.last()]);
    lemma_join_lines_concat(early, seq![carried.last()]);
    lemma_join_one_line(carried.last());
    assert(body == join_lines(early) + (frame.args.last() + crlf()));
    assert(body.take(m) == join_lines(early).take(m));
    assert forall|i: int| 0 <= i < early.len() implies is_one_line(#[trigger] early[i]) by {
        assert(early[i] == carried[i]);
    }
    lemma_lines_of_front(early, m);
    assert(first == head + crlf() + body.take(m));
    lemma_lines_of_ended_line(head, body.take(m));
    assert(first[0] == '*');
    assert(first.skip(0) == first);
    assert(from_marker(first) == first);
    assert(lines(first)[0] == head);
}

/// Delivery in two pieces: a frame that is cut anywhere before its last
/// line, or not at all, is decoded once, as it would be if it had come
/// whole. Before the second piece has come, the decoder reports a fault
/// and keeps the first piece as it is, so that the buffer holds the whole
/// frame once the second piece is added.
pub proof fn lemma_split_delivery(frame: FrameView, cut: int)
    requires
        is_sendable(frame),
        frame.size >= 1,
        0 <= cut <= last_line_start(frame) || cut == wire_text(frame).len(),
    ensures
        ({
            let whole = wire_text(frame);
            let early = decode(whole.take(cut));
            &&& decode(whole) == (Decoding { outcome: Ok(frame), rest: Seq::empty() })
            &&& decode_request(whole) == request_of(frame)
            &&& cut == whole.len() ==> early == decode(whole)
            &&& cut < whole.len() ==> {
                &&& early.outcome is Err
                &&& decode_request(whole.take(cut)) is Err
                &&& early.rest == whole.take(cut)
                &&& decode(early.rest + whole.skip(cut)) == decode(whole)
                &&& decode_request(early.rest + whole.skip(cut)) == request_of(frame)
            }
        }),
{
    let whole = wire_text(frame);
    lemma_round_trip(frame);
    if cut == whole.len() {
        assert(whole.take(cut) == whole);
    } else {
        if cut == 0 {
            assert(whole.take(0).len() == 0);
        } else if cut <= count_line(frame.size).len() + 1 {
            lemma_cut_in_count_line(frame, cut);
        } else {
            lemma_cut_in_arguments(frame, cut);
        }
        assert(whole.take(cut) + whole.skip(cut) == whole);
    }
}

/// The frame that a client writes for a request: the command name in
/// lower case and the arguments; a time to live travels as `PX` and the
/// number of milliseconds.
pub open spec fn frame_of(request: RequestView) -> FrameView {
    match request {
        RequestView::Ping => FrameView { size: 1, args: seq!["ping"@] },
        RequestView::Echo(text) => FrameView { size: 2, args: seq!["echo"@, text] },
        RequestView::Get(key) => FrameView { size: 2, args: seq!["get"@, key] },
        RequestView::SetKey(set) => match set.expiration_timeout_ms {
            None => FrameView { size: 3, args: seq!["set"@, set.key, set.value] },
            Some(ms) => FrameView {
                size: 5,
                args: seq!["set"@, set.key, set.value, "PX"@, decimal_text(ms as nat)],
            },
        },
    }
}

/// Whether the texts of a request can travel as arguments.
pub open spec fn is_sendable_request(request: RequestView) -> bool {
    match request {
        RequestView::Ping => true,
        RequestView::Echo(text) => is_sendable_arg(text),
        RequestView::Get(key) => is_sendable_arg(key),
        RequestView::SetKey(set) => is_sendable_arg(set.key) && is_sendable_arg(set.value),
    }
}

/// The frame of a request whose texts can travel can travel itself.
pub proof fn lemma_frame_of_is_sendable(request: RequestView)
    requires
        is_sendable_request(request),
    ensures
        is_sendable(frame_of(request)),
{
    reveal_strlit("ping");
    reveal_strlit("echo");
    reveal_strlit("get");
    reveal_strlit("set");
    reveal_strlit("PX");
    if let RequestView::SetKey(set) = request {
        if let Some(ms) = set.expiration_timeout_ms {
            lemma_decimal_text_digits(ms as nat);
            let numeral = decimal_text(ms as nat);
            assert(is_digit(numeral[0]));
            assert forall|i: int| 0 <= i < numeral.len() implies #[trigger] numeral[i] != '\n' by {
                assert(is_digit(numeral[i]));
            }
        }
    }
}

/// Round trip of requests: a request written as a frame and decoded comes
/// back with every argument as it was, and the frame stands for the
/// request again. The command name is compared in lower case, as the
/// frame holds it.
pub proof fn lemma_request_round_trip(request: RequestView)
    requires
        is_sendable_request(request),
    ensures
        decode(wire_text(frame_of(request))) == (Decoding {
            outcome: Ok(frame_of(request)),
            rest: Seq::empty(),
        }),
        request_named(frame_of(request).args[0], frame_of(request)) == Ok::<
            RequestView,
            ErrorView,
        >(request),
{
    lemma_frame_of_is_sendable(request);
    lemma_round_trip(frame_of(request));
    reveal_strlit("ping");
    reveal_strlit("echo");
    reveal_strlit("get");
    reveal_strlit("set");
    let frame = frame_of(request);
    if let RequestView::SetKey(set) = request {
        match set.expiration_timeout_ms {
            None => {
                assert(frame.args.skip(3).len() == 0);
            },
            Some(ms) => {
                reveal_strlit("PX");
                reveal_strlit("EX");
                let numeral = decimal_text(ms as nat);
                lemma_decimal_text_digits(ms as nat);
                lemma_decimal_round_trip(ms as nat);
                assert(is_digit(numeral[0]));
                assert(ascii_upper_text("PX"@) == "PX"@);
                assert(ascii_upper_text("PX"@)[0] != "EX"@[0]);
                assert(modifier_of("PX"@) == Some(Modifier::Px));
                lemma_single_modifier(frame.args[0], set.key, set.value, "PX"@, numeral);
            },
        }
    }
}

} // verus!
