//! Splitting text into lines and putting lines together again.
//!
//! A line ends at a line feed. A carriage return just before that line feed
//! belongs to the line ending and not to the line. Text after the last line
//! feed forms a last line of its own, unless it is empty.
use vstd::prelude::*;

verus! {

/// The index of the first `c` in `s`, or the length of `s` if there is none.
pub open spec fn position(s: Seq<char>, c: char) -> nat
    decreases s.len(),
{
    if s.len() == 0 || s[0] == c {
        0
    } else {
        1 + position(s.drop_first(), c)
    }
}

/// The two characters that end a line on the wire.
pub open spec fn crlf() -> Seq<char> {
    seq!['\r', '\n']
}

/// A line without the carriage return at its end, if it has one.
pub open spec fn without_cr(line: Seq<char>) -> Seq<char> {
    if line.len() > 0 && line.last() == '\r' {
        line.drop_last()
    } else {
        line
    }
}

/// The lines of a text, without their line endings.
pub open spec fn lines(s: Seq<char>) -> Seq<Seq<char>>
    decreases s.len(),
{
    let k = position(s, '\n') as int;
    if s.len() == 0 {
        Seq::empty()
    } else if k >= s.len() {
        seq![s]
    } else {
        seq![without_cr(s.take(k))] + lines(s.skip(k + 1))
    }
}

/// The text made of the given lines, each followed by a carriage return and
/// a line feed.
pub open spec fn join_lines(ls: Seq<Seq<char>>) -> Seq<char>
    decreases ls.len(),
{
    if ls.len() == 0 {
        Seq::empty()
    } else {
        ls[0] + crlf() + join_lines(ls.drop_first())
    }
}

/// `position` is at most the length; no character before it is `c`, and the
/// character at it is `c` if there is one.
pub proof fn lemma_position_is_first(s: Seq<char>, c: char)
    ensures
        position(s, c) <= s.len(),
        forall|j: int| 0 <= j < position(s, c) ==> #[trigger] s[j] != c,
        position(s, c) < s.len() ==> s[position(s, c) as int] == c,
    decreases s.len(),
{
    if s.len() == 0 || s[0] == c {
    } else {
        let t = s.drop_first();
        lemma_position_is_first(t, c);
        assert forall|j: int| 0 <= j < position(s, c) implies #[trigger] s[j] != c by {
            if j > 0 {
                assert(s[j] == t[j - 1]);
            }
        }
    }
}

/// An index with no `c` before it, which holds `c` or is the length, is the
/// `position` of `c`.
pub proof fn lemma_position_unique(s: Seq<char>, c: char, k: int)
    requires
        0 <= k <= s.len(),
        forall|j: int| 0 <= j < k ==> #[trigger] s[j] != c,
        k < s.len() ==> s[k] == c,
    ensures
        position(s, c) == k,
    decreases s.len(),
{
    if k > 0 {
        let t = s.drop_first();
        assert forall|j: int| 0 <= j < k - 1 implies #[trigger] t[j] != c by {
            assert(t[j] == s[j + 1]);
        }
        lemma_position_unique(t, c, k - 1);
    }
}

/// A text has at most as many lines as characters.
pub proof fn lemma_lines_len(s: Seq<char>)
    ensures
        lines(s).len() <= s.len(),
    decreases s.len(),
{
    let k = position(s, '\n') as int;
    if s.len() > 0 && k < s.len() {
        lemma_lines_len(s.skip(k + 1));
    }
}

/// One line on its own is joined as the line and its line ending.
pub proof fn lemma_join_one_line(line: Seq<char>)
    ensures
        join_lines(seq![line]) == line + crlf(),
{
    let one = seq![line];
    assert(one.drop_first().len() == 0);
    assert(join_lines(one.drop_first()) == Seq::<char>::empty());
    assert(join_lines(one) == line + crlf() + join_lines(one.drop_first()));
}

/// Joining two lists of lines, one after the other, joins their texts.
pub proof fn lemma_join_lines_concat(a: Seq<Seq<char>>, b: Seq<Seq<char>>)
    ensures
        join_lines(a + b) == join_lines(a) + join_lines(b),
    decreases a.len(),
{
    if a.len() == 0 {
        assert(a + b == b);
    } else {
        assert((a + b).drop_first() == a.drop_first() + b);
        lemma_join_lines_concat(a.drop_first(), b);
    }
}

/// Whether a text holds no line feed, so that it can travel as one line.
pub open spec fn is_one_line(s: Seq<char>) -> bool {
    forall|i: int| 0 <= i < s.len() ==> #[trigger] s[i] != '\n'
}

/// A text that holds no line feed and is not empty is its own single line.
pub proof fn lemma_lines_of_one_line(s: Seq<char>)
    requires
        is_one_line(s),
    ensures
        lines(s) == if s.len() == 0 {
            Seq::<Seq<char>>::empty()
        } else {
            seq![s]
        },
{
    lemma_position_unique(s, '\n', s.len() as int);
}

/// A line with its line ending, put before a text, is the first line of the
/// whole; the lines of the text follow it.
pub proof fn lemma_lines_of_ended_line(line: Seq<char>, tail: Seq<char>)
    requires
        is_one_line(line),
    ensures
        lines(line + crlf() + tail) == seq![line] + lines(tail),
{
    let s = line + crlf() + tail;
    let k = (line.len() + 1) as int;
    assert(s[k] == '\n');
    assert forall|j: int| 0 <= j < k implies #[trigger] s[j] != '\n' by {
        if j < line.len() {
            assert(s[j] == line[j]);
        } else {
            assert(s[j] == '\r');
        }
    }
    lemma_position_unique(s, '\n', k);
    assert(s.take(k) == line.push('\r'));
    assert(line.push('\r').drop_last() == line);
    assert(s.skip(k + 1) == tail);
}

/// Splitting what was joined gives the lines back, where none of them holds
/// a line feed; the lines of a text put after them follow.
pub proof fn lemma_lines_of_joined(ls: Seq<Seq<char>>, tail: Seq<char>)
    requires
        forall|i: int| 0 <= i < ls.len() ==> is_one_line(#[trigger] ls[i]),
    ensures
        lines(join_lines(ls) + tail) == ls + lines(tail),
    decreases ls.len(),
{
    if ls.len() == 0 {
        assert(join_lines(ls) + tail == tail);
        assert(ls + lines(tail) == lines(tail));
    } else {
        let later = ls.drop_first();
        assert forall|i: int| 0 <= i < later.len() implies is_one_line(#[trigger] later[i]) by {
            assert(later[i] == ls[i + 1]);
        }
        lemma_lines_of_joined(later, tail);
        lemma_lines_of_ended_line(ls[0], join_lines(later) + tail);
        assert(join_lines(ls) + tail == ls[0] + crlf() + (join_lines(later) + tail));
        assert(seq![ls[0]] + (later + lines(tail)) == ls + lines(tail));
    }
}

/// A front part of joined lines has no more lines than were joined.
pub proof fn lemma_lines_of_front(ls: Seq<Seq<char>>, k: int)
    requires
        forall|i: int| 0 <= i < ls.len() ==> is_one_line(#[trigger] ls[i]),
        0 <= k <= join_lines(ls).len(),
    ensures
        lines(join_lines(ls).take(k)).len() <= ls.len(),
    decreases ls.len(),
{
    let joined = join_lines(ls);
    let front = joined.take(k);
    if ls.len() == 0 {
    } else {
        let later = ls.drop_first();
        let ended = (ls[0].len() + 2) as int;
        assert(joined == ls[0] + crlf() + join_lines(later));
        if k < ended {
            assert forall|j: int| 0 <= j < front.len() implies #[trigger] front[j] != '\n' by {
                if j < ls[0].len() {
                    assert(front[j] == ls[0][j]);
                } else {
                    assert(front[j] == '\r');
                }
            }
            lemma_lines_of_one_line(front);
        } else {
            assert forall|i: int| 0 <= i < later.len() implies is_one_line(#[trigger] later[i]) by {
                assert(later[i] == ls[i + 1]);
            }
            lemma_lines_of_front(later, k - ended);
            let beyond = join_lines(later).take(k - ended);
            assert(front == ls[0] + crlf() + beyond);
            lemma_lines_of_ended_line(ls[0], beyond);
        }
    }
}

/// One line of a vector of characters: its text is `chars[start..end]`, and
/// the text after its line ending starts at `next`.
pub(crate) struct Line {
    pub start: usize,
    pub end: usize,
    pub next: usize,
}

/// The index of the first `c` at or after `from`, or the length of `chars`
/// if there is none.
pub(crate) fn find_char(chars: &Vec<char>, from: usize, c: char) -> (r: usize)
    requires
        from <= chars.len(),
    ensures
        from <= r <= chars.len(),
        r - from == position(chars@.skip(from as int), c),
{
    let mut i: usize = from;
    while i < chars.len() && chars[i] != c
        invariant
            from <= i <= chars.len(),
            forall|j: int| from <= j < i ==> chars@[j] != c,
        decreases chars.len() - i,
    {
        i += 1;
    }
    proof {
        lemma_position_unique(chars@.skip(from as int), c, i - from);
    }
    i
}

/// The line that starts at `from`, where text is left.
pub(crate) fn next_line(chars: &Vec<char>, from: usize) -> (line: Line)
    requires
        from < chars.len(),
    ensures
        line.start == from,
        from <= line.end <= line.next <= chars.len(),
        from < line.next,
        lines(chars@.skip(from as int)) == seq![
            chars@.subrange(line.start as int, line.end as int),
        ] + lines(chars@.skip(line.next as int)),
{
    let ghost text = chars@.skip(from as int);
    let feed = find_char(chars, from, '\n');
    if feed == chars.len() {
        assert(text == chars@.subrange(from as int, chars.len() as int));
        assert(lines(chars@.skip(chars.len() as int)) == Seq::<Seq<char>>::empty());
        Line { start: from, end: feed, next: feed }
    } else {
        let end: usize = if feed > from && chars[feed - 1] == '\r' {
            feed - 1
        } else {
            feed
        };
        proof {
            let k = position(text, '\n') as int;
            assert(text.take(k) == chars@.subrange(from as int, feed as int));
            assert(without_cr(text.take(k)) == chars@.subrange(from as int, end as int));
            assert(text.skip(k + 1) == chars@.skip(feed + 1));
        }
        Line { start: from, end, next: feed + 1 }
    }
}

} // verus!
