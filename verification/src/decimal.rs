//! Decimal numerals: writing a number as digits and reading digits as a number.
use vstd::prelude::*;

verus! {

/// Whether `c` is one of the ten ASCII digits.
pub open spec fn is_digit(c: char) -> bool {
    '0' <= c <= '9'
}

/// The number that a digit stands for.
pub open spec fn digit_value(c: char) -> nat
    recommends
        is_digit(c),
{
    ((c as u8) - 48) as nat
}

/// The digit that stands for a number below ten.
pub open spec fn digit_char(d: nat) -> char
    recommends
        d < 10,
{
    ((d + 48) as u8) as char
}

/// Whether a text is made of digits only.
pub open spec fn all_digits(s: Seq<char>) -> bool {
    forall|i: int| 0 <= i < s.len() ==> is_digit(#[trigger] s[i])
}

/// The number that a run of digits denotes, the most significant digit first.
/// The empty run denotes zero.
pub open spec fn decimal_value(s: Seq<char>) -> nat
    decreases s.len(),
{
    if s.len() == 0 {
        0
    } else {
        decimal_value(s.drop_last()) * 10 + digit_value(s.last())
    }
}

/// The decimal numeral of a number, without leading zeros.
pub open spec fn decimal_text(n: nat) -> Seq<char>
    decreases n,
{
    if n < 10 {
        seq![digit_char(n)]
    } else {
        decimal_text(n / 10).push(digit_char(n % 10))
    }
}

/// How many characters at the front of a text are digits.
pub open spec fn digit_run(s: Seq<char>) -> nat
    decreases s.len(),
{
    if s.len() > 0 && is_digit(s[0]) {
        1 + digit_run(s.drop_first())
    } else {
        0
    }
}

/// Why a text is not a number that fits.
#[derive(Clone, Copy, Debug, PartialEq, Eq, Structural)]
pub enum NumberFault {
    /// The text is empty.
    Empty,
    /// The text holds something other than digits after an optional `+`, or
    /// no digit at all.
    InvalidDigit,
    /// The digits denote a number above the limit.
    TooLarge,
}

/// The digits of an unsigned numeral: the text without one leading `+`.
pub open spec fn unsigned_digits(s: Seq<char>) -> Seq<char> {
    if s.len() > 0 && s[0] == '+' {
        s.skip(1)
    } else {
        s
    }
}

/// Reads a text as an unsigned decimal number of at most `max`: an optional
/// `+`, and after it one or more digits and nothing else.
pub open spec fn parse_unsigned(s: Seq<char>, max: nat) -> Result<nat, NumberFault> {
    let digits = unsigned_digits(s);
    if s.len() == 0 {
        Err(NumberFault::Empty)
    } else if digits.len() == 0 || !all_digits(digits) {
        Err(NumberFault::InvalidDigit)
    } else if decimal_value(digits) > max {
        Err(NumberFault::TooLarge)
    } else {
        Ok(decimal_value(digits))
    }
}

/// The explanation given for a fault.
pub open spec fn number_fault_text(fault: NumberFault) -> Seq<char> {
    match fault {
        NumberFault::Empty => "cannot parse integer from empty string"@,
        NumberFault::InvalidDigit => "invalid digit found in string"@,
        NumberFault::TooLarge => "number too large to fit in target type"@,
    }
}

impl NumberFault {
    /// The explanation of the fault, as a string.
    pub fn describe(self) -> (s: String)
        ensures
            s@ == number_fault_text(self),
    {
        match self {
            NumberFault::Empty => "cannot parse integer from empty string".to_owned(),
            NumberFault::InvalidDigit => "invalid digit found in string".to_owned(),
            NumberFault::TooLarge => "number too large to fit in target type".to_owned(),
        }
    }
}

/// A run of digits denotes at least what any of its prefixes denotes.
pub proof fn lemma_value_of_prefix(s: Seq<char>, k: int)
    requires
        0 <= k <= s.len(),
    ensures
        decimal_value(s.take(k)) <= decimal_value(s),
    decreases s.len(),
{
    if k == s.len() {
        assert(s.take(k) == s);
    } else {
        assert(s.drop_last().take(k) == s.take(k));
        lemma_value_of_prefix(s.drop_last(), k);
    }
}

/// Appending one digit multiplies the value by ten and adds the digit.
pub proof fn lemma_value_push(s: Seq<char>, c: char)
    ensures
        decimal_value(s.push(c)) == decimal_value(s) * 10 + digit_value(c),
{
    assert(s.push(c).drop_last() == s);
}

/// A numeral is made of digits, at least one of them.
pub proof fn lemma_decimal_text_digits(n: nat)
    ensures
        decimal_text(n).len() >= 1,
        all_digits(decimal_text(n)),
    decreases n,
{
    if n >= 10 {
        lemma_decimal_text_digits(n / 10);
    }
}

/// Reading the numeral of a number gives the number back.
pub proof fn lemma_decimal_round_trip(n: nat)
    ensures
        decimal_value(decimal_text(n)) == n,
    decreases n,
{
    if n < 10 {
        let s = decimal_text(n);
        assert(s.drop_last().len() == 0);
        assert(decimal_value(s) == decimal_value(s.drop_last()) * 10 + digit_value(s.last()));
    } else {
        lemma_decimal_round_trip(n / 10);
        lemma_value_push(decimal_text(n / 10), digit_char(n % 10));
    }
}

/// The numeral of a positive number does not start with a zero.
pub proof fn lemma_decimal_text_leading(n: nat)
    requires
        n >= 1,
    ensures
        decimal_text(n)[0] != '0',
    decreases n,
{
    if n >= 10 {
        lemma_decimal_text_digits(n / 10);
        lemma_decimal_text_leading(n / 10);
    }
}

/// A run of digits that does not start with a zero denotes a positive
/// number, and so does each of its prefixes that is not empty.
pub proof fn lemma_value_positive(s: Seq<char>, k: int)
    requires
        1 <= k <= s.len(),
        all_digits(s),
        s[0] != '0',
    ensures
        decimal_value(s.take(k)) >= 1,
    decreases k,
{
    let p = s.take(k);
    assert(p.last() == s[k - 1]);
    if k == 1 {
        assert(p.drop_last().len() == 0);
        assert(decimal_value(p) == decimal_value(p.drop_last()) * 10 + digit_value(p.last()));
    } else {
        assert(p.drop_last() == s.take(k - 1));
        lemma_value_positive(s, k - 1);
    }
}

/// The digits at the front of a text end at the first character that is no
/// digit, or where the text ends.
pub proof fn lemma_digit_run(s: Seq<char>, k: int)
    requires
        0 <= k <= s.len(),
        forall|j: int| 0 <= j < k ==> is_digit(#[trigger] s[j]),
        k < s.len() ==> !is_digit(s[k]),
    ensures
        digit_run(s) == k,
    decreases s.len(),
{
    if k > 0 {
        let t = s.drop_first();
        assert forall|j: int| 0 <= j < k - 1 implies is_digit(#[trigger] t[j]) by {
            assert(t[j] == s[j + 1]);
        }
        lemma_digit_run(t, k - 1);
    }
}

/// The number of a digit, or nothing for any other character.
pub fn digit_of(c: char) -> (r: Option<u8>)
    ensures
        r is Some <==> is_digit(c),
        r matches Some(d) ==> d == digit_value(c) && d < 10,
{
    if c >= '0' && c <= '9' {
        Some((c as u8) - 48)
    } else {
        None
    }
}

/// Reads `chars[from..to]` as an unsigned decimal number of at most `max`.
pub(crate) fn read_unsigned(chars: &Vec<char>, from: usize, to: usize, max: u64) -> (r: Result<
    u64,
    NumberFault,
>)
    requires
        from <= to <= chars.len(),
    ensures
        r matches Ok(v) ==> parse_unsigned(chars@.subrange(from as int, to as int), max as nat)
            == Ok::<nat, NumberFault>(v as nat),
        r matches Err(fault) ==> parse_unsigned(
            chars@.subrange(from as int, to as int),
            max as nat,
        ) == Err::<nat, NumberFault>(fault),
{
    let ghost text = chars@.subrange(from as int, to as int);
    if from == to {
        return Err(NumberFault::Empty);
    }
    let start: usize = if chars[from] == '+' {
        from + 1
    } else {
        from
    };
    let ghost digits = chars@.subrange(start as int, to as int);
    assert(unsigned_digits(text) == digits);
    if start == to {
        return Err(NumberFault::InvalidDigit);
    }
    let mut acc: u64 = 0;
    let mut overflow = false;
    let mut i: usize = start;
    while i < to
        invariant
            from <= start <= i <= to <= chars.len(),
            from < to,
            text == chars@.subrange(from as int, to as int),
            digits == chars@.subrange(start as int, to as int),
            digits == unsigned_digits(text),
            all_digits(digits.take(i - start)),
            !overflow ==> acc == decimal_value(digits.take(i - start)) && acc <= max,
            overflow ==> decimal_value(digits.take(i - start)) > max,
        decreases to - i,
    {
        let ghost seen = digits.take(i - start);
        let ghost next = digits.take(i + 1 - start);
        assert(next == seen.push(chars@[i as int]));
        match digit_of(chars[i]) {
            None => {
                assert(!is_digit(digits[i - start]));
                return Err(NumberFault::InvalidDigit);
            },
            Some(d) => {
                proof {
                    lemma_value_push(seen, chars@[i as int]);
                }
                if !overflow {
                    if d as u64 > max || acc > (max - d as u64) / 10 {
                        overflow = true;
                    } else {
                        acc = acc * 10 + d as u64;
                    }
                }
            },
        }
        i += 1;
    }
    assert(digits.take(to - start) == digits);
    if overflow {
        Err(NumberFault::TooLarge)
    } else {
        Ok(acc)
    }
}

/// Appends the decimal numeral of `n` to a string.
pub fn append_decimal(s: &mut String, n: usize)
    ensures
        final(s)@ == old(s)@ + decimal_text(n as nat),
    decreases n,
{
    if n >= 10 {
        append_decimal(s, n / 10);
    }
    let d: u8 = (n % 10) as u8;
    s.push((d + 48) as char);
}

} // verus!
