//! Moving between strings and vectors of characters, and ASCII case folding.
use vstd::prelude::*;

verus! {

/// Contract assumed of `String::push` of the standard library: the character
/// is appended at the end of the string, and the rest of it is unchanged.
pub assume_specification[ String::push ](s: &mut String, c: char)
    ensures
        final(s)@ == old(s)@.push(c),
;

/// The lowercase form of a text as `str::to_lowercase` of the standard
/// library gives it, by the Unicode case mappings.
pub uninterp spec fn lowercase_text(s: Seq<char>) -> Seq<char>;

/// Contract assumed of `str::to_lowercase` of the standard library: the
/// result depends on the characters of the text alone. It is `lowercase_text`
/// of them; nothing more is claimed of it.
pub assume_specification[ str::to_lowercase ](s: &str) -> (r: String)
    ensures
        r@ == lowercase_text(s@),
;

/// The text that the standard library gives for a list of strings when it is
/// formatted with `{:?}`.
pub uninterp spec fn debug_text(items: Seq<Seq<char>>) -> Seq<char>;

/// Formats a list of strings with `{:?}` of the standard library. The
/// contract claims only that the outcome depends on the strings' characters
/// alone: it is `debug_text` of them.
#[verifier::external_body]
pub(crate) fn debug_list(items: &Vec<String>) -> (r: String)
    ensures
        r@ == debug_text(items.deep_view()),
{
    format!("{:?}", items)
}

/// The characters of a string, in order.
pub fn chars_of(s: &str) -> (v: Vec<char>)
    ensures
        v@ == s@,
{
    let mut v: Vec<char> = Vec::new();
    for c in it: s.chars()
        invariant
            it.seq() == s@,
            v@ == s@.take(it.index() as int),
    {
        v.push(c);
    }
    v
}

/// Appends the characters `chars[from..to]` to a string.
pub(crate) fn append_chars(s: &mut String, chars: &Vec<char>, from: usize, to: usize)
    requires
        from <= to <= chars.len(),
    ensures
        final(s)@ == old(s)@ + chars@.subrange(from as int, to as int),
{
    let mut i: usize = from;
    while i < to
        invariant
            from <= i <= to <= chars.len(),
            s@ == old(s)@ + chars@.subrange(from as int, i as int),
        decreases to - i,
    {
        s.push(chars[i]);
        i += 1;
    }
}

/// The string made of the characters `chars[from..to]`.
pub(crate) fn string_of(chars: &Vec<char>, from: usize, to: usize) -> (s: String)
    requires
        from <= to <= chars.len(),
    ensures
        s@ == chars@.subrange(from as int, to as int),
{
    let mut s = String::new();
    append_chars(&mut s, chars, from, to);
    s
}

/// Whether two strings hold the same characters.
pub fn same_text(a: &str, b: &str) -> (r: bool)
    ensures
        r == (a@ == b@),
{
    let x = chars_of(a);
    let y = chars_of(b);
    if x.len() != y.len() {
        return false;
    }
    let mut i: usize = 0;
    while i < x.len()
        invariant
            i <= x.len(),
            x.len() == y.len(),
            x@ == a@,
            y@ == b@,
            forall|j: int| 0 <= j < i ==> x@[j] == y@[j],
        decreases x.len() - i,
    {
        if x[i] != y[i] {
            return false;
        }
        i += 1;
    }
    assert(a@ =~= b@);
    true
}

/// The upper-case form of an ASCII lower-case letter; any other character is
/// left as it is.
pub open spec fn ascii_upper(c: char) -> char {
    if 'a' <= c <= 'z' {
        ((c as u8) - 32) as char
    } else {
        c
    }
}

/// A text with each character folded to ASCII upper case.
pub open spec fn ascii_upper_text(s: Seq<char>) -> Seq<char> {
    Seq::new(s.len(), |i: int| ascii_upper(s[i]))
}

/// Whether `s` and `word` are the same text once `s` is folded to ASCII
/// upper case. `word` is meant to be in upper case already.
pub open spec fn is_word(s: Seq<char>, word: Seq<char>) -> bool {
    ascii_upper_text(s) == word
}

/// Folds one character to ASCII upper case.
pub fn to_ascii_upper(c: char) -> (r: char)
    ensures
        r == ascii_upper(c),
{
    if c >= 'a' && c <= 'z' {
        ((c as u8) - 32) as char
    } else {
        c
    }
}

/// Compares a string with an upper-case word, ignoring ASCII case in the string.
pub fn matches_word(s: &str, word: &str) -> (r: bool)
    ensures
        r == is_word(s@, word@),
{
    let a = chars_of(s);
    let b = chars_of(word);
    if a.len() != b.len() {
        return false;
    }
    let mut i: usize = 0;
    while i < a.len()
        invariant
            i <= a.len(),
            a.len() == b.len(),
            a@ == s@,
            b@ == word@,
            forall|j: int| 0 <= j < i ==> ascii_upper(a@[j]) == b@[j],
        decreases a.len() - i,
    {
        if to_ascii_upper(a[i]) != b[i] {
            assert(ascii_upper_text(s@)[i as int] != word@[i as int]);
            return false;
        }
        i += 1;
    }
    assert(ascii_upper_text(s@) =~= word@);
    true
}

} // verus!
