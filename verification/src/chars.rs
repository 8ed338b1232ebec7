//! Character classes, runs of characters, and conversions between text and
//! vectors of characters.
use vstd::prelude::*;

verus! {

/// Whether Unicode counts `c` as alphabetic or numeric. The tables behind this
/// are those of the standard library; nothing more is known of it in proofs.
pub uninterp spec fn unicode_alphanumeric(c: char) -> bool;

/// `char::is_alphanumeric` of the standard library. The contract only names
/// its result: the answer depends on `c` alone.
pub assume_specification[ char::is_alphanumeric ](c: char) -> (r: bool)
    ensures
        r == unicode_alphanumeric(c),
;

/// `String::push` of the standard library appends one character to the end of
/// the string and leaves the rest as it was.
pub assume_specification[ String::push ](s: &mut String, c: char)
    ensures
        final(s)@ == old(s)@.push(c),
;

/// A decimal digit, `0` to `9`.
pub open spec fn is_digit(c: char) -> bool {
    '0' <= c <= '9'
}

/// A character of a number: a decimal digit or the decimal point.
pub open spec fn is_numeric_char(c: char) -> bool {
    is_digit(c) || c == '.'
}

/// A character of an identifier: alphanumeric or the underscore.
pub open spec fn is_word_char(c: char) -> bool {
    unicode_alphanumeric(c) || c == '_'
}

/// The kinds of character that a run can be made of.
#[derive(Clone, Copy, Debug, PartialEq, Eq, Structural)]
pub enum CharClass {
    /// Decimal digits.
    Digit,
    /// Decimal digits and decimal points.
    Numeric,
    /// Alphanumeric characters and underscores.
    Word,
    /// Everything but the double quote.
    Text,
}

/// Whether `c` belongs to `class`.
pub open spec fn in_class(class: CharClass, c: char) -> bool {
    match class {
        CharClass::Digit => is_digit(c),
        CharClass::Numeric => is_numeric_char(c),
        CharClass::Word => is_word_char(c),
        CharClass::Text => c != '"',
    }
}

/// The length of the longest run of characters of `class` that starts at
/// index `from` of `s`.
pub open spec fn run_len(s: Seq<char>, from: int, class: CharClass) -> nat
    decreases s.len() - from,
{
    if 0 <= from < s.len() && in_class(class, s[from]) {
        1 + run_len(s, from + 1, class)
    } else {
        0
    }
}

/// How many decimal points `s` holds.
pub open spec fn dots(s: Seq<char>) -> nat
    decreases s.len(),
{
    if s.len() == 0 {
        0
    } else {
        dots(s.drop_last()) + if s.last() == '.' {
            1nat
        } else {
            0nat
        }
    }
}

/// A run stays inside the text, holds only characters of its class, and
/// cannot be extended.
pub proof fn lemma_run_len(s: Seq<char>, from: int, class: CharClass)
    requires
        0 <= from <= s.len(),
    ensures
        from + run_len(s, from, class) <= s.len(),
        forall|i: int| from <= i < from + run_len(s, from, class) ==> in_class(class, #[trigger] s[i]),
        from + run_len(s, from, class) < s.len() ==> !in_class(
            class,
            s[from + run_len(s, from, class)],
        ),
    decreases s.len() - from,
{
    if from < s.len() && in_class(class, s[from]) {
        lemma_run_len(s, from + 1, class);
    }
}

/// Tells whether `c` is a decimal digit.
pub fn is_decimal_digit(c: char) -> (r: bool)
    ensures
        r == is_digit(c),
{
    '0' <= c && c <= '9'
}

/// The characters of `text`, in order.
pub fn to_chars(text: &str) -> (chars: Vec<char>)
    ensures
        chars@ == text@,
{
    let mut chars: Vec<char> = Vec::new();
    for c in it: text.chars()
        invariant
            it.seq() == text@,
            chars@ == it.seq().take(it.index() as int),
    {
        chars.push(c);
    }
    chars
}

/// The characters of `chars` from index `from` up to, not including, `to`,
/// as a string.
pub fn text_of(chars: &Vec<char>, from: usize, to: usize) -> (text: String)
    requires
        from <= to <= chars.len(),
    ensures
        text@ == chars@.subrange(from as int, to as int),
{
    let mut text = String::new();
    let mut i: usize = from;
    while i < to
        invariant
            from <= i <= to <= chars.len(),
            text@ == chars@.subrange(from as int, i as int),
        decreases to - i,
    {
        text.push(chars[i]);
        i += 1;
    }
    text
}

/// Counts the decimal points among the characters of `chars` from index
/// `from` up to, not including, `to`.
pub fn count_dots(chars: &Vec<char>, from: usize, to: usize) -> (n: usize)
    requires
        from <= to <= chars.len(),
    ensures
        n == dots(chars@.subrange(from as int, to as int)),
{
    let mut n: usize = 0;
    let mut i: usize = from;
    while i < to
        invariant
            from <= i <= to <= chars.len(),
            n <= i - from,
            n == dots(chars@.subrange(from as int, i as int)),
        decreases to - i,
    {
        proof {
            assert(chars@.subrange(from as int, i + 1).drop_last() == chars@.subrange(
                from as int,
                i as int,
            ));
        }
        if chars[i] == '.' {
            n += 1;
        }
        i += 1;
    }
    n
}

/// Finds where the run of decimal digits that starts at index `from` ends.
pub fn digits_end(chars: &Vec<char>, from: usize) -> (end: usize)
    requires
        from <= chars.len(),
    ensures
        end == from + run_len(chars@, from as int, CharClass::Digit),
        end <= chars.len(),
{
    let mut end: usize = from;
    while end < chars.len() && is_decimal_digit(chars[end])
        invariant
            from <= end <= chars.len(),
            end + run_len(chars@, end as int, CharClass::Digit) == from + run_len(
                chars@,
                from as int,
                CharClass::Digit,
            ),
        decreases chars.len() - end,
    {
        end += 1;
    }
    end
}

} // verus!
