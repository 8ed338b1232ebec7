//! Numerals: the written form of a number, as the right-hand side of an
//! assignment holds it.
//!
//! The grammar is that of the decimal literals that Rust reads as a
//! floating-point number:
//!
//! ```text
//! Float  ::= Sign? ( 'inf' | 'infinity' | 'nan' | Number )
//! Number ::= ( Digit+ | Digit+ '.' Digit* | Digit* '.' Digit+ ) Exp?
//! Exp    ::= 'e' Sign? Digit+
//! Sign   ::= [+-]
//! Digit  ::= [0-9]
//! ```
//!
//! Letters count in either case. The library keeps the text and leaves its
//! conversion to a machine number to the caller.
use vstd::prelude::*;
use crate::chars::{digits_end, is_digit, lemma_run_len, run_len, to_chars, CharClass};

verus! {

/// A plus or minus sign.
pub open spec fn is_sign(c: char) -> bool {
    c == '+' || c == '-'
}

/// Whether `s` spells a word whose lower-case form is `lower` and whose
/// upper-case form is `upper`, each letter in either case.
pub open spec fn spells(s: Seq<char>, lower: Seq<char>, upper: Seq<char>) -> bool {
    &&& s.len() == lower.len()
    &&& forall|i: int| 0 <= i < s.len() ==> s[i] == lower[i] || s[i] == upper[i]
}

/// Whether `s` names infinity or not-a-number.
pub open spec fn is_special(s: Seq<char>) -> bool {
    ||| spells(s, seq!['i', 'n', 'f'], seq!['I', 'N', 'F'])
    ||| spells(
        s,
        seq!['i', 'n', 'f', 'i', 'n', 'i', 't', 'y'],
        seq!['I', 'N', 'F', 'I', 'N', 'I', 'T', 'Y'],
    )
    ||| spells(s, seq!['n', 'a', 'n'], seq!['N', 'A', 'N'])
}

/// Whether the characters of `s` from index `from` up to, not including,
/// `to` are decimal digits.
pub open spec fn digits_between(s: Seq<char>, from: int, to: int) -> bool {
    forall|i: int| from <= i < to ==> is_digit(#[trigger] s[i])
}

/// Whether `s` from `from` up to `to` is a mantissa: one digit or more, or
/// digits on one side of a decimal point at least.
pub open spec fn is_mantissa(s: Seq<char>, from: int, to: int) -> bool {
    ||| from < to && digits_between(s, from, to)
    ||| exists|point: int|
        {
            &&& from <= point < to
            &&& from + 2 <= to
            &&& #[trigger] s[point] == '.'
            &&& digits_between(s, from, point)
            &&& digits_between(s, point + 1, to)
        }
}

/// Where the digits of an exponent start whose letter is at `from`: after
/// the letter and the sign, if there is one.
pub open spec fn exponent_digits(s: Seq<char>, from: int) -> int {
    if from + 1 < s.len() && is_sign(s[from + 1]) {
        from + 2
    } else {
        from + 1
    }
}

/// Whether `s` from `from` up to `to` is an exponent: the letter `e`, an
/// optional sign, and one digit or more.
pub open spec fn is_exponent(s: Seq<char>, from: int, to: int) -> bool {
    &&& 0 <= from < to <= s.len()
    &&& (s[from] == 'e' || s[from] == 'E')
    &&& exponent_digits(s, from) < to
    &&& digits_between(s, exponent_digits(s, from), to)
}

/// Whether `s` from `from` up to `to` is a decimal number: a mantissa and,
/// after it, nothing or an exponent.
pub open spec fn is_number(s: Seq<char>, from: int, to: int) -> bool {
    exists|end: int|
        from <= end <= to && #[trigger] is_mantissa(s, from, end) && (end == to || is_exponent(
            s,
            end,
            to,
        ))
}

/// Where the number starts in `s`: after the sign, if there is one.
pub open spec fn unsigned_start(s: Seq<char>) -> int {
    if s.len() > 0 && is_sign(s[0]) {
        1
    } else {
        0
    }
}

/// Whether `s` is a numeral: an optional sign before a decimal number or
/// before one of the words `inf`, `infinity` and `nan`.
pub open spec fn is_float_text(s: Seq<char>) -> bool {
    is_number(s, unsigned_start(s), s.len() as int) || is_special(
        s.subrange(unsigned_start(s), s.len() as int),
    )
}

/// Where a reader that takes every digit it can finds the end of the
/// mantissa that starts at `from`.
spec fn mantissa_end(s: Seq<char>, from: int) -> int {
    let point = from + run_len(s, from, CharClass::Digit);
    if 0 <= point < s.len() && s[point] == '.' {
        point + 1 + run_len(s, point + 1, CharClass::Digit)
    } else {
        point
    }
}

/// How many digits that reader finds in the mantissa.
spec fn mantissa_digits(s: Seq<char>, from: int) -> int {
    let point = from + run_len(s, from, CharClass::Digit);
    if 0 <= point < s.len() && s[point] == '.' {
        mantissa_end(s, from) - from - 1
    } else {
        mantissa_end(s, from) - from
    }
}

/// Whether that reader finds an exponent from `from` to the end of `s`.
spec fn reads_exponent(s: Seq<char>, from: int) -> bool {
    &&& 0 <= from < s.len()
    &&& (s[from] == 'e' || s[from] == 'E')
    &&& run_len(s, exponent_digits(s, from), CharClass::Digit) >= 1
    &&& exponent_digits(s, from) + run_len(s, exponent_digits(s, from), CharClass::Digit)
        == s.len()
}

/// Whether that reader finds a decimal number from `from` to the end of `s`.
spec fn reads_number(s: Seq<char>, from: int) -> bool {
    &&& mantissa_digits(s, from) >= 1
    &&& (mantissa_end(s, from) == s.len() || reads_exponent(s, mantissa_end(s, from)))
}

/// The reader finds an exponent where the grammar has one.
proof fn lemma_reads_exponent(s: Seq<char>, from: int)
    requires
        0 <= from <= s.len(),
    ensures
        reads_exponent(s, from) == is_exponent(s, from, s.len() as int),
{
    if exponent_digits(s, from) <= s.len() {
        lemma_run_len(s, exponent_digits(s, from), CharClass::Digit);
    }
}

/// The reader finds a number where the grammar has one: taking every digit
/// it can loses no number, since a mantissa ends at a character that is no
/// digit, and so do the digits before its decimal point.
proof fn lemma_reads_number(s: Seq<char>, from: int)
    requires
        0 <= from <= s.len(),
    ensures
        reads_number(s, from) == is_number(s, from, s.len() as int),
{
    let point = from + run_len(s, from, CharClass::Digit);
    lemma_run_len(s, from, CharClass::Digit);
    if point < s.len() {
        lemma_run_len(s, point + 1, CharClass::Digit);
    }
    lemma_reads_exponent(s, mantissa_end(s, from));
    if reads_number(s, from) {
        assert(is_mantissa(s, from, mantissa_end(s, from)));
    }
}

fn is_sign_char(c: char) -> (r: bool)
    ensures
        r == is_sign(c),
{
    c == '+' || c == '-'
}

/// Tells whether `chars` from index `from` to its end spells the word given
/// in both cases.
fn spells_word(chars: &Vec<char>, from: usize, lower: &Vec<char>, upper: &Vec<char>) -> (r: bool)
    requires
        from <= chars.len(),
        lower.len() == upper.len(),
    ensures
        r == spells(chars@.subrange(from as int, chars.len() as int), lower@, upper@),
{
    if chars.len() - from != lower.len() {
        return false;
    }
    let ghost rest = chars@.subrange(from as int, chars.len() as int);
    let mut i: usize = 0;
    while i < lower.len()
        invariant
            from <= chars.len(),
            chars.len() - from == lower.len() == upper.len(),
            rest == chars@.subrange(from as int, chars.len() as int),
            i <= lower.len(),
            forall|j: int| 0 <= j < i ==> rest[j] == lower[j] || rest[j] == upper[j],
        decreases lower.len() - i,
    {
        let c = chars[from + i];
        if c != lower[i] && c != upper[i] {
            return false;
        }
        i += 1;
    }
    true
}

/// Tells whether `chars` from index `from` to its end names infinity or
/// not-a-number.
fn is_special_word(chars: &Vec<char>, from: usize) -> (r: bool)
    requires
        from <= chars.len(),
    ensures
        r == is_special(chars@.subrange(from as int, chars.len() as int)),
{
    spells_word(chars, from, &vec!['i', 'n', 'f'], &vec!['I', 'N', 'F']) || spells_word(
        chars,
        from,
        &vec!['i', 'n', 'f', 'i', 'n', 'i', 't', 'y'],
        &vec!['I', 'N', 'F', 'I', 'N', 'I', 'T', 'Y'],
    ) || spells_word(chars, from, &vec!['n', 'a', 'n'], &vec!['N', 'A', 'N'])
}

/// Tells whether `chars` from index `from` to its end is an exponent.
fn is_exponent_part(chars: &Vec<char>, from: usize) -> (r: bool)
    requires
        from <= chars.len(),
    ensures
        r == is_exponent(chars@, from as int, chars.len() as int),
{
    proof {
        lemma_reads_exponent(chars@, from as int);
    }
    if from >= chars.len() || (chars[from] != 'e' && chars[from] != 'E') {
        return false;
    }
    let digits: usize = if from + 1 < chars.len() && is_sign_char(chars[from + 1]) {
        from + 2
    } else {
        from + 1
    };
    let end = digits_end(chars, digits);
    end > digits && end == chars.len()
}

/// Tells whether `chars` from index `from` to its end is a decimal number.
fn is_decimal_part(chars: &Vec<char>, from: usize) -> (r: bool)
    requires
        from <= chars.len(),
    ensures
        r == is_number(chars@, from as int, chars.len() as int),
{
    proof {
        lemma_reads_number(chars@, from as int);
    }
    let point = digits_end(chars, from);
    let whole = point - from;
    let (end, digits) = if point < chars.len() && chars[point] == '.' {
        let end = digits_end(chars, point + 1);
        (end, whole + (end - point - 1))
    } else {
        (point, whole)
    };
    proof {
        lemma_reads_exponent(chars@, end as int);
    }
    digits >= 1 && (end == chars.len() || is_exponent_part(chars, end))
}

/// Tells whether `text` is a numeral.
pub fn is_float_literal(text: &str) -> (r: bool)
    ensures
        r == is_float_text(text@),
{
    let chars = to_chars(text);
    let start: usize = if chars.len() > 0 && is_sign_char(chars[0]) {
        1
    } else {
        0
    };
    is_decimal_part(&chars, start) || is_special_word(&chars, start)
}

/// A numeral: text that is known to spell a number.
#[derive(Debug, PartialEq, Eq)]
pub struct Numeral {
    text: String,
}

impl View for Numeral {
    type V = Seq<char>;

    closed spec fn view(&self) -> Seq<char> {
        self.text@
    }
}

impl Numeral {
    #[verifier::type_invariant]
    spec fn well_formed(&self) -> bool {
        is_float_text(self.text@)
    }

    /// The numeral that `text` spells, if it spells one.
    pub fn parse(text: String) -> (numeral: Option<Numeral>)
        ensures
            match numeral {
                Some(n) => is_float_text(text@) && n@ == text@,
                None => !is_float_text(text@),
            },
    {
        if is_float_literal(text.as_str()) {
            Some(Numeral { text })
        } else {
            None
        }
    }

    /// The text of this numeral.
    pub fn as_str(&self) -> (text: &str)
        ensures
            text@ == self@,
            is_float_text(text@),
    {
        proof {
            use_type_invariant(self);
        }
        self.text.as_str()
    }
}

} // verus!
