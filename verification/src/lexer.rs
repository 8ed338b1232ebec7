//! The lexer: from characters to tokens, in one pass from left to right.
//!
//! [`lex`] says which tokens a text yields from a given position, one
//! [`step`] at a time; [`Lexer::scan`] computes them.
use vstd::prelude::*;
use crate::chars::{
    count_dots, dots, in_class, is_decimal_digit, is_digit, is_numeric_char, is_word_char,
    lemma_run_len, run_len, text_of, to_chars, unicode_alphanumeric, CharClass,
};
use crate::error::LexError;
use crate::models::{token_views, TokenView};
use crate::outcome::{lemma_prepend_nothing, lemma_prepend_push, prepend};
pub use crate::models::{Token, TokenType};

verus! {

/// What the lexer does at one position: the token it emits, if any, the
/// position it goes on from, and the line that position is on.
pub struct Step {
    pub token: Option<TokenView>,
    pub next: int,
    pub line: u32,
}

/// A step that emits `token` and goes on from `next`.
pub open spec fn emitted(token: TokenView, next: int, line: u32) -> Step {
    Step { token: Some(token), next, line }
}

/// A step that emits nothing and moves past one character.
pub open spec fn skip_one(pos: int, line: u32) -> Step {
    Step { token: None, next: pos + 1, line }
}

/// A step that emits the character at `pos` as a token of its own.
pub open spec fn emit_one(s: Seq<char>, pos: int, line: u32, token_type: TokenType) -> Step {
    Step {
        token: Some(TokenView { token_type, lexeme: s.subrange(pos, pos + 1), line }),
        next: pos + 1,
        line,
    }
}

/// What a character can be the start of.
#[derive(Clone, Copy, Debug, PartialEq, Eq, Structural)]
pub enum Start {
    /// A space, which stands for nothing.
    Space,
    /// A line break.
    LineEnd,
    /// The `=` of an assignment.
    Assign,
    /// The opening quote of a string literal.
    Quote,
    /// A number.
    Number,
    /// The dot between two segments of a path.
    Dot,
    /// An identifier.
    Word,
    /// Nothing that the lexer knows: the character is passed over.
    Other,
}

/// What the character `c` starts, given whether a decimal digit follows it
/// and whether it is alphanumeric. The rules apply in this order: a space; a
/// line break; `=`; a double quote; a digit, a minus sign, or a decimal point
/// before a digit, which start a number; any other decimal point; an
/// alphanumeric character or an underscore, which start an identifier.
pub open spec fn start_of(c: char, digit_follows: bool, alphanumeric: bool) -> Start {
    if c == ' ' {
        Start::Space
    } else if c == '\n' {
        Start::LineEnd
    } else if c == '=' {
        Start::Assign
    } else if c == '"' {
        Start::Quote
    } else if is_digit(c) || c == '-' || (c == '.' && digit_follows) {
        Start::Number
    } else if c == '.' {
        Start::Dot
    } else if alphanumeric || c == '_' {
        Start::Word
    } else {
        Start::Other
    }
}

/// What starts at position `pos` of `s`.
pub open spec fn start_at(s: Seq<char>, pos: int) -> Start {
    start_of(s[pos], pos + 1 < s.len() && is_digit(s[pos + 1]), unicode_alphanumeric(s[pos]))
}

/// The number that starts at `pos`: its first character and the longest run
/// of digits and decimal points after it. More than one decimal point in the
/// lexeme is an error.
pub open spec fn number_at(s: Seq<char>, pos: int, line: u32) -> Result<Step, LexError> {
    let end = pos + 1 + run_len(s, pos + 1, CharClass::Numeric);
    let lexeme = s.subrange(pos, end);
    if dots(lexeme) > 1 {
        Err(LexError::MalformedNumber { line })
    } else {
        Ok(Step { token: Some(TokenView { token_type: TokenType::NUMBER, lexeme, line }), next: end, line })
    }
}

/// The string literal whose opening quote is at `pos`: the lexeme is what
/// stands between that quote and the next one, which has to exist. Line
/// breaks inside the literal belong to the lexeme and are not counted.
pub open spec fn string_at(s: Seq<char>, pos: int, line: u32) -> Result<Step, LexError> {
    let close = pos + 1 + run_len(s, pos + 1, CharClass::Text);
    if close >= s.len() {
        Err(LexError::UnterminatedString { line })
    } else {
        Ok(
            Step {
                token: Some(
                    TokenView { token_type: TokenType::STRING, lexeme: s.subrange(pos + 1, close), line },
                ),
                next: close + 1,
                line,
            },
        )
    }
}

/// The identifier that starts at `pos`: the longest run of alphanumeric
/// characters and underscores.
pub open spec fn identifier_at(s: Seq<char>, pos: int, line: u32) -> Step {
    let end = pos + 1 + run_len(s, pos + 1, CharClass::Word);
    Step {
        token: Some(TokenView { token_type: TokenType::IDENTIFIER, lexeme: s.subrange(pos, end), line }),
        next: end,
        line,
    }
}

/// What the lexer does at position `pos` of `s`, which is on line `line`.
///
/// A space is skipped, and so is every character that starts nothing. A line
/// break is a token and starts the next line. `=` and the dot are tokens.
/// Strings, numbers and identifiers are tokens as long as their lexemes.
pub open spec fn step(s: Seq<char>, pos: int, line: u32) -> Result<Step, LexError>
    recommends
        0 <= pos < s.len(),
{
    match start_at(s, pos) {
        Start::Space | Start::Other => Ok(skip_one(pos, line)),
        Start::LineEnd => Ok(
            Step { line: (line + 1) as u32, ..emit_one(s, pos, line, TokenType::EOL) },
        ),
        Start::Assign => Ok(emit_one(s, pos, line, TokenType::ASSIGN)),
        Start::Quote => string_at(s, pos, line),
        Start::Number => number_at(s, pos, line),
        Start::Dot => Ok(emit_one(s, pos, line, TokenType::DOT)),
        Start::Word => Ok(identifier_at(s, pos, line)),
    }
}

/// Every step moves forward and stays inside the text.
pub proof fn lemma_step_advances(s: Seq<char>, pos: int, line: u32)
    requires
        0 <= pos < s.len(),
    ensures
        step(s, pos, line) matches Ok(st) ==> pos < st.next <= s.len(),
{
    lemma_run_len(s, pos + 1, CharClass::Numeric);
    lemma_run_len(s, pos + 1, CharClass::Word);
}

/// The token that ends every token sequence.
pub open spec fn end_of_input(line: u32) -> TokenView {
    TokenView { token_type: TokenType::EOF, lexeme: seq!['\0'], line }
}

/// The tokens of `s` from position `pos` on, which is on line `line`: what
/// the steps emit, in order, and one end-of-input token after them. The
/// first step that fails gives the error.
pub open spec fn lex(s: Seq<char>, pos: int, line: u32) -> Result<Seq<TokenView>, LexError>
    decreases s.len() - pos,
    via lex_terminates
{
    if 0 <= pos < s.len() {
        match step(s, pos, line) {
            Ok(st) => prepend(
                match st.token {
                    Some(token) => seq![token],
                    None => seq![],
                },
                lex(s, st.next, st.line),
            ),
            Err(e) => Err(e),
        }
    } else {
        Ok(seq![end_of_input(line)])
    }
}

#[via_fn]
proof fn lex_terminates(s: Seq<char>, pos: int, line: u32) {
    if 0 <= pos < s.len() {
        lemma_step_advances(s, pos, line);
    }
}

/// The tokens of a whole text, whose first line is line 1.
pub open spec fn tokens_of(text: Seq<char>) -> Result<Seq<TokenView>, LexError> {
    lex(text, 0, 1)
}

/// The last token is the end of input, and no other token is.
pub open spec fn ends_with_single_eof(tokens: Seq<TokenView>) -> bool {
    &&& tokens.len() > 0
    &&& tokens.last().token_type == TokenType::EOF
    &&& forall|i: int| 0 <= i < tokens.len() - 1 ==> (#[trigger] tokens[i]).token_type != TokenType::EOF
}

/// Every token sequence that the lexer yields ends with the end-of-input
/// token, and holds that token nowhere else.
pub proof fn lemma_lex_ends_with_single_eof(s: Seq<char>, pos: int, line: u32)
    ensures
        lex(s, pos, line) matches Ok(tokens) ==> ends_with_single_eof(tokens),
    decreases s.len() - pos,
{
    if 0 <= pos < s.len() {
        lemma_step_advances(s, pos, line);
        if let Ok(st) = step(s, pos, line) {
            lemma_lex_ends_with_single_eof(s, st.next, st.line);
        }
    }
}

/// Whether the lines of `tokens` ascend from `first` and end at `last` at
/// the latest.
pub open spec fn lines_ascend(tokens: Seq<TokenView>, first: int, last: int) -> bool {
    &&& forall|i: int| 0 <= i < tokens.len() ==> first <= (#[trigger] tokens[i]).line <= last
    &&& forall|i: int, j: int|
        0 <= i <= j < tokens.len() ==> (#[trigger] tokens[i]).line <= (#[trigger] tokens[j]).line
}

/// Where the line counter has room for a line break at each character that
/// is left, as it has in every lexer, the lines of the tokens ascend from
/// the line of the cursor, by one for each line break at most.
pub proof fn lemma_token_lines_ascend(s: Seq<char>, pos: int, line: u32)
    requires
        0 <= pos <= s.len(),
        line + (s.len() - pos) <= u32::MAX,
    ensures
        lex(s, pos, line) matches Ok(tokens) ==> lines_ascend(
            tokens,
            line as int,
            line + (s.len() - pos),
        ),
    decreases s.len() - pos,
{
    if pos < s.len() {
        lemma_step_advances(s, pos, line);
        if let Ok(st) = step(s, pos, line) {
            lemma_token_lines_ascend(s, st.next, st.line);
            if let Ok(rest) = lex(s, st.next, st.line) {
                let tokens = lex(s, pos, line)->Ok_0;
                let shift = tokens.len() - rest.len();
                assert forall|i: int| shift <= i < tokens.len() implies #[trigger] tokens[i]
                    == rest[i - shift] by {}
            }
        }
    }
}

/// A space yields no token: the tokens from a space on are those from the
/// character after it on.
pub proof fn lemma_space_is_skipped(s: Seq<char>, pos: int, line: u32)
    requires
        0 <= pos < s.len(),
        s[pos] == ' ',
    ensures
        lex(s, pos, line) == lex(s, pos + 1, line),
{
}

/// The outcome of a scan as a mathematical value.
pub open spec fn scan_view(result: Result<Vec<Token>, LexError>) -> Result<Seq<TokenView>, LexError> {
    match result {
        Ok(tokens) => Ok(token_views(tokens@)),
        Err(e) => Err(e),
    }
}

/// A lexer: a text and a cursor into it.
pub struct Lexer {
    start: usize,
    current: usize,
    line: u32,
    source: Vec<char>,
}

/// What one call of `scan` does to a lexer and returns: the tokens from the
/// cursor on. After a success the cursor is at the end of the text, on the
/// line of the end-of-input token; after a failure it is where it was.
pub open spec fn scanned(before: Lexer, after: Lexer, result: Result<Vec<Token>, LexError>) -> bool {
    &&& after.text() == before.text()
    &&& scan_view(result) == lex(before.text(), before.position(), before.line_number())
    &&& match scan_view(result) {
        Ok(tokens) => after.position() == before.text().len() && after.line_number()
            == tokens.last().line,
        Err(_) => after.position() == before.position() && after.line_number()
            == before.line_number(),
    }
}

/// Scanning is a function of the text and the cursor: two scans that start
/// from the same text, position and line give the same tokens, or the same
/// error, and leave the same cursor.
pub proof fn lemma_scan_is_a_function(
    a: Lexer,
    a_after: Lexer,
    a_result: Result<Vec<Token>, LexError>,
    b: Lexer,
    b_after: Lexer,
    b_result: Result<Vec<Token>, LexError>,
)
    requires
        a.text() == b.text(),
        a.position() == b.position(),
        a.line_number() == b.line_number(),
        scanned(a, a_after, a_result),
        scanned(b, b_after, b_result),
    ensures
        scan_view(a_result) == scan_view(b_result),
        a_after.position() == b_after.position(),
        a_after.line_number() == b_after.line_number(),
{
}

proof fn lemma_token_views_push(tokens: Seq<Token>, token: Token)
    ensures
        token_views(tokens.push(token)) == token_views(tokens).push(token@),
{
}

/// Taking one step and then the tokens after it gives the tokens from the
/// position of the step.
proof fn lemma_lex_step(s: Seq<char>, pos: int, line: u32, done: Seq<TokenView>)
    requires
        0 <= pos < s.len(),
    ensures
        step(s, pos, line) matches Ok(st) ==> prepend(done, lex(s, pos, line)) == prepend(
            match st.token {
                Some(token) => done.push(token),
                None => done,
            },
            lex(s, st.next, st.line),
        ),
        step(s, pos, line) matches Err(e) ==> lex(s, pos, line) == Err::<Seq<TokenView>, LexError>(e),
{
    if let Ok(st) = step(s, pos, line) {
        match st.token {
            Some(token) => lemma_prepend_push(done, token, lex(s, st.next, st.line)),
            None => lemma_prepend_nothing(lex(s, st.next, st.line)),
        }
    }
}

impl Lexer {
    #[verifier::type_invariant]
    spec fn well_formed(&self) -> bool {
        &&& self.start <= self.current <= self.source.len()
        &&& self.line + (self.source.len() - self.current) <= u32::MAX
    }

    /// The text that this lexer reads.
    pub closed spec fn text(&self) -> Seq<char> {
        self.source@
    }

    /// The index of the next character to read.
    pub closed spec fn position(&self) -> int {
        self.current as int
    }

    /// The line that the next character to read is on.
    pub closed spec fn line_number(&self) -> u32 {
        self.line
    }

    /// A lexer at the start of `source`, on line 1. Lines are counted in 32
    /// bits, so the text has to be shorter than `u32::MAX` characters.
    pub fn new(source: &str) -> (lexer: Lexer)
        requires
            source@.len() < u32::MAX,
        ensures
            lexer.text() == source@,
            lexer.position() == 0,
            lexer.line_number() == 1,
    {
        Lexer { source: to_chars(source), start: 0, current: 0, line: 1 }
    }

    /// Reads the text from the cursor to its end and returns its tokens, the
    /// last of which is the end of input. Their lines ascend from the line
    /// of the cursor before the call to its line after the call.
    ///
    /// Fails on a string literal without closing quote and on a number with
    /// more than one decimal point, and then leaves the cursor where it was.
    pub fn scan(&mut self) -> (result: Result<Vec<Token>, LexError>)
        ensures
            scanned(*old(self), *final(self), result),
            result matches Ok(tokens) ==> ends_with_single_eof(token_views(tokens@)),
            result matches Ok(tokens) ==> lines_ascend(
                token_views(tokens@),
                old(self).line_number() as int,
                final(self).line_number() as int,
            ),
    {
        proof {
            use_type_invariant(&*self);
        }
        let origin = self.current;
        let first_line = self.line;
        let ghost text = self.source@;
        let mut tokens: Vec<Token> = Vec::new();
        while self.current < self.source.len()
            invariant
                text == old(self).source@,
                origin == old(self).current,
                first_line == old(self).line,
                self.source@ == text,
                origin <= self.current <= text.len(),
                first_line <= self.line,
                first_line + (text.len() - origin) <= u32::MAX,
                self.line + (text.len() - self.current) <= u32::MAX,
                lex(text, origin as int, first_line) == prepend(
                    token_views(tokens@),
                    lex(text, self.current as int, self.line),
                ),
            decreases text.len() - self.current,
        {
            proof {
                lemma_lex_step(text, self.current as int, self.line, token_views(tokens@));
                lemma_step_advances(text, self.current as int, self.line);
            }
            self.start = self.current;
            let c = self.source[self.start];
            let digit_follows = match self.peek() {
                Some(next) => is_decimal_digit(next),
                None => false,
            };
            let found: Result<Option<Token>, LexError> = match Self::classify(
                c,
                digit_follows,
                c.is_alphanumeric(),
            ) {
                Start::Space | Start::Other => {
                    self.forward();
                    Ok(None)
                },
                Start::LineEnd => {
                    let token = self.single(TokenType::EOL);
                    proof {
                        use_type_invariant(&*self);
                    }
                    self.line += 1;
                    Ok(Some(token))
                },
                Start::Assign => Ok(Some(self.single(TokenType::ASSIGN))),
                Start::Quote => match self.get_string() {
                    Ok(token) => Ok(Some(token)),
                    Err(e) => Err(e),
                },
                Start::Number => match self.get_number() {
                    Ok(token) => Ok(Some(token)),
                    Err(e) => Err(e),
                },
                Start::Dot => Ok(Some(self.single(TokenType::DOT))),
                Start::Word => Ok(Some(self.get_identifier())),
            };
            match found {
                Ok(Some(token)) => {
                    proof {
                        lemma_token_views_push(tokens@, token);
                    }
                    tokens.push(token);
                },
                Ok(None) => {},
                Err(e) => {
                    proof {
                        use_type_invariant(&*self);
                    }
                    self.line = first_line;
                    self.start = origin;
                    self.current = origin;
                    return Err(e);
                },
            }
        }
        let mut lexeme = String::new();
        lexeme.push('\0');
        let last = Token { token_type: TokenType::EOF, lexeme, line: self.line };
        proof {
            lemma_token_views_push(tokens@, last);
            assert(token_views(tokens@) + seq![end_of_input(self.line)] == token_views(tokens@).push(
                last@,
            ));
            lemma_lex_ends_with_single_eof(text, origin as int, first_line);
            lemma_token_lines_ascend(text, origin as int, first_line);
        }
        tokens.push(last);
        Ok(tokens)
    }

    /// Tells whether `c` can stand in an identifier.
    pub fn is_alphanumeric(c: char) -> (r: bool)
        ensures
            r == is_word_char(c),
    {
        c.is_alphanumeric() || c == '_'
    }

    /// Tells whether `c` can stand in a number after its first character.
    pub fn is_numeric(c: char) -> (r: bool)
        ensures
            r == is_numeric_char(c),
    {
        is_decimal_digit(c) || c == '.'
    }

    /// Tells whether a run of `class` can hold `c`.
    fn collects(class: CharClass, c: char) -> (r: bool)
        ensures
            r == in_class(class, c),
    {
        match class {
            CharClass::Digit => is_decimal_digit(c),
            CharClass::Numeric => Self::is_numeric(c),
            CharClass::Word => Self::is_alphanumeric(c),
            CharClass::Text => c != '"',
        }
    }

    /// Tells what the character `c` starts, given whether a decimal digit
    /// follows it and whether it is alphanumeric.
    pub fn classify(c: char, digit_follows: bool, alphanumeric: bool) -> (start: Start)
        ensures
            start == start_of(c, digit_follows, alphanumeric),
    {
        if c == ' ' {
            Start::Space
        } else if c == '\n' {
            Start::LineEnd
        } else if c == '=' {
            Start::Assign
        } else if c == '"' {
            Start::Quote
        } else if is_decimal_digit(c) || c == '-' || (c == '.' && digit_follows) {
            Start::Number
        } else if c == '.' {
            Start::Dot
        } else if alphanumeric || c == '_' {
            Start::Word
        } else {
            Start::Other
        }
    }

    /// The token of kind `token_type` that the character under the cursor
    /// stands for; the cursor moves past it.
    fn single(&mut self, token_type: TokenType) -> (token: Token)
        requires
            old(self).start == old(self).current < old(self).source.len(),
        ensures
            final(self).source == old(self).source,
            final(self).line == old(self).line,
            final(self).current == old(self).current + 1,
            emitted(token@, final(self).current as int, old(self).line) == emit_one(
                old(self).source@,
                old(self).current as int,
                old(self).line,
                token_type,
            ),
    {
        self.forward();
        Token { token_type, lexeme: text_of(&self.source, self.start, self.current), line: self.line }
    }

    /// The identifier that starts under the cursor.
    fn get_identifier(&mut self) -> (token: Token)
        requires
            old(self).start == old(self).current < old(self).source.len(),
            is_word_char(old(self).source[old(self).current as int]),
        ensures
            final(self).source == old(self).source,
            final(self).line == old(self).line,
            emitted(token@, final(self).current as int, old(self).line) == identifier_at(
                old(self).source@,
                old(self).current as int,
                old(self).line,
            ),
    {
        let raw = self.collect_until(CharClass::Word);
        Token { lexeme: raw, line: self.line, token_type: TokenType::IDENTIFIER }
    }

    /// The number that starts under the cursor.
    fn get_number(&mut self) -> (result: Result<Token, LexError>)
        requires
            old(self).start == old(self).current < old(self).source.len(),
            is_numeric_char(old(self).source[old(self).current as int]) || old(self).source[old(
                self,
            ).current as int] == '-',
        ensures
            final(self).source == old(self).source,
            final(self).line == old(self).line,
            final(self).current >= old(self).current,
            match number_at(old(self).source@, old(self).current as int, old(self).line) {
                Ok(st) => result matches Ok(token) && st == emitted(
                    token@,
                    final(self).current as int,
                    old(self).line,
                ),
                Err(e) => result matches Err(found) && found == e,
            },
    {
        if self.source[self.current] == '-' {
            self.forward();
        }
        let raw = self.collect_until(CharClass::Numeric);
        proof {
            use_type_invariant(&*self);
        }
        if count_dots(&self.source, self.start, self.current) > 1 {
            return Err(LexError::MalformedNumber { line: self.line });
        }
        Ok(Token { lexeme: raw, line: self.line, token_type: TokenType::NUMBER })
    }

    /// The string literal whose opening quote is under the cursor.
    fn get_string(&mut self) -> (result: Result<Token, LexError>)
        requires
            old(self).start == old(self).current < old(self).source.len(),
        ensures
            final(self).source == old(self).source,
            final(self).line == old(self).line,
            final(self).current >= old(self).current,
            match string_at(old(self).source@, old(self).current as int, old(self).line) {
                Ok(st) => result matches Ok(token) && st == emitted(
                    token@,
                    final(self).current as int,
                    old(self).line,
                ),
                Err(e) => result matches Err(found) && found == e,
            },
    {
        // skip opening quotes
        self.forward();
        proof {
            use_type_invariant(&*self);
        }
        self.start += 1;
        let raw = self.collect_until(CharClass::Text);
        if self.current >= self.source.len() {
            return Err(LexError::UnterminatedString { line: self.line });
        }
        // skip over closing quotes
        self.forward();
        Ok(Token { lexeme: raw, line: self.line, token_type: TokenType::STRING })
    }

    /// Moves the cursor to the end of the run of `class` that starts under
    /// it and returns the text between the start mark and the cursor.
    fn collect_until(&mut self, class: CharClass) -> (raw: String)
        ensures
            final(self).source == old(self).source,
            final(self).line == old(self).line,
            final(self).start == old(self).start,
            final(self).current == old(self).current + run_len(
                old(self).source@,
                old(self).current as int,
                class,
            ),
            raw@ == old(self).source@.subrange(old(self).start as int, final(self).current as int),
    {
        proof {
            use_type_invariant(&*self);
        }
        while self.current < self.source.len() && Self::collects(class, self.source[self.current])
            invariant
                self.source == old(self).source,
                self.line == old(self).line,
                self.start == old(self).start,
                old(self).current <= self.current <= self.source.len(),
                self.current + run_len(self.source@, self.current as int, class) == old(self).current
                    + run_len(self.source@, old(self).current as int, class),
            decreases self.source.len() - self.current,
        {
            self.forward();
        }
        text_of(&self.source, self.start, self.current)
    }

    /// The character after the one under the cursor, if there is one.
    fn peek(&self) -> (next: Option<char>)
        ensures
            next == if self.current + 1 < self.source.len() {
                Some(self.source[self.current + 1])
            } else {
                None
            },
    {
        if self.current < self.source.len() && self.current + 1 < self.source.len() {
            Some(self.source[self.current + 1])
        } else {
            None
        }
    }

    /// Moves the cursor past one character.
    fn forward(&mut self)
        requires
            old(self).current < old(self).source.len(),
        ensures
            final(self).source == old(self).source,
            final(self).line == old(self).line,
            final(self).start == old(self).start,
            final(self).current == old(self).current + 1,
    {
        proof {
            use_type_invariant(&*self);
        }
        self.current += 1
    }
}

} // verus!
