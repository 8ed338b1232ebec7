//! The parser: from tokens to assignment expressions, in one pass with one
//! token of lookahead.
//!
//! ```text
//! statement := path "=" rhs
//! path      := IDENTIFIER ("." IDENTIFIER)*
//! rhs       := path | STRING | NUMBER
//! ```
//!
//! [`parse_from`] says which assignments a token sequence yields;
//! [`Parser::parse`] computes them.
use vstd::prelude::*;
use crate::error::{Misplaced, ParseError};
use crate::models::{token_views, Token, TokenType, TokenView};
use crate::number::{is_float_text, Numeral};
use crate::outcome::{lemma_prepend_push, prepend};

verus! {

/// One segment of a dotted path, which owns the segments after it.
#[derive(Debug, PartialEq, Eq)]
pub struct PropertyExpression {
    pub name: String,
    pub child: Option<Box<PropertyExpression>>,
}

impl PropertyExpression {
    /// The names of the segments, from this one to the last.
    pub open spec fn path(&self) -> Seq<Seq<char>>
        decreases self,
    {
        match self.child {
            Some(child) => seq![self.name@] + child.path(),
            None => seq![self.name@],
        }
    }
}

impl View for PropertyExpression {
    type V = Seq<Seq<char>>;

    open spec fn view(&self) -> Seq<Seq<char>> {
        self.path()
    }
}

/// A constant on the right-hand side of an assignment.
#[derive(Debug, PartialEq, Eq)]
pub struct ConstantExpression<T> {
    pub value: T,
}

/// What the right-hand side of an assignment can be.
#[derive(Debug, PartialEq, Eq)]
pub enum LiteralValue {
    PropertyReference(PropertyExpression),
    StringLiteral(ConstantExpression<String>),
    NumberLiteral(ConstantExpression<Numeral>),
}

/// A right-hand side as a mathematical value: the segments of a path, the
/// characters of a string, or the characters of a numeral.
pub enum LiteralView {
    PropertyReference(Seq<Seq<char>>),
    StringLiteral(Seq<char>),
    NumberLiteral(Seq<char>),
}

impl View for LiteralValue {
    type V = LiteralView;

    open spec fn view(&self) -> LiteralView {
        match self {
            LiteralValue::PropertyReference(path) => LiteralView::PropertyReference(path@),
            LiteralValue::StringLiteral(constant) => LiteralView::StringLiteral(constant.value@),
            LiteralValue::NumberLiteral(constant) => LiteralView::NumberLiteral(constant.value@),
        }
    }
}

/// One statement: the path on the left of `=` and the literal or path on its
/// right.
#[derive(Debug, PartialEq, Eq)]
pub struct AssignmentExpression {
    pub left: PropertyExpression,
    pub right: LiteralValue,
}

/// An assignment as a mathematical value.
pub struct AssignmentView {
    pub left: Seq<Seq<char>>,
    pub right: LiteralView,
}

impl View for AssignmentExpression {
    type V = AssignmentView;

    open spec fn view(&self) -> AssignmentView {
        AssignmentView { left: self.left@, right: self.right@ }
    }
}

/// The views of a sequence of assignments, in order.
pub open spec fn assignment_views(assignments: Seq<AssignmentExpression>) -> Seq<AssignmentView> {
    Seq::new(assignments.len(), |i: int| assignments[i]@)
}

/// What every right-hand side can do: show itself and name its type.
pub trait ExpressionEvaluator {
    /// The text that `display` gives.
    spec fn shown(&self) -> Seq<char>;

    /// The text that `typename` gives.
    spec fn type_tag(&self) -> Seq<char>;

    fn display(&self) -> (text: String)
        ensures
            text@ == self.shown(),
    ;

    fn typename(&self) -> (name: String)
        ensures
            name@ == self.type_tag(),
    ;
}

impl ExpressionEvaluator for PropertyExpression {
    /// A path shows the name of its first segment.
    open spec fn shown(&self) -> Seq<char> {
        self.name@
    }

    open spec fn type_tag(&self) -> Seq<char> {
        "PropertyExpression"@
    }

    fn display(&self) -> (text: String) {
        self.name.clone()
    }

    fn typename(&self) -> (name: String) {
        "PropertyExpression".to_owned()
    }
}

impl ExpressionEvaluator for ConstantExpression<Numeral> {
    /// A number shows its numeral as it was written.
    open spec fn shown(&self) -> Seq<char> {
        self.value@
    }

    /// The tag names the 32-bit float that the numeral stands for.
    open spec fn type_tag(&self) -> Seq<char> {
        "ConstantExpression<f32>"@
    }

    fn display(&self) -> (text: String) {
        self.value.as_str().to_owned()
    }

    fn typename(&self) -> (name: String) {
        "ConstantExpression<f32>".to_owned()
    }
}

impl ExpressionEvaluator for ConstantExpression<String> {
    open spec fn shown(&self) -> Seq<char> {
        self.value@
    }

    open spec fn type_tag(&self) -> Seq<char> {
        "ConstantExpression<String>"@
    }

    fn display(&self) -> (text: String) {
        self.value.clone()
    }

    fn typename(&self) -> (name: String) {
        "ConstantExpression<String>".to_owned()
    }
}

impl ExpressionEvaluator for LiteralValue {
    open spec fn shown(&self) -> Seq<char> {
        match self {
            LiteralValue::PropertyReference(path) => path.shown(),
            LiteralValue::StringLiteral(constant) => constant.shown(),
            LiteralValue::NumberLiteral(constant) => constant.shown(),
        }
    }

    open spec fn type_tag(&self) -> Seq<char> {
        match self {
            LiteralValue::PropertyReference(path) => path.type_tag(),
            LiteralValue::StringLiteral(constant) => constant.type_tag(),
            LiteralValue::NumberLiteral(constant) => constant.type_tag(),
        }
    }

    fn display(&self) -> (text: String) {
        match self {
            LiteralValue::PropertyReference(path) => path.display(),
            LiteralValue::StringLiteral(constant) => constant.display(),
            LiteralValue::NumberLiteral(constant) => constant.display(),
        }
    }

    fn typename(&self) -> (name: String) {
        match self {
            LiteralValue::PropertyReference(path) => path.typename(),
            LiteralValue::StringLiteral(constant) => constant.typename(),
            LiteralValue::NumberLiteral(constant) => constant.typename(),
        }
    }
}

/// The kind of the token at `pos`. After the last token the input has
/// ended.
pub open spec fn kind_at(ts: Seq<TokenView>, pos: int) -> TokenType {
    if 0 <= pos < ts.len() {
        ts[pos].token_type
    } else {
        TokenType::EOF
    }
}

/// The line of the token at `pos`. After the last token it is the line of
/// that token.
pub open spec fn line_at(ts: Seq<TokenView>, pos: int) -> u32 {
    if 0 <= pos < ts.len() {
        ts[pos].line
    } else if ts.len() > 0 {
        ts.last().line
    } else {
        1
    }
}

/// The token at `pos`, as an offender.
pub open spec fn misplaced_at(ts: Seq<TokenView>, pos: int) -> Misplaced {
    Misplaced { kind: kind_at(ts, pos), line: line_at(ts, pos) }
}

/// The names of the path segments from `pos` on, where `pos` is just after an
/// identifier: as long as a dot is next, an identifier has to follow it, and
/// both belong to the path. Anything else than a dot ends the path and is
/// left where it is. A dot that no identifier follows is an error, which
/// names the token found in the identifier's place.
pub open spec fn path_tail(ts: Seq<TokenView>, pos: int) -> Result<Seq<Seq<char>>, Misplaced>
    decreases ts.len() - pos,
{
    if 0 <= pos < ts.len() && ts[pos].token_type == TokenType::DOT {
        if kind_at(ts, pos + 1) == TokenType::IDENTIFIER {
            prepend(seq![ts[pos + 1].lexeme], path_tail(ts, pos + 2))
        } else {
            Err(misplaced_at(ts, pos + 1))
        }
    } else {
        Ok(seq![])
    }
}

/// The right-hand side that starts at `pos`, and the position after it: a
/// path, a string, or a number whose lexeme is a numeral.
pub open spec fn rhs_at(ts: Seq<TokenView>, pos: int) -> Result<(LiteralView, int), ParseError> {
    match kind_at(ts, pos) {
        TokenType::IDENTIFIER => match path_tail(ts, pos + 1) {
            Ok(rest) => Ok(
                (LiteralView::PropertyReference(seq![ts[pos].lexeme] + rest), pos + 1 + 2 * rest.len()),
            ),
            Err(found) => Err(ParseError::UnexpectedRHS { kind: found.kind, line: found.line }),
        },
        TokenType::STRING => Ok((LiteralView::StringLiteral(ts[pos].lexeme), pos + 1)),
        TokenType::NUMBER => if is_float_text(ts[pos].lexeme) {
            Ok((LiteralView::NumberLiteral(ts[pos].lexeme), pos + 1))
        } else {
            Err(ParseError::InvalidNumberLiteral { line: ts[pos].line })
        },
        kind => Err(ParseError::UnexpectedRHS { kind, line: line_at(ts, pos) }),
    }
}

/// The assignments that the tokens from `pos` on yield, where `pending` is
/// the path that waits for its `=`, if there is one.
///
/// An identifier starts a path, which becomes the pending one in place of
/// any other. `=` needs a pending path and is followed by a right-hand side;
/// the two make an assignment, and no path is pending after it. Dots and
/// line ends where a statement or its `=` is awaited are passed over. The
/// end of input, or of the tokens, ends the pass. A string or a number where
/// a statement should start is an error.
pub open spec fn parse_from(ts: Seq<TokenView>, pos: int, pending: Option<Seq<Seq<char>>>) -> Result<
    Seq<AssignmentView>,
    ParseError,
>
    decreases ts.len() - pos,
    via parse_from_terminates
{
    if 0 <= pos < ts.len() {
        match ts[pos].token_type {
            TokenType::IDENTIFIER => match path_tail(ts, pos + 1) {
                Ok(rest) => parse_from(
                    ts,
                    pos + 1 + 2 * rest.len(),
                    Some(seq![ts[pos].lexeme] + rest),
                ),
                Err(found) => Err(ParseError::UnexpectedLHS { kind: found.kind, line: found.line }),
            },
            TokenType::ASSIGN => match pending {
                Some(left) => match rhs_at(ts, pos + 1) {
                    Ok((right, next)) => prepend(
                        seq![AssignmentView { left, right }],
                        parse_from(ts, next, None),
                    ),
                    Err(e) => Err(e),
                },
                None => Err(ParseError::AssignmentWithoutLHS { line: ts[pos].line }),
            },
            TokenType::DOT | TokenType::EOL => parse_from(ts, pos + 1, pending),
            TokenType::EOF => Ok(seq![]),
            kind => Err(ParseError::UnexpectedLHS { kind, line: ts[pos].line }),
        }
    } else {
        Ok(seq![])
    }
}

#[via_fn]
proof fn parse_from_terminates(ts: Seq<TokenView>, pos: int, pending: Option<Seq<Seq<char>>>) {
    if 0 <= pos < ts.len() {
        lemma_path_tail_tokens(ts, pos + 1);
        lemma_rhs_tokens(ts, pos + 1);
    }
}

/// The assignments of a whole token sequence.
pub open spec fn assignments_of(ts: Seq<TokenView>) -> Result<Seq<AssignmentView>, ParseError> {
    parse_from(ts, 0, None)
}

/// Where a pass that starts at `pos` and succeeds stops: after the first
/// end-of-input token from `pos` on, or after the last token if there is
/// none.
pub open spec fn parse_end(ts: Seq<TokenView>, pos: int) -> int
    decreases ts.len() - pos,
{
    if 0 <= pos < ts.len() {
        if ts[pos].token_type == TokenType::EOF {
            pos + 1
        } else {
            parse_end(ts, pos + 1)
        }
    } else {
        pos
    }
}

/// The tokens of a path's tail are dots and identifiers in turn, all of them
/// inside the sequence.
pub proof fn lemma_path_tail_tokens(ts: Seq<TokenView>, pos: int)
    requires
        0 <= pos <= ts.len(),
    ensures
        path_tail(ts, pos) matches Ok(rest) ==> {
            &&& pos + 2 * rest.len() <= ts.len()
            &&& forall|i: int|
                pos <= i < pos + 2 * rest.len() ==> (#[trigger] ts[i]).token_type != TokenType::EOF
        },
    decreases ts.len() - pos,
{
    if pos < ts.len() && ts[pos].token_type == TokenType::DOT && kind_at(ts, pos + 1)
        == TokenType::IDENTIFIER {
        lemma_path_tail_tokens(ts, pos + 2);
    }
}

/// Passing over tokens that are not the end of input does not change where
/// the pass stops.
pub proof fn lemma_parse_end_skips(ts: Seq<TokenView>, from: int, to: int)
    requires
        0 <= from <= to <= ts.len(),
        forall|i: int| from <= i < to ==> (#[trigger] ts[i]).token_type != TokenType::EOF,
    ensures
        parse_end(ts, from) == parse_end(ts, to),
    decreases to - from,
{
    if from < to {
        lemma_parse_end_skips(ts, from + 1, to);
    }
}

/// A line end where a statement or its `=` is awaited changes nothing: the
/// assignments are those of the tokens after it.
pub proof fn lemma_line_end_is_skipped(ts: Seq<TokenView>, pos: int, pending: Option<Seq<Seq<char>>>)
    requires
        0 <= pos < ts.len(),
        ts[pos].token_type == TokenType::EOL,
    ensures
        parse_from(ts, pos, pending) == parse_from(ts, pos + 1, pending),
{
}

/// Whether two token sequences hold the same kinds and lexemes, whatever
/// their lines.
pub open spec fn same_but_lines(a: Seq<TokenView>, b: Seq<TokenView>) -> bool {
    &&& a.len() == b.len()
    &&& forall|i: int|
        0 <= i < a.len() ==> (#[trigger] a[i]).token_type == b[i].token_type && a[i].lexeme
            == b[i].lexeme
}

/// Whether two errors are of the same kind and name the same kind of token,
/// whatever their lines.
pub open spec fn same_but_line(a: ParseError, b: ParseError) -> bool {
    match a {
        ParseError::AssignmentWithoutLHS { .. } => b is AssignmentWithoutLHS,
        ParseError::UnexpectedLHS { kind, .. } => b matches ParseError::UnexpectedLHS {
            kind: other,
            ..
        } && other == kind,
        ParseError::UnexpectedRHS { kind, .. } => b matches ParseError::UnexpectedRHS {
            kind: other,
            ..
        } && other == kind,
        ParseError::InvalidNumberLiteral { .. } => b is InvalidNumberLiteral,
    }
}

/// The lines of the tokens have no part in a path: two sequences with the
/// same kinds and lexemes hold the same path, or fail on the same kind of
/// token.
pub proof fn lemma_path_ignores_lines(a: Seq<TokenView>, b: Seq<TokenView>, pos: int)
    requires
        same_but_lines(a, b),
    ensures
        match path_tail(a, pos) {
            Ok(rest) => path_tail(b, pos) == Ok::<Seq<Seq<char>>, Misplaced>(rest),
            Err(found) => path_tail(b, pos) matches Err(other) && other.kind == found.kind,
        },
    decreases a.len() - pos,
{
    if 0 <= pos < a.len() && a[pos].token_type == TokenType::DOT && kind_at(a, pos + 1)
        == TokenType::IDENTIFIER {
        lemma_path_ignores_lines(a, b, pos + 2);
    }
}

/// The lines of the tokens have no part in the assignments: two sequences
/// with the same kinds and lexemes yield the same assignments, or fail with
/// errors that differ in their lines at most.
pub proof fn lemma_parse_ignores_lines(
    a: Seq<TokenView>,
    b: Seq<TokenView>,
    pos: int,
    pending: Option<Seq<Seq<char>>>,
)
    requires
        same_but_lines(a, b),
    ensures
        match parse_from(a, pos, pending) {
            Ok(assignments) => parse_from(b, pos, pending) == Ok::<Seq<AssignmentView>, ParseError>(
                assignments,
            ),
            Err(e) => parse_from(b, pos, pending) matches Err(other) && same_but_line(e, other),
        },
    decreases a.len() - pos,
{
    if 0 <= pos < a.len() {
        lemma_path_ignores_lines(a, b, pos + 1);
        lemma_path_tail_tokens(a, pos + 1);
        match a[pos].token_type {
            TokenType::IDENTIFIER => {
                if let Ok(rest) = path_tail(a, pos + 1) {
                    lemma_parse_ignores_lines(
                        a,
                        b,
                        pos + 1 + 2 * rest.len(),
                        Some(seq![a[pos].lexeme] + rest),
                    );
                }
            },
            TokenType::ASSIGN => {
                if pending is Some {
                    if pos + 1 < a.len() {
                        lemma_path_ignores_lines(a, b, pos + 2);
                    }
                    lemma_rhs_tokens(a, pos + 1);
                    if let Ok((_, next)) = rhs_at(a, pos + 1) {
                        lemma_parse_ignores_lines(a, b, next, None);
                    }
                }
            },
            TokenType::DOT | TokenType::EOL => {
                lemma_parse_ignores_lines(a, b, pos + 1, pending);
            },
            _ => {},
        }
    }
}

/// The outcome of a parse as a mathematical value.
pub open spec fn parse_view(result: Result<Vec<AssignmentExpression>, ParseError>) -> Result<
    Seq<AssignmentView>,
    ParseError,
> {
    match result {
        Ok(assignments) => Ok(assignment_views(assignments@)),
        Err(e) => Err(e),
    }
}

/// A parser: a token sequence and a cursor into it.
pub struct Parser {
    tokens: Vec<Token>,
    pos: usize,
}

/// What one call of `parse` does to a parser and returns: the assignments
/// from the cursor on. After a success the cursor is after the end-of-input
/// token that ended the pass; after a failure it is where it was.
pub open spec fn parsed(
    before: Parser,
    after: Parser,
    result: Result<Vec<AssignmentExpression>, ParseError>,
) -> bool {
    &&& after.tokens() == before.tokens()
    &&& parse_view(result) == parse_from(before.tokens(), before.position(), None)
    &&& after.position() == if result is Ok {
        parse_end(before.tokens(), before.position())
    } else {
        before.position()
    }
}

/// Parsing is a function of the tokens and the cursor: two parses that start
/// from the same tokens and position give the same assignments, or the same
/// error, and leave the same cursor.
pub proof fn lemma_parse_is_a_function(
    a: Parser,
    a_after: Parser,
    a_result: Result<Vec<AssignmentExpression>, ParseError>,
    b: Parser,
    b_after: Parser,
    b_result: Result<Vec<AssignmentExpression>, ParseError>,
)
    requires
        a.tokens() == b.tokens(),
        a.position() == b.position(),
        parsed(a, a_after, a_result),
        parsed(b, b_after, b_result),
    ensures
        parse_view(a_result) == parse_view(b_result),
        a_after.position() == b_after.position(),
{
}

/// The steps of the parser, one for each construct of the grammar.
pub trait Visitor {
    fn visit_assignment(&mut self, lhs: PropertyExpression) -> Result<
        AssignmentExpression,
        ParseError,
    >;

    fn visit_identifier(&mut self, token: &Token) -> Result<PropertyExpression, Misplaced>;

    fn visit_string(&mut self, token: Token) -> ConstantExpression<String>;

    fn visit_number(&mut self, token: Token) -> Result<ConstantExpression<Numeral>, ParseError>;
}

/// The texts of a sequence of strings, in order.
pub open spec fn texts(strings: Seq<String>) -> Seq<Seq<char>> {
    Seq::new(strings.len(), |i: int| strings[i]@)
}

/// The view of the path that waits for its `=`, if there is one.
pub open spec fn pending_view(path: Option<PropertyExpression>) -> Option<Seq<Seq<char>>> {
    match path {
        Some(p) => Some(p@),
        None => None,
    }
}

/// The segments of a path that may be empty.
pub open spec fn segments(path: Option<PropertyExpression>) -> Seq<Seq<char>> {
    match path {
        Some(p) => p@,
        None => seq![],
    }
}

impl Parser {
    #[verifier::type_invariant]
    spec fn well_formed(&self) -> bool {
        self.pos <= self.tokens.len()
    }

    /// The tokens that this parser reads.
    pub closed spec fn tokens(&self) -> Seq<TokenView> {
        token_views(self.tokens@)
    }

    /// The index of the next token to read.
    pub closed spec fn position(&self) -> int {
        self.pos as int
    }

    /// A parser at the start of `tokens`.
    pub fn new(tokens: Vec<Token>) -> (parser: Parser)
        ensures
            parser.tokens() == token_views(tokens@),
            parser.position() == 0,
    {
        Parser { tokens, pos: 0 }
    }

    /// Reads the tokens from the cursor to the end of input and returns
    /// their assignments.
    ///
    /// Fails on the first token that the grammar does not allow where it
    /// stands, and then leaves the cursor where it was.
    pub fn parse(&mut self) -> (result: Result<Vec<AssignmentExpression>, ParseError>)
        ensures
            parsed(*old(self), *final(self), result),
    {
        proof {
            use_type_invariant(&*self);
        }
        let origin = self.pos;
        let ghost ts = self.tokens();
        let mut expressions: Vec<AssignmentExpression> = Vec::new();
        let mut lhs: Option<PropertyExpression> = None;
        while self.pos < self.tokens.len()
            invariant
                ts == old(self).tokens(),
                origin == old(self).pos,
                self.tokens() == ts,
                origin <= self.pos <= self.tokens.len(),
                parse_end(ts, origin as int) == parse_end(ts, self.pos as int),
                parse_from(ts, origin as int, None) == prepend(
                    assignment_views(expressions@),
                    parse_from(ts, self.pos as int, pending_view(lhs)),
                ),
            decreases self.tokens.len() - self.pos,
        {
            let ghost at = self.pos as int;
            let kind = self.tokens[self.pos].token_type;
            let line = self.tokens[self.pos].line;
            proof {
                lemma_path_tail_tokens(ts, at + 1);
            }
            match kind {
                TokenType::IDENTIFIER => {
                    let token = self.tokens[self.pos].duplicate();
                    self.pos += 1;
                    match self.visit_identifier(&token) {
                        Ok(path) => {
                            proof {
                                lemma_parse_end_skips(ts, at, self.pos as int);
                            }
                            lhs = Some(path);
                        },
                        Err(found) => {
                            self.pos = origin;
                            return Err(
                                ParseError::UnexpectedLHS { kind: found.kind, line: found.line },
                            );
                        },
                    }
                },
                TokenType::ASSIGN => {
                    match lhs {
                        Some(left) => {
                            self.pos += 1;
                            match self.visit_assignment(left) {
                                Ok(assignment) => {
                                    proof {
                                        lemma_rhs_tokens(ts, at + 1);
                                        lemma_parse_end_skips(ts, at, self.pos as int);
                                        lemma_prepend_push(
                                            assignment_views(expressions@),
                                            assignment@,
                                            parse_from(ts, self.pos as int, None),
                                        );
                                        assert(assignment_views(expressions@.push(assignment))
                                            == assignment_views(expressions@).push(assignment@));
                                    }
                                    expressions.push(assignment);
                                    lhs = None;
                                },
                                Err(e) => {
                                    self.pos = origin;
                                    return Err(e);
                                },
                            }
                        },
                        None => {
                            self.pos = origin;
                            return Err(ParseError::AssignmentWithoutLHS { line });
                        },
                    }
                },
                TokenType::DOT | TokenType::EOL => {
                    self.pos += 1;
                },
                TokenType::EOF => {
                    self.pos += 1;
                    return Ok(expressions);
                },
                _ => {
                    self.pos = origin;
                    return Err(ParseError::UnexpectedLHS { kind, line });
                },
            }
        }
        Ok(expressions)
    }

    /// The token under the cursor as an offender; after the last token, the
    /// end of input on the line of that token.
    fn misplaced(&self) -> (found: Misplaced)
        ensures
            found == misplaced_at(self.tokens(), self.position()),
    {
        if self.pos < self.tokens.len() {
            Misplaced { kind: self.tokens[self.pos].token_type, line: self.tokens[self.pos].line }
        } else if self.tokens.len() > 0 {
            Misplaced { kind: TokenType::EOF, line: self.tokens[self.tokens.len() - 1].line }
        } else {
            Misplaced { kind: TokenType::EOF, line: 1 }
        }
    }
}

/// A right-hand side holds no end-of-input token and ends inside the
/// sequence.
pub proof fn lemma_rhs_tokens(ts: Seq<TokenView>, pos: int)
    requires
        0 <= pos <= ts.len(),
    ensures
        rhs_at(ts, pos) matches Ok((_, next)) ==> {
            &&& pos < next <= ts.len()
            &&& forall|i: int| pos <= i < next ==> (#[trigger] ts[i]).token_type != TokenType::EOF
        },
{
    if pos < ts.len() {
        lemma_path_tail_tokens(ts, pos + 1);
    }
}

impl Visitor for Parser {
    /// Reads the right-hand side under the cursor and joins it to `lhs`. On
    /// an error the cursor stays where it was.
    fn visit_assignment(&mut self, lhs: PropertyExpression) -> (result: Result<
        AssignmentExpression,
        ParseError,
    >)
        ensures
            final(self).tokens() == old(self).tokens(),
            match rhs_at(old(self).tokens(), old(self).position()) {
                Ok((right, next)) => result matches Ok(assignment) && assignment@.left == lhs@
                    && assignment@.right == right && final(self).position() == next,
                Err(e) => result matches Err(found) && found == e && final(self).position() == old(
                    self,
                ).position(),
            },
    {
        if self.pos >= self.tokens.len() {
            let found = self.misplaced();
            return Err(ParseError::UnexpectedRHS { kind: found.kind, line: found.line });
        }
        let origin = self.pos;
        let rhs = self.tokens[self.pos].duplicate();
        self.pos += 1;
        match rhs.token_type {
            TokenType::IDENTIFIER => match self.visit_identifier(&rhs) {
                Ok(path) => Ok(
                    AssignmentExpression { left: lhs, right: LiteralValue::PropertyReference(path) },
                ),
                Err(found) => {
                    self.pos = origin;
                    Err(ParseError::UnexpectedRHS { kind: found.kind, line: found.line })
                },
            },
            TokenType::STRING => Ok(
                AssignmentExpression {
                    left: lhs,
                    right: LiteralValue::StringLiteral(self.visit_string(rhs)),
                },
            ),
            TokenType::NUMBER => match self.visit_number(rhs) {
                Ok(number) => Ok(
                    AssignmentExpression { left: lhs, right: LiteralValue::NumberLiteral(number) },
                ),
                Err(e) => {
                    self.pos = origin;
                    Err(e)
                },
            },
            kind => {
                self.pos = origin;
                Err(ParseError::UnexpectedRHS { kind, line: rhs.line })
            },
        }
    }

    /// Reads the rest of the path that starts with `token`, which stands
    /// just before the cursor, and returns the whole path. On an error the
    /// cursor stays where it was.
    fn visit_identifier(&mut self, token: &Token) -> (result: Result<PropertyExpression, Misplaced>)
        ensures
            final(self).tokens() == old(self).tokens(),
            match path_tail(old(self).tokens(), old(self).position()) {
                Ok(rest) => result matches Ok(path) && path@ == seq![token.lexeme@] + rest
                    && final(self).position() == old(self).position() + 2 * rest.len(),
                Err(e) => result matches Err(found) && found == e && final(self).position() == old(
                    self,
                ).position(),
            },
    {
        proof {
            use_type_invariant(&*self);
        }
        let origin = self.pos;
        let ghost ts = self.tokens();
        let mut descendants: Vec<String> = Vec::new();
        while self.pos < self.tokens.len() && self.tokens[self.pos].token_type == TokenType::DOT
            invariant
                ts == old(self).tokens(),
                origin == old(self).pos,
                self.tokens() == ts,
                origin <= self.pos <= self.tokens.len(),
                self.pos == origin + 2 * descendants.len(),
                path_tail(ts, origin as int) == prepend(
                    texts(descendants@),
                    path_tail(ts, self.pos as int),
                ),
            decreases self.tokens.len() - self.pos,
        {
            if self.pos + 1 < self.tokens.len() && self.tokens[self.pos + 1].token_type
                == TokenType::IDENTIFIER {
                let name = self.tokens[self.pos + 1].lexeme.clone();
                proof {
                    lemma_prepend_push(
                        texts(descendants@),
                        name@,
                        path_tail(ts, self.pos as int + 2),
                    );
                    assert(texts(descendants@.push(name)) == texts(descendants@).push(name@));
                }
                descendants.push(name);
                self.pos += 2;
            } else {
                self.pos += 1;
                let found = self.misplaced();
                self.pos = origin;
                return Err(found);
            }
        }
        let ghost rest = texts(descendants@);
        let mut child: Option<PropertyExpression> = None;
        while descendants.len() > 0
            invariant
                descendants.len() <= rest.len(),
                texts(descendants@) == rest.subrange(0, descendants.len() as int),
                segments(child) == rest.subrange(descendants.len() as int, rest.len() as int),
            decreases descendants.len(),
        {
            let ghost before = descendants@;
            let name = descendants.pop().unwrap();
            proof {
                assert(name@ == texts(before)[before.len() - 1]);
            }
            child = Some(
                PropertyExpression {
                    name,
                    child: match child {
                        Some(c) => Some(Box::new(c)),
                        None => None,
                    },
                },
            );
        }
        Ok(
            PropertyExpression {
                name: token.lexeme.clone(),
                child: match child {
                    Some(c) => Some(Box::new(c)),
                    None => None,
                },
            },
        )
    }

    /// The string constant that `token` spells.
    fn visit_string(&mut self, token: Token) -> (constant: ConstantExpression<String>)
        ensures
            constant.value@ == token.lexeme@,
            final(self).tokens() == old(self).tokens(),
            final(self).position() == old(self).position(),
    {
        ConstantExpression { value: token.lexeme }
    }

    /// The number constant that `token` spells, if its lexeme is a numeral.
    fn visit_number(&mut self, token: Token) -> (result: Result<
        ConstantExpression<Numeral>,
        ParseError,
    >)
        ensures
            final(self).tokens() == old(self).tokens(),
            final(self).position() == old(self).position(),
            match result {
                Ok(constant) => is_float_text(token.lexeme@) && constant.value@ == token.lexeme@,
                Err(e) => !is_float_text(token.lexeme@) && e == (ParseError::InvalidNumberLiteral {
                    line: token.line,
                }),
            },
    {
        let line = token.line;
        match Numeral::parse(token.lexeme) {
            Some(value) => Ok(ConstantExpression { value }),
            None => Err(ParseError::InvalidNumberLiteral { line }),
        }
    }
}

} // verus!
