use assignments::error::{Misplaced, ParseError};
use assignments::lexer::Lexer;
use assignments::models::{Token, TokenType};
use assignments::parser::{
    AssignmentExpression, ConstantExpression, ExpressionEvaluator, LiteralValue, Parser,
    PropertyExpression, Visitor,
};

fn token(token_type: TokenType, lexeme: &str, line: u32) -> Token {
    Token { token_type, lexeme: lexeme.to_string(), line }
}

fn parse_text(source: &str) -> Result<Vec<AssignmentExpression>, ParseError> {
    Parser::new(Lexer::new(source).scan().unwrap()).parse()
}

fn names(path: &PropertyExpression) -> Vec<String> {
    let mut all = vec![path.name.clone()];
    let mut next = &path.child;
    while let Some(child) = next {
        all.push(child.name.clone());
        next = &child.child;
    }
    all
}

fn number_text(value: &LiteralValue) -> &str {
    match value {
        LiteralValue::NumberLiteral(constant) => constant.value.as_str(),
        other => panic!("{:?} is no number", other),
    }
}

#[test]
fn parse_property_assigned_property() {
    // arrange
    let tokens = vec![
        {Token { token_type: TokenType::IDENTIFIER, lexeme: "a".to_string(), line: 1 }},
        {Token { token_type: TokenType::ASSIGN, lexeme: "=".to_string(), line: 1 }},
        {Token { token_type: TokenType::IDENTIFIER, lexeme: "b".to_string(), line: 1 }},
        {Token { token_type: TokenType::EOF, lexeme: '\0'.to_string(), line: 1 }},
    ];
    let mut parser = Parser::new(tokens);

    // act
    let expressions = parser.parse().unwrap();

    // assert
    assert!(
        matches!(&expressions[0], AssignmentExpression { left: l, right: r }
            if matches!(&*l.display(), "a")
            && matches!(&*r.display(), "b")
        )
    );
}

#[test]
fn parse_property_assigned_string() {
    // arrange
    let tokens = vec![
        {Token { token_type: TokenType::IDENTIFIER, lexeme: "a".to_string(), line: 1 }},
        {Token { token_type: TokenType::ASSIGN, lexeme: "=".to_string(), line: 1 }},
        {Token { token_type: TokenType::STRING, lexeme: "b".to_string(), line: 1 }},
        {Token { token_type: TokenType::EOF, lexeme: '\0'.to_string(), line: 1 }},
    ];
    let mut parser = Parser::new(tokens);

    // act
    let expressions = parser.parse().unwrap();

    // assert
    assert!(
        matches!(&expressions[0], AssignmentExpression { left: l, right: r }
            if matches!(&*l.display(), "a")
            && matches!(&*r.display(), "b")
        )
    );
}

#[test]
fn parse_property_assigned_number() {
    // arrange
    let tokens = vec![
        {Token { token_type: TokenType::IDENTIFIER, lexeme: "a".to_string(), line: 1 }},
        {Token { token_type: TokenType::ASSIGN, lexeme: "=".to_string(), line: 1 }},
        {Token { token_type: TokenType::NUMBER, lexeme: "123".to_string(), line: 1 }},
        {Token { token_type: TokenType::EOF, lexeme: '\0'.to_string(), line: 1 }},
    ];
    let mut parser = Parser::new(tokens);

    // act
    let expressions = parser.parse().unwrap();

    // assert
    assert!(
        matches!(&expressions[0], AssignmentExpression { left: l, right: r }
            if matches!(&*l.display(), "a")
            && matches!(&*r.display(), "123")
        )
    );
}

#[test]
fn parse_fails_when_rhs_is_wrong_type() {
    let tokens = vec![
        token(TokenType::IDENTIFIER, "a", 1),
        token(TokenType::ASSIGN, "=", 1),
        token(TokenType::EOF, "\0", 1),
    ];
    let mut parser = Parser::new(tokens);
    assert_eq!(
        parser.parse().unwrap_err(),
        ParseError::UnexpectedRHS { kind: TokenType::EOF, line: 1 }
    );
    assert_eq!(
        parse_text("a =").unwrap_err(),
        ParseError::UnexpectedRHS { kind: TokenType::EOF, line: 1 }
    );
    assert_eq!(
        parse_text("a = = b").unwrap_err(),
        ParseError::UnexpectedRHS { kind: TokenType::ASSIGN, line: 1 }
    );
    assert_eq!(
        parse_text("\na = .").unwrap_err(),
        ParseError::UnexpectedRHS { kind: TokenType::DOT, line: 2 }
    );
}

#[test]
fn parse_fails_when_lhs_is_wrong_type() {
    let tokens = vec![
        token(TokenType::STRING, "a", 1),
        token(TokenType::ASSIGN, "=", 1),
        token(TokenType::STRING, "a", 1),
        token(TokenType::EOF, "\0", 1),
    ];
    let mut parser = Parser::new(tokens);
    assert_eq!(
        parser.parse().unwrap_err(),
        ParseError::UnexpectedLHS { kind: TokenType::STRING, line: 1 }
    );
    assert_eq!(
        parse_text("a = 1\n\n7 = a").unwrap_err(),
        ParseError::UnexpectedLHS { kind: TokenType::NUMBER, line: 3 }
    );
}

#[test]
fn parse_fails_when_assign_is_first() {
    let tokens = vec![
        token(TokenType::ASSIGN, "=", 1),
        token(TokenType::IDENTIFIER, "b", 1),
        token(TokenType::EOF, "\0", 1),
    ];
    let mut parser = Parser::new(tokens);
    assert_eq!(parser.parse().unwrap_err(), ParseError::AssignmentWithoutLHS { line: 1 });
    assert_eq!(parse_text("= b").unwrap_err(), ParseError::AssignmentWithoutLHS { line: 1 });
    assert_eq!(
        parse_text("a = 1 = 2").unwrap_err(),
        ParseError::AssignmentWithoutLHS { line: 1 }
    );
    assert_eq!(
        parse_text("a = 1\n\n= 2").unwrap_err(),
        ParseError::AssignmentWithoutLHS { line: 3 }
    );
}

#[test]
fn parse_fails_on_number_that_is_no_numeral() {
    assert_eq!(parse_text("a = -").unwrap_err(), ParseError::InvalidNumberLiteral { line: 1 });
    let tokens = vec![
        token(TokenType::IDENTIFIER, "a", 4),
        token(TokenType::ASSIGN, "=", 4),
        token(TokenType::NUMBER, "twelve", 5),
        token(TokenType::EOF, "\0", 5),
    ];
    assert_eq!(
        Parser::new(tokens).parse().unwrap_err(),
        ParseError::InvalidNumberLiteral { line: 5 }
    );
}

#[test]
fn parse_dotted_path_has_three_links() {
    let expressions = parse_text("a.b.c = 1").unwrap();
    assert_eq!(expressions.len(), 1);
    assert_eq!(names(&expressions[0].left), vec!["a", "b", "c"]);
    let b = expressions[0].left.child.as_ref().unwrap();
    let c = b.child.as_ref().unwrap();
    assert_eq!(b.name, "b");
    assert_eq!(c.name, "c");
    assert!(c.child.is_none());
    assert_eq!(number_text(&expressions[0].right), "1");
}

#[test]
fn parse_literal_typing() {
    let number = parse_text("a = 1.23").unwrap();
    assert_eq!(number_text(&number[0].right).parse::<f32>().unwrap(), 1.23f32);
    assert_eq!(number[0].right.typename(), "ConstantExpression<f32>");

    let string = parse_text("a = \"x\"").unwrap();
    assert_eq!(
        string[0].right,
        LiteralValue::StringLiteral(ConstantExpression { value: "x".to_string() })
    );
    assert_eq!(string[0].right.typename(), "ConstantExpression<String>");

    let reference = parse_text("a = b").unwrap();
    match &reference[0].right {
        LiteralValue::PropertyReference(path) => {
            assert_eq!(names(path), vec!["b"]);
            assert!(path.child.is_none());
        }
        other => panic!("{:?} is no path", other),
    }
    assert_eq!(reference[0].right.typename(), "PropertyExpression");
}

#[test]
fn parse_negative_and_shorthand_numbers() {
    let negative = parse_text("a = -123").unwrap();
    assert_eq!(number_text(&negative[0].right), "-123");
    assert_eq!(number_text(&negative[0].right).parse::<f32>().unwrap(), -123f32);
    assert_eq!(negative[0].right.display(), "-123");

    let shorthand = parse_text("a = .23").unwrap();
    assert_eq!(number_text(&shorthand[0].right), ".23");
    assert_eq!(number_text(&shorthand[0].right).parse::<f32>().unwrap(), 0.23f32);
}

#[test]
fn parse_error_scenarios_from_text() {
    assert!(Lexer::new("a = \"unterminated").scan().is_err());
    assert!(Lexer::new("a = 1.2.3").scan().is_err());
    assert_eq!(parse_text("= b").unwrap_err(), ParseError::AssignmentWithoutLHS { line: 1 });
    assert_eq!(
        parse_text("a =").unwrap_err(),
        ParseError::UnexpectedRHS { kind: TokenType::EOF, line: 1 }
    );
}

#[test]
fn parse_ignores_spaces_and_line_ends_between_statements() {
    let plain = parse_text("a = b").unwrap();
    assert_eq!(names(&plain[0].left), vec!["a"]);
    assert_eq!(plain[0].right.display(), "b");

    for source in ["a=b", "  a   =   b  ", "\n\na = b\n", "a\n= b", "a\n\n\n=b"] {
        assert_eq!(parse_text(source).unwrap(), plain, "{:?}", source);
    }
}

#[test]
fn parse_needs_the_right_hand_side_right_after_the_assign() {
    assert_eq!(
        parse_text("a\n=\nb").unwrap_err(),
        ParseError::UnexpectedRHS { kind: TokenType::EOL, line: 2 }
    );
}

#[test]
fn parse_several_statements() {
    let expressions = parse_text("a.b = \"x\"\nc = d.e\nf = -1.5\n").unwrap();
    assert_eq!(expressions.len(), 3);
    assert_eq!(names(&expressions[0].left), vec!["a", "b"]);
    assert_eq!(expressions[0].right.display(), "x");
    assert_eq!(names(&expressions[1].left), vec!["c"]);
    match &expressions[1].right {
        LiteralValue::PropertyReference(path) => assert_eq!(names(path), vec!["d", "e"]),
        other => panic!("{:?} is no path", other),
    }
    assert_eq!(names(&expressions[2].left), vec!["f"]);
    assert_eq!(number_text(&expressions[2].right), "-1.5");
}

#[test]
fn parse_statements_on_one_line() {
    let expressions = parse_text("a = 1 b = 2").unwrap();
    assert_eq!(expressions.len(), 2);
    assert_eq!(names(&expressions[1].left), vec!["b"]);
}

#[test]
fn parse_path_rules() {
    assert_eq!(
        parse_text("a. = 1").unwrap_err(),
        ParseError::UnexpectedLHS { kind: TokenType::ASSIGN, line: 1 }
    );
    assert_eq!(
        parse_text("a..b = 1").unwrap_err(),
        ParseError::UnexpectedLHS { kind: TokenType::DOT, line: 1 }
    );
    assert_eq!(
        parse_text("a = b.\n").unwrap_err(),
        ParseError::UnexpectedRHS { kind: TokenType::EOL, line: 1 }
    );
    assert_eq!(
        parse_text("x = 1\na = b.").unwrap_err(),
        ParseError::UnexpectedRHS { kind: TokenType::EOF, line: 2 }
    );
    let leading = parse_text(". a = 1").unwrap();
    assert_eq!(names(&leading[0].left), vec!["a"]);
}

#[test]
fn parse_keeps_the_last_path_before_the_assign() {
    let expressions = parse_text("a b = 1").unwrap();
    assert_eq!(expressions.len(), 1);
    assert_eq!(names(&expressions[0].left), vec!["b"]);
    assert!(parse_text("a").unwrap().is_empty());
    assert!(parse_text("").unwrap().is_empty());
}

#[test]
fn parse_without_end_of_input_token() {
    let tokens = vec![
        token(TokenType::IDENTIFIER, "a", 1),
        token(TokenType::ASSIGN, "=", 1),
        token(TokenType::STRING, "s", 1),
    ];
    let expressions = Parser::new(tokens).parse().unwrap();
    assert_eq!(expressions.len(), 1);

    let tokens = vec![token(TokenType::IDENTIFIER, "a", 1), token(TokenType::ASSIGN, "=", 3)];
    assert_eq!(
        Parser::new(tokens).parse().unwrap_err(),
        ParseError::UnexpectedRHS { kind: TokenType::EOF, line: 3 }
    );
    assert!(Parser::new(Vec::new()).parse().unwrap().is_empty());
}

#[test]
fn parse_stops_after_the_end_of_input() {
    let tokens = vec![
        token(TokenType::IDENTIFIER, "a", 1),
        token(TokenType::ASSIGN, "=", 1),
        token(TokenType::NUMBER, "1", 1),
        token(TokenType::EOF, "\0", 1),
        token(TokenType::IDENTIFIER, "b", 1),
        token(TokenType::ASSIGN, "=", 1),
        token(TokenType::NUMBER, "2", 1),
    ];
    let mut parser = Parser::new(tokens);
    let first = parser.parse().unwrap();
    assert_eq!(first.len(), 1);
    assert_eq!(names(&first[0].left), vec!["a"]);
    let second = parser.parse().unwrap();
    assert_eq!(second.len(), 1);
    assert_eq!(names(&second[0].left), vec!["b"]);
    assert!(parser.parse().unwrap().is_empty());
}

#[test]
fn parse_again_after_failure_fails_again() {
    let mut parser = Parser::new(Lexer::new("a = 1\nb = =").scan().unwrap());
    let expected = ParseError::UnexpectedRHS { kind: TokenType::ASSIGN, line: 2 };
    assert_eq!(parser.parse().unwrap_err(), expected);
    assert_eq!(parser.parse().unwrap_err(), expected);
}

#[test]
fn parse_twice_gives_equal_assignments() {
    for source in ["a.b.c = 1", "a = \"x\"\nb = c.d", "a = = b", "= 1"] {
        assert_eq!(parse_text(source), parse_text(source));
    }
}

#[test]
fn visit_identifier_folds_the_path() {
    let tokens = vec![
        token(TokenType::DOT, ".", 1),
        token(TokenType::IDENTIFIER, "b", 1),
        token(TokenType::DOT, ".", 1),
        token(TokenType::IDENTIFIER, "c", 1),
        token(TokenType::ASSIGN, "=", 1),
    ];
    let mut parser = Parser::new(tokens);
    let path = parser.visit_identifier(&token(TokenType::IDENTIFIER, "a", 1)).unwrap();
    assert_eq!(names(&path), vec!["a", "b", "c"]);
    assert_eq!(path.display(), "a");
    assert_eq!(path.typename(), "PropertyExpression");
    // the cursor is on `=` now: nothing more belongs to a path
    let alone = parser.visit_identifier(&token(TokenType::IDENTIFIER, "z", 1)).unwrap();
    assert_eq!(names(&alone), vec!["z"]);
}

#[test]
fn visit_identifier_names_the_offender() {
    let tokens = vec![token(TokenType::DOT, ".", 2), token(TokenType::STRING, "s", 3)];
    let mut parser = Parser::new(tokens);
    assert_eq!(
        parser.visit_identifier(&token(TokenType::IDENTIFIER, "a", 2)).unwrap_err(),
        Misplaced { kind: TokenType::STRING, line: 3 }
    );
    let mut parser = Parser::new(vec![token(TokenType::DOT, ".", 2)]);
    assert_eq!(
        parser.visit_identifier(&token(TokenType::IDENTIFIER, "a", 2)).unwrap_err(),
        Misplaced { kind: TokenType::EOF, line: 2 }
    );
}

#[test]
fn visit_assignment_reads_one_right_hand_side() {
    let tokens = vec![token(TokenType::STRING, "s", 1), token(TokenType::STRING, "t", 1)];
    let mut parser = Parser::new(tokens);
    let left = PropertyExpression { name: "a".to_string(), child: None };
    let assignment = parser.visit_assignment(left).unwrap();
    assert_eq!(assignment.left.name, "a");
    assert_eq!(assignment.right.display(), "s");
    let left = PropertyExpression { name: "b".to_string(), child: None };
    assert_eq!(parser.visit_assignment(left).unwrap().right.display(), "t");
    let left = PropertyExpression { name: "c".to_string(), child: None };
    assert_eq!(
        parser.visit_assignment(left).unwrap_err(),
        ParseError::UnexpectedRHS { kind: TokenType::EOF, line: 1 }
    );
}

#[test]
fn visit_string_and_number() {
    let mut parser = Parser::new(Vec::new());
    let string = parser.visit_string(token(TokenType::STRING, "hello world", 1));
    assert_eq!(string.value, "hello world");
    assert_eq!(string.display(), "hello world");
    assert_eq!(string.typename(), "ConstantExpression<String>");
    let number = parser.visit_number(token(TokenType::NUMBER, "2.5e3", 1)).unwrap();
    assert_eq!(number.value.as_str(), "2.5e3");
    assert_eq!(number.display(), "2.5e3");
    assert_eq!(number.typename(), "ConstantExpression<f32>");
    assert_eq!(number.value.as_str().parse::<f32>().unwrap(), 2500f32);
    assert_eq!(
        parser.visit_number(token(TokenType::NUMBER, "1.2.3", 9)).unwrap_err(),
        ParseError::InvalidNumberLiteral { line: 9 }
    );
}
