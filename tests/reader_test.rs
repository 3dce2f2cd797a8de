use r6::lexer::{LexError, LexErrorKind, Lexer, Token};
use r6::parser::{equals, Datum, ParseError, Parser};

fn chars(s: &str) -> Vec<char> {
    s.chars().collect()
}

fn sym(s: &str) -> Datum {
    Datum::Symbol(chars(s))
}

fn pair(a: Datum, b: Datum) -> Datum {
    Datum::Pair(Box::new(a), Box::new(b))
}

fn parse(src: &str) -> Result<Datum, ParseError> {
    Parser::new(src).parse_datum()
}

fn tokens(src: &str) -> Vec<(usize, usize, Token)> {
    let mut lexer = Lexer::new(src);
    let mut out = Vec::new();
    loop {
        let t = lexer.lex_token().unwrap();
        let end = t.token == Token::EOF;
        out.push((t.line, t.column, t.token));
        if end {
            return out;
        }
    }
}

/// Parses `src` as one atom and checks that only the end of input follows it.
fn single_atom(src: &str) -> Datum {
    let mut lexer = Lexer::new(src);
    let first = lexer.lex_token().unwrap();
    assert_eq!(lexer.lex_token().unwrap().token, Token::EOF);
    assert!(first.token != Token::EOF);
    parse(src).unwrap()
}

#[test]
fn literals_round_trip() {
    assert_eq!(single_atom("#t"), Datum::Boolean(true));
    assert_eq!(single_atom("#f"), Datum::Boolean(false));
    assert_eq!(single_atom("#T"), Datum::Boolean(true));
    assert_eq!(single_atom("#F"), Datum::Boolean(false));
    assert_eq!(single_atom("#\\a"), Datum::Character(chars("a")));
    assert_eq!(single_atom("123"), Datum::Number(chars("123")));
    assert_eq!(single_atom("foo"), sym("foo"));
    assert_eq!(single_atom("->bar"), sym("->bar"));
    assert_eq!(single_atom("+"), sym("+"));
    assert_eq!(single_atom("-"), sym("-"));
}

#[test]
fn character_names_take_alphanumerics() {
    assert_eq!(single_atom("#\\newline"), Datum::Character(chars("newline")));
    assert_eq!(parse("#\\( x"), Ok(Datum::Character(chars("("))));
}

#[test]
fn comments_and_whitespace_are_transparent() {
    let with_comment = parse("(+ 1 ; comment\n 2)").unwrap();
    let plain = parse("(+ 1 2)").unwrap();
    assert!(equals(&with_comment, &plain));
    assert_eq!(with_comment, plain);
}

#[test]
fn comments_between_tokens_repeat() {
    assert_eq!(parse("  ; one\n\t; two\n  foo ; three"), Ok(sym("foo")));
}

#[test]
fn improper_lists() {
    assert_eq!(parse("(a . b)"), Ok(pair(sym("a"), sym("b"))));
    assert_eq!(parse("(a b . c)"), Ok(pair(sym("a"), pair(sym("b"), sym("c")))));
}

#[test]
fn proper_and_nested_lists() {
    assert_eq!(parse("()"), Ok(Datum::EmptyList));
    assert_eq!(
        parse("(a (b))"),
        Ok(pair(sym("a"), pair(pair(sym("b"), Datum::EmptyList), Datum::EmptyList)))
    );
}

#[test]
fn structural_equality() {
    let d1 = parse("(a (b . #t) #\\x 12)").unwrap();
    let d2 = parse("(a (b . #t) #\\x 12)").unwrap();
    let d3 = parse("(a (b . #f) #\\x 12)").unwrap();
    assert!(equals(&d1, &d1));
    assert!(equals(&d1, &d2));
    assert!(equals(&d2, &d1));
    assert!(!equals(&d1, &d3));
    assert!(!equals(&Datum::EmptyList, &sym("a")));
    assert!(equals(&Datum::EmptyList, &Datum::EmptyList));
}

#[test]
fn positions_track_lines_and_columns() {
    let toks = tokens("(a\n  bc)");
    assert_eq!(
        toks,
        vec![
            (1, 1, Token::OpenParen),
            (1, 2, Token::Identifier(chars("a"))),
            (2, 3, Token::Identifier(chars("bc"))),
            (2, 5, Token::CloseParen),
            (2, 6, Token::EOF),
        ]
    );
}

#[test]
fn newline_ending_a_comment_moves_to_the_next_line() {
    let toks = tokens("; c\nx");
    assert_eq!(toks[0], (2, 1, Token::Identifier(chars("x"))));
}

#[test]
fn dot_and_identifier_dots() {
    let toks = tokens(". a.b");
    assert_eq!(toks[0].2, Token::Dot);
    assert_eq!(toks[1].2, Token::Identifier(chars("a.b")));
}

#[test]
fn end_of_input_repeats() {
    let mut lexer = Lexer::new("  ");
    assert_eq!(lexer.lex_token().unwrap().token, Token::EOF);
    assert_eq!(lexer.lex_token().unwrap().token, Token::EOF);
}

#[test]
fn lex_errors() {
    assert_eq!(
        Lexer::new("+5").lex_token().unwrap_err(),
        LexError { line: 1, column: 2, kind: LexErrorKind::InvalidCharacter('+') }
    );
    assert_eq!(
        Lexer::new("-x").lex_token().unwrap_err(),
        LexError { line: 1, column: 2, kind: LexErrorKind::InvalidCharacter('x') }
    );
    assert_eq!(
        Lexer::new("#").lex_token().unwrap_err(),
        LexError { line: 1, column: 2, kind: LexErrorKind::UnexpectedEOF }
    );
    assert_eq!(
        Lexer::new("#\\").lex_token().unwrap_err(),
        LexError { line: 1, column: 3, kind: LexErrorKind::UnexpectedEOF }
    );
    assert_eq!(
        Lexer::new("#q").lex_token().unwrap_err(),
        LexError { line: 1, column: 3, kind: LexErrorKind::InvalidCharacter('q') }
    );
    assert_eq!(
        Lexer::new("\n [").lex_token().unwrap_err(),
        LexError { line: 2, column: 3, kind: LexErrorKind::InvalidCharacter('[') }
    );
}

#[test]
fn parse_errors() {
    assert_eq!(parse(")"), Err(ParseError::UnexpectedToken { line: 1, column: 1 }));
    assert_eq!(parse(" ."), Err(ParseError::UnexpectedToken { line: 1, column: 2 }));
    assert_eq!(parse(""), Err(ParseError::UnexpectedEOF { line: 1, column: 1 }));
    assert_eq!(parse("(a"), Err(ParseError::UnexpectedEOF { line: 1, column: 3 }));
    assert_eq!(parse("(a . b c)"), Err(ParseError::UnexpectedToken { line: 1, column: 8 }));
    assert_eq!(parse("(a . )"), Err(ParseError::UnexpectedToken { line: 1, column: 6 }));
    assert_eq!(parse("(a . b"), Err(ParseError::UnexpectedEOF { line: 1, column: 7 }));
    assert_eq!(
        parse("(a [)"),
        Err(ParseError::Lex(LexError {
            line: 1,
            column: 5,
            kind: LexErrorKind::InvalidCharacter('[')
        }))
    );
}

#[test]
fn tokens_describe_themselves() {
    assert_eq!(Token::OpenParen.describe(), "OpenParen");
    assert_eq!(Token::CloseParen.describe(), "CloseParen");
    assert_eq!(Token::Dot.describe(), "Dot");
    assert_eq!(Token::Identifier(chars("foo")).describe(), "Identifier(foo)");
    assert_eq!(Token::True.describe(), "#t");
    assert_eq!(Token::False.describe(), "#f");
    assert_eq!(Token::Character(chars("a")).describe(), "#\\a");
    assert_eq!(Token::Numeric(chars("42")).describe(), "42");
    assert_eq!(Token::EOF.describe(), "EOF");
}

#[test]
fn lexer_reports_its_position() {
    let mut lexer = Lexer::new("ab\n c");
    assert_eq!(lexer.position(), (1, 1));
    lexer.lex_token().unwrap();
    assert_eq!(lexer.position(), (1, 3));
    lexer.lex_token().unwrap();
    assert_eq!(lexer.position(), (2, 3));
}
