use eris::lexer::{Lexer, LexerError, SourceLocation, Token};
use eris::preprocess_multi_line_comments;

fn ok(token: Token, line: usize, column: usize) -> Result<(Token, SourceLocation), LexerError> {
    Ok((token, SourceLocation { line, column }))
}

fn err(token: &str, line: usize, column: usize) -> Result<(Token, SourceLocation), LexerError> {
    Err(LexerError { token: token.to_string(), line, column })
}

fn lex(source: &str) -> Vec<Result<(Token, SourceLocation), LexerError>> {
    Lexer::new(source).tokenize()
}

#[test]
fn pipeline_is_deterministic() {
    let raw = "x -+c+- := 1;\n123abc \"hi\" 4.5 -- tail";
    let first = lex(&preprocess_multi_line_comments(raw));
    let second = lex(&preprocess_multi_line_comments(raw));
    assert_eq!(first, second);
}

#[test]
fn keyword_beats_identifier() {
    assert_eq!(lex("if"), vec![ok(Token::If, 1, 1)]);
}

#[test]
fn longer_identifier_beats_keyword() {
    assert_eq!(lex("iffy"), vec![ok(Token::Ident("iffy".to_string()), 1, 1)]);
}

#[test]
fn all_keywords() {
    assert_eq!(
        lex("mut int str arr if else return"),
        vec![
            ok(Token::Mut, 1, 1),
            ok(Token::Int, 1, 5),
            ok(Token::Str, 1, 9),
            ok(Token::Arr, 1, 13),
            ok(Token::If, 1, 17),
            ok(Token::Else, 1, 20),
            ok(Token::Return, 1, 25),
        ]
    );
}

#[test]
fn invalid_identifier_is_one_error() {
    // One invalid-identifier error, not an integer followed by an identifier.
    assert_eq!(lex("123abc"), vec![err("123abc", 1, 1)]);
}

#[test]
fn integer_literal() {
    assert_eq!(lex("123"), vec![ok(Token::IntLit(123), 1, 1)]);
}

#[test]
fn float_literal() {
    let tokens = lex("123.45");
    assert_eq!(tokens.len(), 1);
    match &tokens[0] {
        Ok((Token::FloatLit(text), loc)) => {
            assert_eq!(text, "123.45");
            assert_eq!(text.parse::<f64>().unwrap(), 123.45);
            assert_eq!((loc.line, loc.column), (1, 1));
        }
        other => panic!("expected a float literal, got {:?}", other),
    }
}

#[test]
fn identifier_with_trailing_digits() {
    assert_eq!(lex("abc123"), vec![ok(Token::Ident("abc123".to_string()), 1, 1)]);
}

#[test]
fn string_literal_content_is_unquoted() {
    assert_eq!(
        lex("\"hello\""),
        vec![ok(Token::StringLit("hello".to_string()), 1, 1)]
    );
}

#[test]
fn string_literal_keeps_escapes_raw() {
    // The recognized escapes stay as written; only the quotes are stripped.
    assert_eq!(
        lex("\"a\\nb\\\"c\\\\d\\te\""),
        vec![ok(Token::StringLit("a\\nb\\\"c\\\\d\\te".to_string()), 1, 1)]
    );
}

#[test]
fn unterminated_string_is_an_error_on_the_quote() {
    assert_eq!(
        lex("\"abc"),
        vec![err("\"", 1, 1), ok(Token::Ident("abc".to_string()), 1, 2)]
    );
}

#[test]
fn invalid_escape_makes_the_quote_an_error() {
    // `\q` is not a recognized escape, so the opening quote matches no rule.
    assert_eq!(
        lex("\"a\\qb\""),
        vec![
            err("\"", 1, 1),
            ok(Token::Ident("a".to_string()), 1, 2),
            err("\\", 1, 3),
            ok(Token::Ident("qb".to_string()), 1, 4),
            err("\"", 1, 6),
        ]
    );
}

#[test]
fn comment_stripping_matches_plain_source_modulo_columns() {
    let cleaned = preprocess_multi_line_comments("x -+ this is ignored +- := 1;");
    assert_eq!(cleaned, "x  := 1;");
    let with_comment: Vec<Token> =
        lex(&cleaned).into_iter().map(|e| e.unwrap().0).collect();
    let without: Vec<Token> = lex("x := 1;").into_iter().map(|e| e.unwrap().0).collect();
    assert_eq!(with_comment, without);
    assert_eq!(
        with_comment,
        vec![
            Token::Ident("x".to_string()),
            Token::DeclareAssign,
            Token::IntLit(1),
            Token::Semicolon,
        ]
    );
}

#[test]
fn error_location_line_and_column() {
    // Three lines; line 2 carries the offending lexeme at its 5th character.
    assert_eq!(
        lex("a b\nc d @\ne f"),
        vec![
            ok(Token::Ident("a".to_string()), 1, 1),
            ok(Token::Ident("b".to_string()), 1, 3),
            ok(Token::Ident("c".to_string()), 2, 1),
            ok(Token::Ident("d".to_string()), 2, 3),
            err("@", 2, 5),
            ok(Token::Ident("e".to_string()), 3, 1),
            ok(Token::Ident("f".to_string()), 3, 3),
        ]
    );
}

#[test]
fn operators_and_delimiters() {
    assert_eq!(
        lex(":= = + - * / % == != < <= > >= && || ! ( ) { } [ ] ; ,"),
        vec![
            ok(Token::DeclareAssign, 1, 1),
            ok(Token::Assign, 1, 4),
            ok(Token::Plus, 1, 6),
            ok(Token::Minus, 1, 8),
            ok(Token::Multiply, 1, 10),
            ok(Token::Divide, 1, 12),
            ok(Token::Modulo, 1, 14),
            ok(Token::Equal, 1, 16),
            ok(Token::NotEqual, 1, 19),
            ok(Token::LessThan, 1, 22),
            ok(Token::LessEqual, 1, 24),
            ok(Token::GreaterThan, 1, 27),
            ok(Token::GreaterEqual, 1, 29),
            ok(Token::And, 1, 32),
            ok(Token::Or, 1, 35),
            ok(Token::Not, 1, 38),
            ok(Token::LParen, 1, 40),
            ok(Token::RParen, 1, 42),
            ok(Token::LBrace, 1, 44),
            ok(Token::RBrace, 1, 46),
            ok(Token::LBracket, 1, 48),
            ok(Token::RBracket, 1, 50),
            ok(Token::Semicolon, 1, 52),
            ok(Token::Comma, 1, 54),
        ]
    );
}

#[test]
fn lone_colon_ampersand_and_pipe_are_errors() {
    assert_eq!(
        lex(": & |"),
        vec![err(":", 1, 1), err("&", 1, 3), err("|", 1, 5)]
    );
}

#[test]
fn line_comment_skips_to_newline() {
    assert_eq!(
        lex("a -- rest of line\nb"),
        vec![
            ok(Token::Ident("a".to_string()), 1, 1),
            ok(Token::Ident("b".to_string()), 2, 1),
        ]
    );
}

#[test]
fn doc_comment_skips_to_newline() {
    assert_eq!(
        lex("--- doc line\ny"),
        vec![ok(Token::Ident("y".to_string()), 2, 1)]
    );
}

#[test]
fn line_comment_at_end_of_input() {
    assert_eq!(lex("a --"), vec![ok(Token::Ident("a".to_string()), 1, 1)]);
}

#[test]
fn integer_overflow_is_an_error() {
    assert_eq!(
        lex("99999999999999999999"),
        vec![err("99999999999999999999", 1, 1)]
    );
    assert_eq!(
        lex("9223372036854775807"),
        vec![ok(Token::IntLit(i64::MAX), 1, 1)]
    );
    assert_eq!(lex("9223372036854775808"), vec![err("9223372036854775808", 1, 1)]);
}

#[test]
fn leading_zeros_are_a_plain_integer() {
    assert_eq!(lex("007"), vec![ok(Token::IntLit(7), 1, 1)]);
    assert_eq!(
        lex("00000000000000000000001"),
        vec![ok(Token::IntLit(1), 1, 1)]
    );
}

#[test]
fn digits_dot_without_fraction_is_int_then_error() {
    assert_eq!(
        lex("12."),
        vec![ok(Token::IntLit(12), 1, 1), err(".", 1, 3)]
    );
}

#[test]
fn float_then_identifier() {
    let tokens = lex("123.45abc");
    assert_eq!(tokens.len(), 2);
    match &tokens[0] {
        Ok((Token::FloatLit(text), _)) => assert_eq!(text, "123.45"),
        other => panic!("expected a float literal, got {:?}", other),
    }
    assert_eq!(tokens[1], ok(Token::Ident("abc".to_string()), 1, 7));
}

#[test]
fn invalid_identifier_with_underscore_and_digits() {
    assert_eq!(lex("1a_2b"), vec![err("1a_2b", 1, 1)]);
    assert_eq!(lex("0_"), vec![err("0_", 1, 1)]);
}

#[test]
fn errors_do_not_stop_the_scan() {
    assert_eq!(
        lex("@ x @"),
        vec![
            err("@", 1, 1),
            ok(Token::Ident("x".to_string()), 1, 3),
            err("@", 1, 5),
        ]
    );
}

#[test]
fn whitespace_only_yields_nothing() {
    assert_eq!(lex(" \t\n\u{000C} "), vec![]);
    assert_eq!(lex(""), vec![]);
}

#[test]
fn underscore_starts_an_identifier() {
    assert_eq!(
        lex("_tmp1"),
        vec![ok(Token::Ident("_tmp1".to_string()), 1, 1)]
    );
}

#[test]
fn full_statement() {
    assert_eq!(
        lex("mut x := y + 2;"),
        vec![
            ok(Token::Mut, 1, 1),
            ok(Token::Ident("x".to_string()), 1, 5),
            ok(Token::DeclareAssign, 1, 7),
            ok(Token::Ident("y".to_string()), 1, 10),
            ok(Token::Plus, 1, 12),
            ok(Token::IntLit(2), 1, 14),
            ok(Token::Semicolon, 1, 15),
        ]
    );
}

#[test]
fn unterminated_block_comment_then_tokenize() {
    let cleaned = preprocess_multi_line_comments("x := 1; -+ never closed");
    assert_eq!(cleaned, "x := 1; ");
    assert_eq!(
        lex(&cleaned),
        vec![
            ok(Token::Ident("x".to_string()), 1, 1),
            ok(Token::DeclareAssign, 1, 3),
            ok(Token::IntLit(1), 1, 6),
            ok(Token::Semicolon, 1, 7),
        ]
    );
}
