use sen::lexer::Lexer;
use sen::token::{Token, TokenKind};
use sen::{compile, Error};

fn lex(text: &str) -> Result<Vec<Token>, String> {
    Lexer::new(text.chars().collect()).run()
}

fn lex_error(text: &str) -> String {
    match lex(text) {
        Ok(tokens) => panic!("expected an error, got {:?}", tokens),
        Err(m) => m,
    }
}

fn kinds(text: &str) -> Vec<TokenKind> {
    lex(text).unwrap().into_iter().map(|t| t.kind).collect()
}

fn positions(text: &str) -> Vec<(usize, usize)> {
    lex(text).unwrap().iter().map(|t| (t.line, t.column)).collect()
}

fn ident(s: &str) -> TokenKind {
    TokenKind::Identifier(s.to_string())
}

fn number(s: &str) -> TokenKind {
    TokenKind::Number(s.to_string())
}

#[test]
fn empty_input_is_eof_only() {
    assert_eq!(kinds(""), vec![TokenKind::EOF]);
    assert_eq!(positions(""), vec![(1, 1)]);
}

#[test]
fn whitespace_input_is_eof_only() {
    for text in [" ", "\t", "\n", "\r", "  \t \n\r\n  "] {
        assert_eq!(kinds(text), vec![TokenKind::EOF]);
    }
    assert_eq!(positions(" \t\n  "), vec![(2, 3)]);
}

#[test]
fn plus_expression() {
    assert_eq!(
        kinds("(+ 1 2)"),
        vec![
            TokenKind::LeftParen,
            ident("+"),
            number("1"),
            number("2"),
            TokenKind::RightParen,
            TokenKind::EOF,
        ]
    );
}

#[test]
fn plus_expression_positions() {
    assert_eq!(
        positions("(+ 1 2)"),
        vec![(1, 2), (1, 3), (1, 5), (1, 7), (1, 8), (1, 8)]
    );
}

#[test]
fn string_literal() {
    assert_eq!(
        kinds("\"hello\""),
        vec![TokenKind::String("hello".to_string()), TokenKind::EOF]
    );
    assert_eq!(positions("\"hello\""), vec![(1, 8), (1, 8)]);
}

#[test]
fn empty_string_literal() {
    assert_eq!(
        kinds("\"\" x"),
        vec![TokenKind::String(String::new()), ident("x"), TokenKind::EOF]
    );
}

#[test]
fn string_newline_starts_line() {
    let tokens = lex("\"a\nb\" c").unwrap();
    assert_eq!(tokens[0].kind, TokenKind::String("a\nb".to_string()));
    assert_eq!((tokens[0].line, tokens[0].column), (2, 3));
    assert_eq!((tokens[1].line, tokens[1].column), (2, 5));
    assert_eq!(positions("\"\r\n\"x"), vec![(3, 2), (3, 3), (3, 3)]);
}

#[test]
fn unterminated_string() {
    assert_eq!(lex_error("\"unterminated"), "Unterminated string");
    assert_eq!(lex_error("\""), "Unterminated string");
}

#[test]
fn second_dot_is_rejected() {
    assert_eq!(lex_error("3.14.1"), "Invalid floating-point number signature");
}

#[test]
fn numbers_are_kept_as_text() {
    assert_eq!(kinds("3.14"), vec![number("3.14"), TokenKind::EOF]);
    assert_eq!(kinds("5."), vec![number("5."), TokenKind::EOF]);
    assert_eq!(kinds("007"), vec![number("007"), TokenKind::EOF]);
    assert_eq!(kinds("12abc"), vec![number("12"), ident("abc"), TokenKind::EOF]);
}

#[test]
fn keywords() {
    assert_eq!(
        kinds("true false"),
        vec![TokenKind::True, TokenKind::False, TokenKind::EOF]
    );
}

#[test]
fn keywords_are_case_sensitive() {
    assert_eq!(
        kinds("True FALSE truex"),
        vec![ident("True"), ident("FALSE"), ident("truex"), TokenKind::EOF]
    );
}

#[test]
fn operators_are_identifiers() {
    assert_eq!(
        kinds("= + - * /"),
        vec![ident("="), ident("+"), ident("-"), ident("*"), ident("/"), TokenKind::EOF]
    );
}

#[test]
fn words_stop_at_non_alphanumerics() {
    assert_eq!(
        kinds("abc1(x)"),
        vec![
            ident("abc1"),
            TokenKind::LeftParen,
            ident("x"),
            TokenKind::RightParen,
            TokenKind::EOF,
        ]
    );
}

#[test]
fn unrecognized_character() {
    assert_eq!(lex_error("@"), "Unrecognized character @");
    assert_eq!(lex_error("{"), "Unrecognized character {");
    assert_eq!(lex_error("\u{e9}"), "Unrecognized character \u{e9}");
}

#[test]
fn error_discards_earlier_tokens() {
    assert_eq!(lex_error("(a b @ c)"), "Unrecognized character @");
}

#[test]
fn same_input_same_tokens() {
    let text = "(define x \"s\" 1.5)\n(+ x true)";
    let a = lex(text).unwrap();
    let b = lex(text).unwrap();
    assert_eq!(a.len(), b.len());
    for (x, y) in a.iter().zip(b.iter()) {
        assert_eq!(x.kind, y.kind);
        assert_eq!((x.line, x.column), (y.line, y.column));
    }
}

#[test]
fn newlines_reset_column() {
    assert_eq!(positions("a\nbc"), vec![(1, 2), (2, 3), (2, 3)]);
    assert_eq!(positions("a\r\n b"), vec![(1, 2), (3, 3), (3, 3)]);
}

#[test]
fn positions_do_not_decrease() {
    let p = positions("(a\n  (b 1.0) \"x y\"\n\n c)");
    for w in p.windows(2) {
        assert!(w[0] <= w[1]);
    }
}

#[test]
fn compile_returns_tokens() {
    let r = compile("(+ 1 2)".chars().collect()).unwrap();
    assert_eq!(r.len(), 6);
    assert_eq!(r[1].kind, ident("+"));
}

#[test]
fn compile_reports_lexing_error() {
    match compile("3.1.4".chars().collect()) {
        Err(Error::LexingError(m)) => {
            assert_eq!(m, "Invalid floating-point number signature")
        }
        other => panic!("unexpected result: {:?}", other),
    }
}
