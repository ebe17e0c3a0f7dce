use swift_front::lexer::{tokenize, LexError};
use swift_front::token::{string_to_token, token_can_be_name, Token, TokenKind};

fn kinds(source: &str) -> Vec<TokenKind> {
    tokenize(source, "t.swift").unwrap().iter().map(|t| t.kind).collect()
}

#[test]
fn empty_source_is_only_eof() {
    let ts = tokenize("", "t.swift").unwrap();
    assert_eq!(ts.len(), 1);
    assert_eq!(ts[0].kind, TokenKind::EOF);
    assert_eq!(ts[0].line, 1);
    assert_eq!(ts[0].col, 1);
}

#[test]
fn keywords_and_identifiers() {
    assert_eq!(
        kinds("var x let Self self"),
        vec![
            TokenKind::VAR,
            TokenKind::IDENTIFIER,
            TokenKind::LET,
            TokenKind::TYPE_SELF,
            TokenKind::SELF,
            TokenKind::EOF
        ]
    );
}

#[test]
fn string_to_token_table() {
    assert_eq!(string_to_token("fileprivate"), TokenKind::FILEPRIVATE);
    assert_eq!(string_to_token("some"), TokenKind::SOME);
    assert_eq!(string_to_token("Type"), TokenKind::TYPE);
    assert_eq!(string_to_token("vars"), TokenKind::IDENTIFIER);
    assert_eq!(string_to_token(""), TokenKind::IDENTIFIER);
}

#[test]
fn names_include_reserved_words() {
    let kw = Token::new(TokenKind::LET, "let".to_string(), String::new(), 1, 1);
    let id = Token::new(TokenKind::IDENTIFIER, "x".to_string(), String::new(), 1, 1);
    let num = Token::new(TokenKind::NUMBER, "1".to_string(), String::new(), 1, 1);
    assert!(token_can_be_name(&kw));
    assert!(token_can_be_name(&id));
    assert!(!token_can_be_name(&num));
}

#[test]
fn numbers_with_and_without_fraction() {
    assert_eq!(
        kinds("12 3.25 4."),
        vec![TokenKind::NUMBER, TokenKind::NUMBER, TokenKind::NUMBER, TokenKind::DOT, TokenKind::EOF]
    );
    let ts = tokenize("12 3.25", "t.swift").unwrap();
    assert_eq!(ts[0].kind, TokenKind::NUMBER);
    assert_eq!(ts[0].value, "12");
    assert_eq!(ts[1].kind, TokenKind::NUMBER);
    assert_eq!(ts[1].value, "3.25");
}

#[test]
fn longest_operator_first() {
    assert_eq!(
        kinds(">= > ... ..< . ?? ? == = != ! <= < && || += -= + - * % , : ;"),
        vec![
            TokenKind::GREATER_EQUALS,
            TokenKind::GREATER,
            TokenKind::DOT_DOT_DOT,
            TokenKind::RANGE,
            TokenKind::DOT,
            TokenKind::DEFAULTING,
            TokenKind::OPTIONAL,
            TokenKind::EQUALS,
            TokenKind::ASSIGNMENT,
            TokenKind::NOT_EQUALS,
            TokenKind::NOT,
            TokenKind::LESS_EQUALS,
            TokenKind::LESS,
            TokenKind::AND,
            TokenKind::OR,
            TokenKind::PLUS_EQUALS,
            TokenKind::MINUS_EQUALS,
            TokenKind::PLUS,
            TokenKind::MINUS,
            TokenKind::STAR,
            TokenKind::PERCENT,
            TokenKind::COMMA,
            TokenKind::COLON,
            TokenKind::SEMI_COLON,
            TokenKind::EOF
        ]
    );
}

#[test]
fn strings_drop_their_delimiters() {
    let ts = tokenize(r#""a\"b" """x
y""""#, "t.swift").unwrap();
    assert_eq!(ts[0].kind, TokenKind::STRING);
    assert_eq!(ts[0].value, r#"a\"b"#);
    assert_eq!(ts[1].kind, TokenKind::STRING);
    assert_eq!(ts[1].value, "x\ny");
}

#[test]
fn comments_are_skipped_and_count_lines() {
    let ts = tokenize("a // note\n/* one\ntwo\n */ b", "t.swift").unwrap();
    assert_eq!(ts.len(), 3);
    assert_eq!(ts[0].value, "a");
    assert_eq!((ts[0].line, ts[0].col), (1, 1));
    assert_eq!(ts[1].value, "b");
    assert_eq!((ts[1].line, ts[1].col), (4, 5));
}

#[test]
fn line_and_column_tracking() {
    let ts = tokenize("var x\r\n  let y", "main.swift").unwrap();
    assert_eq!((ts[0].line, ts[0].col), (1, 1));
    assert_eq!((ts[1].line, ts[1].col), (1, 5));
    assert_eq!((ts[2].line, ts[2].col), (2, 3));
    assert_eq!((ts[3].line, ts[3].col), (2, 7));
    assert_eq!(ts[3].file, "main.swift");
}

#[test]
fn annotations_and_macros() {
    let ts = tokenize("@objc #file", "t.swift").unwrap();
    assert_eq!(ts[0].kind, TokenKind::ANNOTATION);
    assert_eq!(ts[0].value, "@objc");
    assert_eq!(ts[1].kind, TokenKind::MACRO);
    assert_eq!(ts[1].value, "#file");
}

#[test]
fn unmatched_input_is_a_lex_error() {
    assert_eq!(
        tokenize("x\n  $", "t.swift").unwrap_err(),
        LexError { pos: 4, line: 2, col: 3 }
    );
    assert!(tokenize("/* open", "t.swift").is_err());
    assert!(tokenize("\"open", "t.swift").is_err());
}

#[test]
fn unicode_blank_is_whitespace() {
    assert_eq!(kinds("a\u{00A0}b"), vec![TokenKind::IDENTIFIER, TokenKind::IDENTIFIER, TokenKind::EOF]);
}
