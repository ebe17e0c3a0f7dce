use swift_front::ast::{Expr, Stmt, Type};
use swift_front::expressions::{number_literal, parse_expr, parse_primary_expr};
use swift_front::frontend::{parse_source, SourceError};
use swift_front::lexer::tokenize;
use swift_front::lookup::{
    register_lookups, register_types_lookup, Lookups, NudHandler, StmtHandler, TypeHandler,
    TypeLookups, ADDITIVE, MULTIPLICATIVE, PRIMARY,
};
use swift_front::parser::{ParseError, Parser};
use swift_front::statements::{parse, parse_with};
use swift_front::token::{Token, TokenKind};
use swift_front::types::{parse_named_type, parse_type};

fn parser(src: &str) -> Parser<'static> {
    let lookups: &'static Lookups = Box::leak(Box::new(register_lookups()));
    let types: &'static TypeLookups = Box::leak(Box::new(register_types_lookup()));
    Parser::new(tokenize(src, "t.swift").unwrap(), lookups, types)
}

fn body(src: &str) -> Vec<Stmt> {
    match parse_source(src, "t.swift").unwrap() {
        Stmt::BlockStmt { body } => body,
        other => panic!("not a block: {:?}", other),
    }
}

fn only_expr(src: &str) -> Expr {
    let mut b = body(src);
    assert_eq!(b.len(), 1);
    match b.remove(0) {
        Stmt::ExpressionStmt { expression } => *expression,
        other => panic!("not an expression statement: {:?}", other),
    }
}

fn parse_error(src: &str) -> ParseError {
    match parse_source(src, "t.swift") {
        Err(SourceError::Parse(e)) => e,
        other => panic!("expected a parse error: {:?}", other),
    }
}

fn type_of(src: &str) -> Result<Type, ParseError> {
    parse_type(&mut parser(src))
}

/// Renders an expression as a parenthesized string, to compare shapes.
fn shape(e: &Expr) -> String {
    match e {
        Expr::Empty => "_".to_string(),
        Expr::FloatExpr { value } => format!("f{}", value),
        Expr::IntegerExpr { value } => format!("{}", value),
        Expr::StringExpr { value } => format!("{:?}", value),
        Expr::SymbolExpr { value } => value.clone(),
        Expr::BinaryExpr { left, operator, right } => {
            format!("({} {} {})", shape(left), operator.value, shape(right))
        }
        Expr::PrefixExpr { operator, right } => format!("({}{})", operator.value, shape(right)),
        Expr::ArrayLiteralExpr { contents } => {
            format!("[{}]", contents.iter().map(shape).collect::<Vec<_>>().join(", "))
        }
    }
}

fn type_shape(t: &Type) -> String {
    match t {
        Type::Unknown => "?".to_string(),
        Type::SymbolType { modifier: Some(m), value } => format!("{} {}", m, value),
        Type::SymbolType { modifier: None, value } => value.clone(),
        Type::ListType { underlying } => format!("[{}]", type_shape(underlying)),
        Type::DictType { key, value } => format!("[{}: {}]", type_shape(key), type_shape(value)),
        Type::TupleType { values } => {
            format!("({})", values.iter().map(type_shape).collect::<Vec<_>>().join(", "))
        }
        Type::NamedType { name, explicit_type } => format!("{}= {}", name, type_shape(explicit_type)),
        Type::GenericType { generics, name } => {
            format!("{}<{}>", name, generics.iter().map(type_shape).collect::<Vec<_>>().join(", "))
        }
    }
}

#[test]
fn single_integer_literal() {
    match only_expr("42") {
        Expr::IntegerExpr { value } => assert_eq!(value, 42),
        other => panic!("{:?}", other),
    }
}

#[test]
fn single_decimal_literal() {
    match only_expr("3.25") {
        Expr::FloatExpr { value } => {
            assert_eq!(value, "3.25");
            assert_eq!(value.parse::<f64>().unwrap(), 3.25f64);
        }
        other => panic!("{:?}", other),
    }
}

#[test]
fn integer_too_large_for_i64_reads_as_decimal() {
    assert_eq!(shape(&only_expr("9223372036854775807")), "9223372036854775807");
    assert_eq!(shape(&only_expr("9223372036854775808")), "f9223372036854775808");
}

#[test]
fn number_literal_texts() {
    assert!(matches!(number_literal("007"), Some(Expr::IntegerExpr { value: 7 })));
    assert!(matches!(number_literal("1.5"), Some(Expr::FloatExpr { .. })));
    assert!(number_literal("1e5").is_none());
    assert!(number_literal(".5").is_none());
    assert!(number_literal("1.").is_none());
    assert!(number_literal("").is_none());
}

#[test]
fn var_declaration_infers_int() {
    let b = body("var x = 5");
    assert_eq!(b.len(), 1);
    match &b[0] {
        Stmt::VarDeclarationStmt { modifiers, identifier, constant, assigned_value, explicit_type } => {
            assert!(modifiers.is_empty());
            assert_eq!(identifier, "x");
            assert!(!constant);
            assert!(matches!(**assigned_value, Expr::IntegerExpr { value: 5 }));
            assert_eq!(type_shape(explicit_type), "Int");
        }
        other => panic!("{:?}", other),
    }
}

#[test]
fn let_with_explicit_type_has_no_initializer() {
    let b = body("let x: String");
    match &b[0] {
        Stmt::VarDeclarationStmt { identifier, constant, assigned_value, explicit_type, .. } => {
            assert_eq!(identifier, "x");
            assert!(constant);
            assert!(matches!(**assigned_value, Expr::Empty));
            assert!(matches!(
                &**explicit_type,
                Type::SymbolType { modifier: None, value } if value == "String"
            ));
        }
        other => panic!("{:?}", other),
    }
}

#[test]
fn declaration_types_from_initializers() {
    let b = body("let a = 1.5\nlet s = \"hi\"\nlet y = a;\nlet z = [1]\nvar w");
    let types: Vec<String> = b
        .iter()
        .map(|s| match s {
            Stmt::VarDeclarationStmt { explicit_type, .. } => type_shape(explicit_type),
            other => panic!("{:?}", other),
        })
        .collect();
    assert_eq!(types, vec!["Double", "String", "a", "?", "?"]);
}

#[test]
fn modifiers_attach_to_declarations() {
    let b = body("public static var x = 1\nfinal let y = 2; private z");
    assert_eq!(b.len(), 3);
    match &b[0] {
        Stmt::VarDeclarationStmt { modifiers, .. } => assert_eq!(modifiers, &vec!["public", "static"]),
        other => panic!("{:?}", other),
    }
    match &b[1] {
        Stmt::VarDeclarationStmt { modifiers, constant, .. } => {
            assert_eq!(modifiers, &vec!["final"]);
            assert!(constant);
        }
        other => panic!("{:?}", other),
    }
    assert!(matches!(&b[2], Stmt::ExpressionStmt { .. }));
}

#[test]
fn semicolons_end_statements() {
    assert_eq!(body("var a = 1; var b = 2;").len(), 2);
    assert_eq!(body("").len(), 0);
}

#[test]
fn tighter_operator_groups_first() {
    assert_eq!(shape(&only_expr("a * b + c")), "((a * b) + c)");
    assert_eq!(shape(&only_expr("a + b * c")), "(a + (b * c))");
    assert_eq!(shape(&only_expr("a == b && c < d")), "((a == b) && (c < d))");
}

#[test]
fn equal_operators_associate_left() {
    assert_eq!(shape(&only_expr("a - b - c")), "((a - b) - c)");
    assert_eq!(shape(&only_expr("a % b * c")), "((a % b) * c)");
}

#[test]
fn prefix_groups_and_arrays() {
    assert_eq!(shape(&only_expr("-x * y")), "((-x) * y)");
    assert_eq!(shape(&only_expr("!(a || b)")), "(!(a || b))");
    assert_eq!(shape(&only_expr("(a + b) * c")), "((a + b) * c)");
    assert_eq!(shape(&only_expr("[1, \"s\", x + 1]")), "[1, \"s\", (x + 1)]");
    assert_eq!(shape(&only_expr("[]")), "[]");
}

#[test]
fn dangling_operator_is_an_error() {
    assert_eq!(parse_error("1 +"), ParseError::MissingPrefix { kind: TokenKind::EOF, pos: 2 });
}

#[test]
fn missing_infix_handler_is_an_error() {
    assert_eq!(
        parse_error("x y"),
        ParseError::MissingInfix { kind: TokenKind::IDENTIFIER, pos: 1 }
    );
}

#[test]
fn expected_token_errors() {
    assert_eq!(
        parse_error("var 5"),
        ParseError::Expected { expected: TokenKind::IDENTIFIER, found: TokenKind::NUMBER, pos: 1 }
    );
    assert_eq!(
        parse_error("(a"),
        ParseError::Expected { expected: TokenKind::CLOSE_PAREN, found: TokenKind::EOF, pos: 2 }
    );
    assert_eq!(
        parse_error("[a b"),
        ParseError::MissingInfix { kind: TokenKind::IDENTIFIER, pos: 2 }
    );
    assert_eq!(
        parse_error("[a;"),
        ParseError::Expected { expected: TokenKind::CLOSE_BRACKET, found: TokenKind::SEMI_COLON, pos: 2 }
    );
}

#[test]
fn malformed_number_token_is_an_error() {
    let tokens = vec![
        Token::new(TokenKind::NUMBER, "1e5".to_string(), String::new(), 1, 1),
        Token::new(TokenKind::EOF, String::new(), String::new(), 1, 4),
    ];
    assert!(matches!(parse(tokens), Err(ParseError::MalformedNumber { pos: 0 })));
}

#[test]
fn primary_handler_rejects_other_tokens() {
    let mut p = parser(",");
    assert_eq!(
        parse_primary_expr(&mut p).unwrap_err(),
        ParseError::UnexpectedToken { found: TokenKind::COMMA, pos: 0 }
    );
}

#[test]
fn parse_expr_respects_starting_power() {
    let mut p = parser("a + b * c");
    let e = parse_expr(&mut p, ADDITIVE).unwrap();
    assert_eq!(shape(&e), "a");
    assert_eq!(p.current_token().kind, TokenKind::PLUS);
}

#[test]
fn bracket_types() {
    assert_eq!(type_shape(&type_of("[Int]").unwrap()), "[Int]");
    assert_eq!(type_shape(&type_of("[Int: String]").unwrap()), "[Int: String]");
    assert_eq!(
        type_of("[Int:").unwrap_err(),
        ParseError::MissingPrefix { kind: TokenKind::EOF, pos: 3 }
    );
    assert_eq!(
        type_of("[Int;").unwrap_err(),
        ParseError::UnexpectedToken { found: TokenKind::SEMI_COLON, pos: 2 }
    );
}

#[test]
fn tuple_types() {
    assert!(matches!(
        type_of("(Int)").unwrap(),
        Type::SymbolType { modifier: None, value } if value == "Int"
    ));
    assert_eq!(type_shape(&type_of("(Int, String)").unwrap()), "(0= Int, 1= String)");
    assert_eq!(type_shape(&type_of("(a: Int, b: [Int])").unwrap()), "(a= Int, b= [Int])");
    assert_eq!(type_shape(&type_of("([Int])").unwrap()), "[Int]");
    assert_eq!(type_shape(&type_of("(Int, (A, B))").unwrap()), "(0= Int, 1= (0= A, 1= B))");
}

#[test]
fn tuple_type_errors() {
    assert_eq!(type_of("(a b)").unwrap_err(), ParseError::DoubleLabel { pos: 1 });
    assert_eq!(type_of("(Int String)").unwrap_err(), ParseError::DoubleLabel { pos: 1 });
    assert_eq!(
        type_of("([Int] String)").unwrap_err(),
        ParseError::MissingInfix { kind: TokenKind::IDENTIFIER, pos: 4 }
    );
    assert_eq!(
        type_of("(Int, String]").unwrap_err(),
        ParseError::UnexpectedToken { found: TokenKind::CLOSE_BRACKET, pos: 4 }
    );
}

#[test]
fn generic_types() {
    assert_eq!(type_shape(&type_of("Array<Int>").unwrap()), "Array<Int>");
    assert_eq!(type_shape(&type_of("Dictionary<String, [Int]>").unwrap()), "Dictionary<String, [Int]>");
    assert_eq!(
        type_of("Array<Int").unwrap_err(),
        ParseError::Expected { expected: TokenKind::GREATER, found: TokenKind::EOF, pos: 3 }
    );
}

#[test]
fn prefixed_types() {
    assert_eq!(type_shape(&type_of("any Proto").unwrap()), "any Proto");
    assert_eq!(type_shape(&type_of("some View").unwrap()), "some View");
    assert_eq!(type_of("any any P").unwrap_err(), ParseError::DoublePrefix { pos: 0 });
    assert_eq!(type_of("some [Int]").unwrap_err(), ParseError::PrefixNeedsSymbol { pos: 0 });
}

#[test]
fn named_type_with_default_label() {
    let mut p = parser("Int)");
    assert_eq!(type_shape(&parse_named_type(&mut p, "7").unwrap()), "7= Int");
    let mut p = parser("Int;");
    assert_eq!(
        parse_named_type(&mut p, "0").unwrap_err(),
        ParseError::UnexpectedToken { found: TokenKind::SEMI_COLON, pos: 1 }
    );
}

#[test]
fn annotated_declaration_uses_type_grammar() {
    let b = body("var m: [String: Int] = x");
    match &b[0] {
        Stmt::VarDeclarationStmt { explicit_type, assigned_value, .. } => {
            assert_eq!(type_shape(explicit_type), "[String: Int]");
            assert_eq!(shape(assigned_value), "x");
        }
        other => panic!("{:?}", other),
    }
}

#[test]
fn parser_cursor_methods() {
    let mut p = parser("a : b");
    assert!(p.has_tokens());
    assert_eq!(p.current_token().value, "a");
    assert_eq!(p.next_token().kind, TokenKind::COLON);
    assert!(p.has_pattern(&[TokenKind::ANYTHING, TokenKind::COLON]));
    assert!(!p.has_pattern(&[TokenKind::IDENTIFIER, TokenKind::IDENTIFIER]));
    assert!(!p.has_pattern(&[
        TokenKind::ANYTHING,
        TokenKind::COLON,
        TokenKind::IDENTIFIER,
        TokenKind::EOF,
        TokenKind::EOF
    ]));
    assert_eq!(p.advance().value, "a");
    assert_eq!(p.previous_token().value, "a");
    assert_eq!(
        p.expect(TokenKind::IDENTIFIER).unwrap_err(),
        ParseError::Expected { expected: TokenKind::IDENTIFIER, found: TokenKind::COLON, pos: 1 }
    );
    assert_eq!(p.expect(TokenKind::COLON).unwrap().kind, TokenKind::COLON);
    p.go_back();
    assert_eq!(p.current_token().kind, TokenKind::COLON);
    p.advance();
    p.advance();
    assert!(!p.has_tokens());
    assert_eq!(p.current_token().kind, TokenKind::EOF);
}

#[test]
fn keyword_can_be_a_tuple_label() {
    let mut p = parser("in: Int");
    assert!(p.has_pattern(&[TokenKind::ANYTHING, TokenKind::COLON]));
    assert_eq!(type_shape(&parse_named_type(&mut p, "0").unwrap()), "in= Int");
}

#[test]
fn standard_registries() {
    let l = register_lookups();
    assert_eq!(l.bp(TokenKind::STAR), Some(MULTIPLICATIVE));
    assert_eq!(l.bp(TokenKind::MINUS), Some(ADDITIVE));
    assert_eq!(l.nud(TokenKind::MINUS), Some(NudHandler::Prefix));
    assert_eq!(l.stmt(TokenKind::FINAL), Some(StmtHandler::Modifiers));
    assert_eq!(l.stmt(TokenKind::LET), Some(StmtHandler::VarDecl));
    assert_eq!(l.led(TokenKind::COMMA), None);
    assert_eq!(l.nud(TokenKind::EOF), None);
    let t = register_types_lookup();
    assert_eq!(t.nud(TokenKind::OPEN_PAREN), Some(TypeHandler::Tuple));
    assert_eq!(t.bp(TokenKind::IDENTIFIER), Some(PRIMARY));
    let empty = Lookups::new();
    assert_eq!(empty.bp(TokenKind::STAR), None);
}

#[test]
fn lex_errors_come_through_parse_source() {
    assert!(matches!(parse_source("var $", "t.swift"), Err(SourceError::Lex(_))));
}

#[test]
fn shared_registries_serve_many_parses() {
    let lookups = register_lookups();
    let types = register_types_lookup();
    for src in ["var a = 1", "let b: [Int]", "c * 2"] {
        let r = parse_with(tokenize(src, "t.swift").unwrap(), &lookups, &types).unwrap();
        assert!(matches!(r, Stmt::BlockStmt { ref body } if body.len() == 1));
    }
}

#[test]
fn labeled_single_element_is_a_tuple() {
    assert_eq!(type_shape(&type_of("(a: Int)").unwrap()), "(a= Int)");
    assert!(matches!(type_of("(a: Int)").unwrap(), Type::TupleType { ref values } if values.len() == 1));
}

#[test]
fn generic_types_are_tuple_entries() {
    assert_eq!(type_shape(&type_of("(Array<Int>)").unwrap()), "Array<Int>");
    assert_eq!(
        type_shape(&type_of("(Array<Int>, String)").unwrap()),
        "(0= Array<Int>, 1= String)"
    );
}

#[test]
fn advance_and_expect_step_one_token() {
    let mut p = parser("a b");
    assert_eq!(p.advance().value, "a");
    assert_eq!(p.pos, 1);
    assert_eq!(p.expect(TokenKind::IDENTIFIER).unwrap().value, "b");
    assert_eq!(p.pos, 2);
    assert_eq!(
        p.expect(TokenKind::IDENTIFIER).unwrap_err(),
        ParseError::Expected { expected: TokenKind::IDENTIFIER, found: TokenKind::EOF, pos: 2 }
    );
    assert_eq!(p.pos, 2);
}
