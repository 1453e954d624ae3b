use lia::ast::{LiaExpr, LiaOp, LiaStmt};
use lia::lexer::{lex, Keyword, LexError, TokenKind};
use lia::parser::{chars_of, parse_program, ParseError};

fn kinds(src: &str) -> Vec<TokenKind> {
    lex(&chars_of(src)).unwrap().iter().map(|t| t.kind).collect()
}

#[test]
fn lexes_keywords_names_and_operators() {
    assert_eq!(
        kinds("var x == y = 12;"),
        vec![
            TokenKind::Keyword(Keyword::Var),
            TokenKind::Ident,
            TokenKind::EqEq,
            TokenKind::Ident,
            TokenKind::Assign,
            TokenKind::Int,
            TokenKind::Semi,
        ]
    );
    assert_eq!(
        kinds("functions function"),
        vec![TokenKind::Ident, TokenKind::Keyword(Keyword::Function)]
    );
}

#[test]
fn lexes_strings_and_extern_names_by_span() {
    let toks = lex(&chars_of("\"ab c\" @f(1)")).unwrap();
    assert_eq!(toks[0].kind, TokenKind::Str);
    assert_eq!((toks[0].start, toks[0].end), (1, 5));
    assert_eq!(toks[1].kind, TokenKind::Extern);
    assert_eq!((toks[1].start, toks[1].end), (8, 9));
    assert_eq!(toks.len(), 5);
}

#[test]
fn lex_errors_carry_positions() {
    assert_eq!(lex(&chars_of("x = \"abc")), Err(LexError::UnterminatedString(4)));
    assert_eq!(lex(&chars_of("x # y")), Err(LexError::InvalidChar(2)));
    assert_eq!(lex(&chars_of("@ x")), Err(LexError::InvalidChar(1)));
    assert_eq!(lex(&chars_of("")), Ok(vec![]));
}

#[test]
fn binary_operators_follow_precedence_and_associate_left() {
    let fns = parse_program("function f() { return 1 - 2 - 3 * 4 < 5; }").unwrap();
    match &fns[0].body[0] {
        LiaStmt::Return(LiaExpr::BinOp(LiaOp::Lt, l, _)) => match &**l {
            LiaExpr::BinOp(LiaOp::Sub, ll, lr) => {
                assert!(matches!(&**ll, LiaExpr::BinOp(LiaOp::Sub, _, _)));
                assert!(matches!(&**lr, LiaExpr::BinOp(LiaOp::Mul, _, _)));
            },
            _ => panic!("wrong tree"),
        },
        _ => panic!("wrong tree"),
    }
}

#[test]
fn declaration_with_value_gives_two_statements() {
    let fns = parse_program("function f(a, b) { var x = a; }").unwrap();
    assert_eq!(fns[0].name.as_str(), "f");
    assert_eq!(fns[0].args.len(), 2);
    assert_eq!(fns[0].body.len(), 2);
    assert!(matches!(&fns[0].body[0], LiaStmt::Declare(_)));
    assert!(matches!(&fns[0].body[1], LiaStmt::Assign(LiaExpr::Var(_), LiaExpr::Var(_))));
}

#[test]
fn three_part_for_becomes_init_and_loop() {
    let fns = parse_program("function f() { for (var i = 0; i < 3; i = i + 1) { g(i); } }").unwrap();
    let body = &fns[0].body;
    assert_eq!(body.len(), 3);
    match &body[2] {
        LiaStmt::While(_, inner) => assert_eq!(inner.len(), 2),
        _ => panic!("wrong tree"),
    }
}

#[test]
fn bare_and_quoted_object_keys_are_strings() {
    let fns = parse_program("function f() { return {a: 1, \"b\": true}; }").unwrap();
    match &fns[0].body[0] {
        LiaStmt::Return(LiaExpr::Object(entries)) => {
            assert_eq!(entries.len(), 2);
            assert!(matches!(&entries[0].0, LiaExpr::String(s) if s == "a"));
            assert!(matches!(&entries[1].0, LiaExpr::String(s) if s == "b"));
            assert!(matches!(&entries[1].1, LiaExpr::Bool(true)));
        },
        _ => panic!("wrong tree"),
    }
}

#[test]
fn else_if_chains_nest() {
    let fns =
        parse_program("function f(x) { if (x) { return 1; } else if (x) { return 2; } else { return 3; } }")
            .unwrap();
    match &fns[0].body[0] {
        LiaStmt::If(_, _, Some(else_)) => {
            assert!(matches!(&else_[0], LiaStmt::If(_, _, Some(_))));
        },
        _ => panic!("wrong tree"),
    }
}

#[test]
fn parse_errors() {
    assert_eq!(parse_program("function f() { return 1 }").err(), Some(ParseError::Unexpected(7)));
    assert_eq!(parse_program("function f() {").err(), Some(ParseError::UnexpectedEnd));
    assert_eq!(parse_program("function f() { return 99999999999; }").err(), Some(ParseError::IntTooLarge(6)));
    assert_eq!(parse_program("function f() { return \"x; }").err(), Some(ParseError::Lex(LexError::UnterminatedString(22))));
    assert_eq!(parse_program("var x;").err(), Some(ParseError::Unexpected(0)));
}

#[test]
fn array_literals_and_indexing_parse() {
    let fns = parse_program("function f() { return [1, 2][0]; }").unwrap();
    match &fns[0].body[0] {
        LiaStmt::Return(LiaExpr::Index(b, k)) => {
            assert!(matches!(&**b, LiaExpr::Array(items) if items.len() == 2));
            assert!(matches!(&**k, LiaExpr::Integer(0)));
        },
        _ => panic!("wrong tree"),
    }
}
