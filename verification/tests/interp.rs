use p1::lexer::WonLexer;
use p1::parser::{ParserError, WonParser};
use p1::statement::{Expression, ExpressionContext, Statement, StorageKind};
use p1::token::{Span, SpanContainer, Token, TokenKind};
use p1::won_token::WonTokenKind;

#[test]
fn lexing_a_declaration() {
    let source = b"let x = 5;";
    let tokens = WonLexer::lex(source);
    let kinds: Vec<WonTokenKind> = tokens.iter().map(|t| t.kind).collect();
    assert_eq!(
        kinds,
        vec![
            WonTokenKind::Let,
            WonTokenKind::Identifier,
            WonTokenKind::Assign,
            WonTokenKind::Number,
            WonTokenKind::EndStatement,
        ]
    );
    assert_eq!(tokens[0].span.index, 0);
    assert_eq!(tokens[0].span.length, 3);
    assert_eq!(tokens[1].span.index, 4);
    assert_eq!(tokens[1].span.length, 1);
    assert_eq!(tokens[1].span.get_value(), Some("x"));
    assert_eq!(tokens[3].span.get_value(), Some("5"));
    assert_eq!(tokens[4].span.index, 9);
}

#[test]
fn lexing_keywords_and_identifiers() {
    let tokens = WonLexer::lex(b"const as false true truth constant");
    let kinds: Vec<WonTokenKind> = tokens.iter().map(|t| t.kind).collect();
    assert_eq!(
        kinds,
        vec![
            WonTokenKind::Const,
            WonTokenKind::As,
            WonTokenKind::False,
            WonTokenKind::True,
            WonTokenKind::Identifier,
            WonTokenKind::Identifier,
        ]
    );
}

#[test]
fn lexing_counts_lines() {
    let tokens = WonLexer::lex(b"a\nb\n\nc");
    assert_eq!(tokens[0].span.line, 1);
    assert_eq!(tokens[1].span.line, 2);
    assert_eq!(tokens[2].span.line, 4);
}

#[test]
fn lexing_numbers_with_separators() {
    let tokens = WonLexer::lex(b"1_000 25");
    assert_eq!(tokens[0].kind, WonTokenKind::Number);
    assert_eq!(tokens[0].span.length, 5);
    assert_eq!(tokens[1].kind, WonTokenKind::Number);
    assert_eq!(tokens[1].span.index, 6);
}

#[test]
fn lexing_skips_control_bytes() {
    let tokens = WonLexer::lex(b"\x01x\x7f");
    assert_eq!(tokens.len(), 1);
    assert_eq!(tokens[0].kind, WonTokenKind::Identifier);
}

#[test]
fn token_kinds_report_their_family() {
    assert_eq!(WonTokenKind::Let.get_meta(), "keyword");
    assert_eq!(WonTokenKind::Number.get_meta(), "literal");
    assert_eq!(WonTokenKind::GroupEnd.get_meta(), "symbol");
    assert_eq!(WonTokenKind::Assign.get_meta(), "operator");
}

#[test]
fn parsing_a_let_declaration() {
    let source = b"let x = 5;";
    let statements = WonParser::parse(WonLexer::lex(source)).unwrap();
    // the terminator is not consumed by a plain expression, so it parses as
    // a trailing statement of its own
    assert_eq!(statements.len(), 2);
    assert!(matches!(statements[1], Statement::Trail));
    match &statements[0] {
        Statement::Assignement {
            storage,
            identifier,
            ty,
            expression,
        } => {
            assert!(matches!(
                storage,
                Some(SpanContainer {
                    item: StorageKind::Simple,
                    ..
                })
            ));
            assert_eq!(identifier.get_value(), Some("x"));
            assert!(ty.is_none());
            assert!(matches!(
                expression,
                Some(SpanContainer {
                    item: Expression::Literal(_),
                    ..
                })
            ));
        }
        other => panic!("expected an assignment, got {:?}", other),
    }
}

#[test]
fn parsing_a_typed_const_declaration() {
    let statements = WonParser::parse(WonLexer::lex(b"const flag: bool;")).unwrap();
    assert_eq!(statements.len(), 1);
    match &statements[0] {
        Statement::Assignement {
            storage,
            identifier,
            ty,
            expression,
        } => {
            assert!(matches!(
                storage,
                Some(SpanContainer {
                    item: StorageKind::Constant,
                    ..
                })
            ));
            assert_eq!(identifier.get_value(), Some("flag"));
            assert_eq!(ty.unwrap().get_value(), Some("bool"));
            assert!(expression.is_none());
        }
        other => panic!("expected an assignment, got {:?}", other),
    }
}

#[test]
fn parsing_a_function_call() {
    let statements = WonParser::parse(WonLexer::lex(b"print(test, test2, test3);")).unwrap();
    assert_eq!(statements.len(), 1);
    match &statements[0] {
        Statement::Expression(SpanContainer {
            item: Expression::FunctionCall { items, .. },
            ..
        }) => {
            assert_eq!(items.len(), 3);
        }
        other => panic!("expected a function call, got {:?}", other),
    }
}

#[test]
fn parsing_a_cast_expression() {
    let statements = WonParser::parse(WonLexer::lex(b"let y = 2 as u32;")).unwrap();
    match &statements[0] {
        Statement::Assignement {
            expression: Some(sc),
            ..
        } => {
            match &sc.item {
                Expression::PrimitiveCast { ty, .. } => {
                    assert_eq!(ty.get_value(), Some("u32"));
                }
                other => panic!("expected a cast, got {:?}", other),
            }
        }
        other => panic!("expected an assignment, got {:?}", other),
    }
}

#[test]
fn parsing_trailing_terminators() {
    let statements = WonParser::parse(WonLexer::lex(b";;;")).unwrap();
    assert_eq!(statements.len(), 3);
    assert!(statements.iter().all(|s| matches!(s, Statement::Trail)));
}

#[test]
fn parsing_rejects_a_stray_number_binding() {
    let result = WonParser::parse(WonLexer::lex(b"let 5 = 3;"));
    assert!(matches!(
        result,
        Err(ParserError::UnexpectedToken(
            WonTokenKind::Number,
            WonTokenKind::Identifier
        ))
    ));
}

#[test]
fn parsing_rejects_a_token_that_starts_no_statement() {
    let result = WonParser::parse(WonLexer::lex(b"= 5;"));
    assert!(matches!(
        result,
        Err(ParserError::ExpectedStatement(WonTokenKind::Assign))
    ));
}

#[test]
fn parsing_reports_truncated_input() {
    let result = WonParser::parse(WonLexer::lex(b"let x ="));
    assert!(matches!(result, Err(ParserError::UnexpectedEOF)));
}

#[test]
fn expression_contexts_decide_their_terminators() {
    assert!(ExpressionContext::Simple.should_break(&WonTokenKind::EndStatement));
    assert!(!ExpressionContext::Simple.should_break(&WonTokenKind::GroupEnd));
    assert!(ExpressionContext::InnerGroup.should_break(&WonTokenKind::GroupEnd));
    assert!(ExpressionContext::Pack.should_break(&WonTokenKind::GroupEnd));
    assert!(ExpressionContext::Pack.should_break(&WonTokenKind::ItemSeparator));
    assert!(!ExpressionContext::Pack.should_break(&WonTokenKind::EndStatement));
}

#[test]
fn spans_cover_their_source_region() {
    let source = b"hello world";
    let span = Span::new(source, 6, 5, 1);
    assert_eq!(span.end(), 11);
    assert_eq!(span.get_value(), Some("world"));
    let start = Span::new(source, 0, 5, 1);
    let joined = Span::from(&start, &span);
    assert_eq!(joined.index, 0);
    assert_eq!(joined.length, 11);
    assert_eq!(joined.get_value(), Some("hello world"));
}

#[test]
fn span_containers_keep_their_region() {
    let source = b"let";
    let tokens = WonLexer::lex(source);
    let token = Token {
        kind: tokens[0].kind,
        span: tokens[0].span,
    };
    let container = SpanContainer::from_token(token, 7u32);
    assert_eq!(container.span.index, 0);
    assert_eq!(container.item, 7);
    let boxed = container.boxed();
    assert_eq!(*boxed.item, 7);
    let mapped = boxed.map(|v| *v + 1);
    assert_eq!(mapped.item, 8);
    assert_eq!(mapped.span.length, 3);
}

#[test]
fn diagnostics_begin_with_their_severity_and_locator() {
    let source = b"let x = 5;\nlet y = 6;";
    // the region is `y`, at byte 15, column 4 of line 2
    let span = Span::new(source, 15, 1, 2);
    let log = span.get_log("main.won", "something odd", 1, false);
    assert!(log.starts_with(
        "\x1b[1m\x1b[91merror\x1b[97m: something odd\x1b[0m\n\x1b[96m --> \x1b[0mmain.won:2:4\n"
    ));
    let warn = span.get_log("main.won", "just a nudge", 1, true);
    assert!(warn.starts_with("\x1b[1m\x1b[93mwarning\x1b[97m: just a nudge\x1b[0m\n"));
    assert!(warn.contains("main.won:2:4"));
    assert!(warn.contains("let y = 6;"));
    assert!(warn.contains("^"));
}
