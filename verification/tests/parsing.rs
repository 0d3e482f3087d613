use gamma_parser::ast::{Expression, Span, Statement};
use gamma_parser::diagnostic::Level;
use gamma_parser::lexer::RawToken;
use gamma_parser::parser::Parser;

fn sp(start: usize, end: usize) -> Span {
    Span { start, end }
}

fn var(name: &str, start: usize, end: usize) -> Expression {
    Expression::Var { name: name.as_bytes().to_vec(), name_span: sp(start, end) }
}

#[test]
fn let_id() {
    let mut parser = Parser::new("let a = x;", "<stdin>");
    assert_eq!(
        parser.parse()[0],
        Statement::Let {
            name: b"a".to_vec(),
            name_span: sp(4, 5),
            expression: var("x", 8, 9),
            expression_span: sp(8, 9),
            span: sp(0, 10),
        }
    );
}

#[test]
fn let_lambda() {
    let mut parser = Parser::new("let a = \\x => x;", "<stdin>");
    assert_eq!(
        parser.parse()[0],
        Statement::Let {
            name: b"a".to_vec(),
            name_span: sp(4, 5),
            expression: Expression::Abstraction {
                name: b"x".to_vec(),
                name_span: sp(9, 10),
                expression: Box::new(var("x", 14, 15)),
                expression_span: sp(14, 15),
            },
            expression_span: sp(8, 15),
            span: sp(0, 16),
        }
    );
}

#[test]
fn application_is_left_associative() {
    let mut parser = Parser::new("f x y z;", "<stdin>");
    let ast = parser.parse();
    assert!(parser.diagnostics.is_empty());
    assert_eq!(
        ast[0],
        Statement::Expression {
            expression: Expression::Apply {
                lhs: Box::new(Expression::Apply {
                    lhs: Box::new(Expression::Apply {
                        lhs: Box::new(var("f", 0, 1)),
                        lhs_span: sp(0, 1),
                        rhs: Box::new(var("x", 2, 3)),
                        rhs_span: sp(2, 3),
                    }),
                    lhs_span: sp(0, 3),
                    rhs: Box::new(var("y", 4, 5)),
                    rhs_span: sp(4, 5),
                }),
                lhs_span: sp(0, 5),
                rhs: Box::new(var("z", 6, 7)),
                rhs_span: sp(6, 7),
            },
            expression_span: sp(0, 7),
            span: sp(0, 8),
        }
    );
}

#[test]
fn single_atom_is_never_wrapped() {
    let mut parser = Parser::new("x;", "<stdin>");
    let ast = parser.parse();
    assert_eq!(
        ast[0],
        Statement::Expression {
            expression: var("x", 0, 1),
            expression_span: sp(0, 1),
            span: sp(0, 2),
        }
    );
}

#[test]
fn two_atom_application() {
    let mut parser = Parser::new("f x;", "<stdin>");
    let ast = parser.parse();
    assert_eq!(
        ast[0],
        Statement::Expression {
            expression: Expression::Apply {
                lhs: Box::new(var("f", 0, 1)),
                lhs_span: sp(0, 1),
                rhs: Box::new(var("x", 2, 3)),
                rhs_span: sp(2, 3),
            },
            expression_span: sp(0, 3),
            span: sp(0, 4),
        }
    );
}

#[test]
fn abstraction_with_period_warns_and_succeeds() {
    let mut parser = Parser::new("\\x . x;", "<stdin>");
    let ast = parser.parse();
    assert_eq!(
        ast[0],
        Statement::Expression {
            expression: Expression::Abstraction {
                name: b"x".to_vec(),
                name_span: sp(1, 2),
                expression: Box::new(var("x", 5, 6)),
                expression_span: sp(5, 6),
            },
            expression_span: sp(0, 6),
            span: sp(0, 7),
        }
    );
    assert_eq!(parser.diagnostics.len(), 1);
    let warning = &parser.diagnostics[0];
    assert_eq!(warning.level, Level::Warning);
    assert_eq!(warning.code, "W002".to_string());
    assert_eq!(warning.spans[0].span, sp(3, 4));
}

#[test]
fn abstraction_separators_build_the_same_shape() {
    let mut with_arrow = Parser::new("\\x => x;", "<stdin>");
    let mut with_period = Parser::new("\\x . x;", "<stdin>");
    let arrow_ast = with_arrow.parse();
    let period_ast = with_period.parse();
    assert!(with_arrow.diagnostics.is_empty());
    assert_eq!(with_period.diagnostics.len(), 1);
    let (arrow_name, arrow_body) = match &arrow_ast[0] {
        Statement::Expression {
            expression: Expression::Abstraction { name, expression, .. },
            ..
        } => (name.clone(), expression),
        other => panic!("not an abstraction: {:?}", other),
    };
    let (period_name, period_body) = match &period_ast[0] {
        Statement::Expression {
            expression: Expression::Abstraction { name, expression, .. },
            ..
        } => (name.clone(), expression),
        other => panic!("not an abstraction: {:?}", other),
    };
    assert_eq!(arrow_name, period_name);
    assert!(matches!(**arrow_body, Expression::Var { ref name, .. } if name == b"x"));
    assert!(matches!(**period_body, Expression::Var { ref name, .. } if name == b"x"));
}

#[test]
fn let_without_expression_fails_with_error_at_semicolon() {
    let mut parser = Parser::new("let a = ;", "<stdin>");
    let ast = parser.parse();
    assert!(ast.is_empty());
    assert!(!parser.diagnostics.is_empty());
    let error = &parser.diagnostics[0];
    assert_eq!(error.level, Level::Error);
    assert_eq!(error.code, "E001".to_string());
    assert_eq!(error.spans[0].span, sp(8, 9));
}

#[test]
fn empty_paren_is_rejected() {
    let mut parser = Parser::new("();", "<stdin>");
    let ast = parser.parse();
    assert!(ast.is_empty());
    assert!(!parser.diagnostics.is_empty());
    let error = &parser.diagnostics[0];
    assert_eq!(error.level, Level::Error);
    assert_eq!(error.code, "E001".to_string());
    assert_eq!(error.spans[0].span, sp(1, 2));
}

#[test]
fn paren_node_is_preserved() {
    let mut parser = Parser::new("(x);", "<stdin>");
    let ast = parser.parse();
    assert_eq!(
        ast[0],
        Statement::Expression {
            expression: Expression::Paren {
                expression: Box::new(var("x", 1, 2)),
                expression_span: sp(1, 2),
            },
            expression_span: sp(0, 3),
            span: sp(0, 4),
        }
    );
}

#[test]
fn missing_semicolon_is_anchored_at_last_token() {
    let mut parser = Parser::new("x", "<stdin>");
    let ast = parser.parse();
    assert!(ast.is_empty());
    assert_eq!(parser.diagnostics.len(), 1);
    let error = &parser.diagnostics[0];
    assert_eq!(error.level, Level::Error);
    assert_eq!(error.spans[0].span, sp(0, 1));
    assert_eq!(error.spans[0].label, "unexpected end of file/input".to_string());
}

#[test]
fn missing_semicolon_before_another_token_gets_the_help() {
    let mut parser = Parser::new("x $", "<stdin>");
    let ast = parser.parse();
    assert!(ast.is_empty());
    let error = &parser.diagnostics[0];
    assert_eq!(error.level, Level::Error);
    assert_eq!(error.spans[0].span, sp(2, 3));
    assert_eq!(
        error.spans[0].label,
        "help: consider adding ';' at the end of expression statement".to_string()
    );
}

#[test]
fn paren_at_end_of_input_fails() {
    let mut parser = Parser::new("(x)", "<stdin>");
    let ast = parser.parse();
    assert!(ast.is_empty());
    assert_eq!(parser.diagnostics.len(), 1);
    let error = &parser.diagnostics[0];
    assert_eq!(error.level, Level::Error);
    assert_eq!(error.spans[0].span, sp(2, 3));
    assert_eq!(error.spans[0].label, "unexpected end of file/input".to_string());
}

#[test]
fn parsing_goes_on_after_a_failed_statement() {
    let mut parser = Parser::new("= ; x;", "<stdin>");
    let ast = parser.parse();
    assert_eq!(ast.len(), 1);
    assert_eq!(
        ast[0],
        Statement::Expression {
            expression: var("x", 4, 5),
            expression_span: sp(4, 5),
            span: sp(4, 6),
        }
    );
    assert_eq!(parser.diagnostics.len(), 2);
}

#[test]
fn statements_keep_source_order() {
    let mut parser = Parser::new("x; let a = y; z;", "<stdin>");
    let ast = parser.parse();
    assert!(parser.diagnostics.is_empty());
    assert_eq!(ast.len(), 3);
    assert!(matches!(
        ast[0],
        Statement::Expression { expression: Expression::Var { ref name, .. }, .. } if name == b"x"
    ));
    assert!(matches!(ast[1], Statement::Let { ref name, .. } if name == b"a"));
    assert!(matches!(
        ast[2],
        Statement::Expression { expression: Expression::Var { ref name, .. }, .. } if name == b"z"
    ));
}

#[test]
fn error_tokens_are_rejected_by_the_parser() {
    let mut parser = Parser::new("#;", "<stdin>");
    let ast = parser.parse();
    assert!(ast.is_empty());
    assert!(!parser.diagnostics.is_empty());
    assert_eq!(parser.diagnostics[0].level, Level::Error);
    assert_eq!(parser.diagnostics[0].spans[0].span, sp(0, 1));
}

#[test]
fn greek_lambda_abstraction_uses_byte_offsets() {
    let mut parser = Parser::new("\u{03bb}x => y;", "<stdin>");
    let ast = parser.parse();
    assert_eq!(
        ast[0],
        Statement::Expression {
            expression: Expression::Abstraction {
                name: b"x".to_vec(),
                name_span: sp(2, 3),
                expression: Box::new(var("y", 7, 8)),
                expression_span: sp(7, 8),
            },
            expression_span: sp(0, 8),
            span: sp(0, 9),
        }
    );
}

#[test]
fn parse_statement_at_end_of_input_reports_eof() {
    let mut parser = Parser::new("", "<stdin>");
    assert!(parser.parse_statement().is_none());
    assert_eq!(parser.diagnostics.len(), 1);
    assert_eq!(parser.diagnostics[0].level, Level::Error);
    assert_eq!(parser.diagnostics[0].spans[0].span, sp(0, 1));
    assert_eq!(
        parser.diagnostics[0].spans[0].label,
        "unexpected end of file/input".to_string()
    );
}

#[test]
fn check_failures_carry_their_hints() {
    let mut missing_rparen = Parser::new("(x;", "<stdin>");
    missing_rparen.parse();
    assert_eq!(
        missing_rparen.diagnostics[0].spans[0].label,
        "help: consider adding ')' at the end of parenthesised expression".to_string()
    );

    let mut missing_argument = Parser::new("\\ => x;", "<stdin>");
    missing_argument.parse();
    assert_eq!(
        missing_argument.diagnostics[0].spans[0].label,
        "expected argument name".to_string()
    );

    let mut missing_arrow = Parser::new("\\x x;", "<stdin>");
    missing_arrow.parse();
    assert_eq!(
        missing_arrow.diagnostics[0].spans[0].label,
        "help: consider adding '=>'".to_string()
    );

    let mut missing_name = Parser::new("let = x;", "<stdin>");
    missing_name.parse();
    assert_eq!(
        missing_name.diagnostics[0].spans[0].label,
        "expected name of variable in the let statement".to_string()
    );

    let mut missing_assign = Parser::new("let a x;", "<stdin>");
    missing_assign.parse();
    assert_eq!(
        missing_assign.diagnostics[0].spans[0].label,
        "help: consider adding '=' in the let statement".to_string()
    );

    let mut missing_semicolon = Parser::new("let a = x $", "<stdin>");
    missing_semicolon.parse();
    assert_eq!(
        missing_semicolon.diagnostics[0].spans[0].label,
        "help: consider adding ';' at the end of the let statement".to_string()
    );
}

#[test]
fn check_token_consumes_only_on_failure() {
    let mut parser = Parser::new("; x", "<stdin>");
    assert!(!parser.check_token(RawToken::Identifier, "expected an identifier".to_string()));
    assert_eq!(parser.diagnostics.len(), 1);
    assert_eq!(parser.diagnostics[0].spans[0].span, sp(0, 1));
    assert!(parser.check_token(RawToken::Identifier, "expected an identifier".to_string()));
    assert!(parser.check_token(RawToken::Identifier, "expected an identifier".to_string()));
    assert_eq!(parser.diagnostics.len(), 1);
}
