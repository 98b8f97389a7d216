use lib::ast::{Expr, Stmt};
use lib::parser::Parser;
use lib::scanner::Scanner;
use lib::token::{LiteralType, Token, TokenType};

fn parse_source(source: &str) -> Result<Vec<Stmt>, Vec<String>> {
    let mut scanner = Scanner::new(source);
    let (tokens, errors) = scanner.scan_tokens();
    assert!(errors.is_empty());
    let mut parser = Parser::new(tokens.clone());
    assert!(parser.ready());
    parser.parse()
}

#[test]
fn test_expr_printing() {
    let op_minus = Token {
        ttype: TokenType::Minus,
        lexeme: "-".to_string(),
        literal: LiteralType::NoneValue,
        line: 1,
    };
    let expr_lit1 = Expr::Literal { value: LiteralType::NumberValue("123".to_string()) };
    let expr_unary = Expr::Unary { right: Box::new(expr_lit1), operator: op_minus };

    let op_star = Token {
        ttype: TokenType::Star,
        lexeme: "*".to_string(),
        literal: LiteralType::NoneValue,
        line: 1,
    };
    let expr_lit2 = Box::new(Expr::Literal { value: LiteralType::NumberValue("45.67".to_string()) });
    let expr_grouping = Expr::Grouping { expression: expr_lit2 };

    let expression = Expr::Binary {
        left: Box::new(expr_unary),
        right: Box::new(expr_grouping),
        operator: op_star,
    };

    assert_eq!(expression.to_string(), "(* (- 123) (group 45.67))");
}

#[test]
fn test_expr_parsing() {
    let mut scanner = Scanner::new("-123 * (45.67);");
    let (tokens, errors) = scanner.scan_tokens();

    assert!(errors.is_empty());

    let mut parser = Parser::new(tokens.clone());
    let ptree = parser.parse().unwrap();

    assert_eq!(ptree.len(), 1);

    if let Stmt::Expression { expression } = &ptree[0] {
        assert_eq!(expression.to_string(), "(* (- 123) (group 45.67))");
    } else {
        assert!(false);
    }
}

fn expression_text(stmt: &Stmt) -> String {
    match stmt {
        Stmt::Expression { expression } => expression.to_string(),
        _ => panic!("not an expression statement"),
    }
}

#[test]
fn precedence_and_associativity() {
    let stmts = parse_source("1 + 2 * 3 - 4 / 2 == !true or a and b;").unwrap();
    assert_eq!(
        expression_text(&stmts[0]),
        "(or (== (- (+ 1 (* 2 3)) (/ 4 2)) (! true)) (and var a var b))"
    );
}

#[test]
fn logical_operators_chain_to_the_left() {
    let stmts = parse_source("a or b or c; a and b and c; 1 - 2 - 3;").unwrap();
    assert_eq!(expression_text(&stmts[0]), "(or (or var a var b) var c)");
    assert_eq!(expression_text(&stmts[1]), "(and (and var a var b) var c)");
    assert_eq!(expression_text(&stmts[2]), "(- (- 1 2) 3)");
}

#[test]
fn invalid_assignment_target() {
    let errors = parse_source("1 = 2;").unwrap_err();
    assert_eq!(
        errors,
        vec![
            "[line 1] Error at '=': Invalid assignment target.".to_string(),
            "[line 1] Error at ';': Unexpected primary token Semicolon".to_string(),
        ]
    );
}

#[test]
fn assignment_call_and_property_forms() {
    let stmts = parse_source("a = f(1, \"x\", nil)(); o.p = o.q; super.m; this;").unwrap();
    assert_eq!(stmts.len(), 4);
    assert_eq!(expression_text(&stmts[0]), "a = var f(1, x, nil)()");
    assert_eq!(expression_text(&stmts[1]), "var o.p = var o.q");
    assert_eq!(expression_text(&stmts[2]), "super.m");
    assert_eq!(expression_text(&stmts[3]), "this");
}

#[test]
fn number_literals_print_without_needless_zeros() {
    let stmts = parse_source("007.50; 3.0; 0.25; 10;").unwrap();
    assert_eq!(expression_text(&stmts[0]), "7.5");
    assert_eq!(expression_text(&stmts[1]), "3");
    assert_eq!(expression_text(&stmts[2]), "0.25");
    assert_eq!(expression_text(&stmts[3]), "10");
}

#[test]
fn for_loop_becomes_block_with_while() {
    let stmts = parse_source("for (var i = 0; i < 3; i = i + 1) print i;").unwrap();
    assert_eq!(stmts.len(), 1);
    match &stmts[0] {
        Stmt::Block { statements } => {
            assert_eq!(statements.len(), 2);
            assert!(matches!(statements[0], Stmt::Var { .. }));
            match &statements[1] {
                Stmt::While { condition, increment, body } => {
                    assert_eq!(condition.to_string(), "(< var i 3)");
                    assert_eq!(increment.as_ref().unwrap().to_string(), "i = (+ var i 1)");
                    assert!(matches!(**body, Stmt::Print { .. }));
                },
                _ => panic!("expected a while loop"),
            }
        },
        _ => panic!("expected a block"),
    }
}

#[test]
fn for_loop_without_clauses_loops_on_true() {
    let stmts = parse_source("for (;;) break;").unwrap();
    match &stmts[0] {
        Stmt::While { condition, increment, .. } => {
            assert_eq!(condition.to_string(), "true");
            assert!(increment.is_none());
        },
        _ => panic!("expected a while loop"),
    }
}

#[test]
fn break_outside_loop_is_an_error() {
    let errors = parse_source("break;").unwrap_err();
    assert_eq!(errors, vec!["'break' outside loop.".to_string()]);
}

#[test]
fn every_failed_declaration_is_reported() {
    let errors = parse_source("var = 1;\nprint 2;\n1 +;").unwrap_err();
    assert_eq!(
        errors,
        vec![
            "[line 1] Error at '=': Expected variable name.".to_string(),
            "[line 1] Error at '=': Unexpected primary token Equal".to_string(),
            "[line 3] Error at ';': Unexpected primary token Semicolon".to_string(),
        ]
    );
}

#[test]
fn missing_semicolon_at_end() {
    let errors = parse_source("print 1").unwrap_err();
    assert_eq!(errors.len(), 1);
    assert_eq!(errors[0], "[line 1] Error at end: Expected ';' after value.");
}

#[test]
fn class_and_function_declarations() {
    let stmts = parse_source("class A < B { m(x, y) { return x; } } fun f() {}").unwrap();
    assert_eq!(stmts.len(), 2);
    match &stmts[0] {
        Stmt::Class { name, superclass, methods } => {
            assert_eq!(name.lexeme, "A");
            assert_eq!(superclass.as_ref().unwrap().to_string(), "var B");
            assert_eq!(methods.len(), 1);
            match &methods[0] {
                Stmt::Function { name, parameters, body } => {
                    assert_eq!(name.lexeme, "m");
                    assert_eq!(parameters.len(), 2);
                    assert_eq!(body.len(), 1);
                },
                _ => panic!("expected a method"),
            }
        },
        _ => panic!("expected a class"),
    }
    assert!(matches!(stmts[1], Stmt::Function { .. }));
}

#[test]
fn variable_expressions_get_distinct_ids() {
    let stmts = parse_source("a; b = a; c;").unwrap();
    let mut ids = vec![];
    for s in &stmts {
        if let Stmt::Expression { expression } = s {
            match &**expression {
                Expr::Variable { id, .. } => ids.push(*id),
                Expr::Assign { id, value, .. } => {
                    ids.push(*id);
                    if let Expr::Variable { id, .. } = &**value {
                        ids.push(*id);
                    }
                },
                _ => {},
            }
        }
    }
    assert_eq!(ids.len(), 4);
    let mut sorted = ids.clone();
    sorted.sort();
    sorted.dedup();
    assert_eq!(sorted.len(), 4);
}

#[test]
fn parser_without_end_token_is_not_ready() {
    let parser = Parser::new(vec![]);
    assert!(!parser.ready());
    let token = Token { ttype: TokenType::Eof, lexeme: String::new(), literal: LiteralType::NoneValue, line: 1 };
    let parser = Parser::new(vec![token]);
    assert!(parser.ready());
}

#[test]
fn token_and_literal_text() {
    let token = Token {
        ttype: TokenType::Number,
        lexeme: "1.50".to_string(),
        literal: LiteralType::NumberValue("1.50".to_string()),
        line: 3,
    };
    assert_eq!(token.to_string(), "Number 1.50 1.5");
    let token = Token { ttype: TokenType::Plus, lexeme: "+".to_string(), literal: LiteralType::NoneValue, line: 1 };
    assert_eq!(token.to_string(), "Plus +");
    assert_eq!(LiteralType::BoolValue(false).to_string(), "false");
    assert_eq!(LiteralType::NoneValue.to_string(), "");
}

#[test]
fn short_numbers_print_as_their_double() {
    for text in ["123456789012345", "0.00000000000001", "007.50", "3.0", "45.67", "0"] {
        let e = Expr::Literal { value: LiteralType::NumberValue(text.to_string()) };
        assert_eq!(e.to_string(), text.parse::<f64>().unwrap().to_string());
    }
}
