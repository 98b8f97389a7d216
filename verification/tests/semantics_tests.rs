use lib::semantics::{
    arity_error, binary_action, is_truthy, short_circuits, unary_action, unsupported_unary_error, BinaryAction,
    Flags, LoopStep, UnaryAction, ValueKind,
};
use lib::token::{LiteralType, Token, TokenType};

#[test]
fn truthiness() {
    assert!(!is_truthy(ValueKind::Nil));
    assert!(!is_truthy(ValueKind::Bool(false)));
    assert!(is_truthy(ValueKind::Bool(true)));
    assert!(is_truthy(ValueKind::Number));
    assert!(is_truthy(ValueKind::Str));
}

#[test]
fn binary_rules() {
    assert_eq!(binary_action(TokenType::EqualEqual, ValueKind::Nil, ValueKind::Str), BinaryAction::Equal);
    assert_eq!(binary_action(TokenType::BangEqual, ValueKind::Number, ValueKind::Str), BinaryAction::NotEqual);
    assert_eq!(binary_action(TokenType::Plus, ValueKind::Str, ValueKind::Str), BinaryAction::Concatenate);
    assert_eq!(binary_action(TokenType::Plus, ValueKind::Number, ValueKind::Number), BinaryAction::Add);
    assert_eq!(binary_action(TokenType::Slash, ValueKind::Number, ValueKind::Number), BinaryAction::Divide);
    assert_eq!(binary_action(TokenType::LessEqual, ValueKind::Number, ValueKind::Number), BinaryAction::LessEqual);
    assert_eq!(binary_action(TokenType::Plus, ValueKind::Str, ValueKind::Number), BinaryAction::Unsupported);
    assert_eq!(binary_action(TokenType::Minus, ValueKind::Str, ValueKind::Str), BinaryAction::Unsupported);
    assert_eq!(binary_action(TokenType::And, ValueKind::Number, ValueKind::Number), BinaryAction::Unsupported);
}

#[test]
fn unary_rules() {
    assert_eq!(unary_action(TokenType::Minus, ValueKind::Number), UnaryAction::Negate);
    assert_eq!(unary_action(TokenType::Minus, ValueKind::Str), UnaryAction::NotANumber);
    assert_eq!(unary_action(TokenType::Bang, ValueKind::Nil), UnaryAction::Not);
    assert_eq!(unary_action(TokenType::Plus, ValueKind::Number), UnaryAction::Unsupported);
    let op = Token { ttype: TokenType::Plus, lexeme: "+".to_string(), literal: LiteralType::NoneValue, line: 4 };
    assert_eq!(unsupported_unary_error(&op), "Unsupported unary operator Plus.\n[line 4]");
}

#[test]
fn logical_short_circuit() {
    assert!(short_circuits(TokenType::Or, true));
    assert!(!short_circuits(TokenType::Or, false));
    assert!(short_circuits(TokenType::And, false));
    assert!(!short_circuits(TokenType::And, true));
}

#[test]
fn arity_message() {
    let paren = Token { ttype: TokenType::RightParen, lexeme: ")".to_string(), literal: LiteralType::NoneValue, line: 2 };
    assert_eq!(arity_error(2, 3, &paren), "[line 2] Error at ')': Expected 2 arguments but got 3");
}

#[test]
fn loop_signals() {
    let mut flags = Flags::new();
    assert!(!flags.block_stops());
    flags.continue_flag = true;
    assert!(flags.block_stops());
    assert_eq!(flags.after_loop_body(), LoopStep::Again);
    assert!(flags.continue_flag);
    flags.end_iteration();
    assert!(!flags.continue_flag);
    flags.break_flag = true;
    assert_eq!(flags.after_loop_body(), LoopStep::Exit);
    assert!(!flags.break_flag);
    flags.return_flag = true;
    assert_eq!(flags.after_loop_body(), LoopStep::Exit);
    assert!(flags.return_flag);
}
