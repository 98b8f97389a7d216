use lib::lox::Lox;
use lib::token::{LiteralType, Token, TokenType};
use lib::utility::error;

#[test]
fn lox_error_reports_and_records() {
    let mut lox = Lox::new();
    assert!(!lox.had_error);
    let text = lox.error(7, "Unexpected thing.");
    assert_eq!(text, "[line 7] Error : Unexpected thing.");
    assert!(lox.had_error);
}

#[test]
fn lox_report_with_source() {
    let mut lox = Lox::new();
    assert_eq!(lox.report(-2, "at 'x'", "bad"), "[line -2] Error at 'x': bad");
}

#[test]
fn error_at_token_and_at_end() {
    let t = Token { ttype: TokenType::Identifier, lexeme: "foo".to_string(), literal: LiteralType::NoneValue, line: 12 };
    assert_eq!(error("Oops.", &t), "[line 12] Error at 'foo': Oops.");
    let eof = Token { ttype: TokenType::Eof, lexeme: String::new(), literal: LiteralType::NoneValue, line: 3 };
    assert_eq!(error("Oops.", &eof), "[line 3] Error at end: Oops.");
}
