use lib::scanner::Scanner;
use lib::token::{LiteralType, TokenType};

fn number_of(literal: &LiteralType) -> f64 {
    match literal {
        LiteralType::NumberValue(text) => text.parse::<f64>().unwrap(),
        _ => panic!("not a number literal"),
    }
}

#[test]
fn test_single_character_tokens() {
    let mut scanner = Scanner::new("(){},.-+;*");
    let (tokens, errors) = scanner.scan_tokens();

    assert!(errors.is_empty());
    assert_eq!(tokens.len(), 11); // 10 characters + EOF
    assert_eq!(tokens[0].ttype, TokenType::LeftParen);
    assert_eq!(tokens[1].ttype, TokenType::RightParen);
    assert_eq!(tokens[2].ttype, TokenType::LeftBrace);
    assert_eq!(tokens[3].ttype, TokenType::RightBrace);
    assert_eq!(tokens[4].ttype, TokenType::Comma);
    assert_eq!(tokens[5].ttype, TokenType::Dot);
    assert_eq!(tokens[6].ttype, TokenType::Minus);
    assert_eq!(tokens[7].ttype, TokenType::Plus);
    assert_eq!(tokens[8].ttype, TokenType::Semicolon);
    assert_eq!(tokens[9].ttype, TokenType::Star);
    assert_eq!(tokens[10].ttype, TokenType::Eof);
}

#[test]
fn test_multi_character_tokens() {
    let mut scanner = Scanner::new("!= ! == = <= < >= > / //");
    let (tokens, errors) = scanner.scan_tokens();

    assert!(errors.is_empty());
    assert_eq!(tokens.len(), 10); // 9 tokens + EOF, comment // is ignored
    assert_eq!(tokens[0].ttype, TokenType::BangEqual);
    assert_eq!(tokens[0].lexeme, "!=");
    assert_eq!(tokens[0].line, 1);
    assert_eq!(tokens[1].ttype, TokenType::Bang);
    assert_eq!(tokens[2].ttype, TokenType::EqualEqual);
    assert_eq!(tokens[3].ttype, TokenType::Equal);
    assert_eq!(tokens[4].ttype, TokenType::LessEqual);
    assert_eq!(tokens[5].ttype, TokenType::Less);
    assert_eq!(tokens[6].ttype, TokenType::GreaterEqual);
    assert_eq!(tokens[7].ttype, TokenType::Greater);
    assert_eq!(tokens[8].ttype, TokenType::Slash);
    assert_eq!(tokens[8].lexeme, "/");
    assert_eq!(tokens[8].line, 1);
    assert_eq!(tokens[9].ttype, TokenType::Eof);
}

#[test]
fn test_new_line() {
    let mut scanner = Scanner::new("\n\n\n");
    let (tokens, errors) = scanner.scan_tokens();

    assert!(errors.is_empty());
    assert_eq!(tokens.len(), 1);
    assert_eq!(tokens[0].ttype, TokenType::Eof);
    assert_eq!(tokens[0].line, 4);
}

#[test]
fn test_string_literals() {
    let mut scanner = Scanner::new("\"abc\"");
    let (tokens, errors) = scanner.scan_tokens();

    assert!(errors.is_empty());
    assert_eq!(tokens.len(), 2);
    assert_eq!(tokens[0].ttype, TokenType::String);
    assert_eq!(tokens[0].lexeme, "\"abc\"");
    assert_eq!(tokens[0].literal, LiteralType::StringValue(String::from("abc")));
    assert_eq!(tokens[1].ttype, TokenType::Eof);
}

#[test]
fn test_keywords_identifiers_literals() {
    let mut scanner = Scanner::new("var foo = 123;");
    let (tokens, errors) = scanner.scan_tokens();

    assert!(errors.is_empty());
    assert_eq!(tokens.len(), 6); // 5 tokens + EOF

    assert_eq!(tokens[0].ttype, TokenType::Var);

    assert_eq!(tokens[1].ttype, TokenType::Identifier);
    assert_eq!(tokens[1].lexeme, "foo");

    assert_eq!(tokens[2].ttype, TokenType::Equal);

    assert_eq!(tokens[3].ttype, TokenType::Number);
    assert_eq!(number_of(&tokens[3].literal), 123.0);

    assert_eq!(tokens[4].ttype, TokenType::Semicolon);

    assert_eq!(tokens[5].ttype, TokenType::Eof);
}

#[test]
fn test_keywords() {
    let mut scanner =
        Scanner::new("and class else false for fun if nil or print return super this true var while");
    let (tokens, errors) = scanner.scan_tokens();

    assert!(errors.is_empty());
    assert_eq!(tokens.len(), 17); // 16 keywords + EOF
    assert_eq!(tokens[0].ttype, TokenType::And);
    assert_eq!(tokens[1].ttype, TokenType::Class);
    assert_eq!(tokens[2].ttype, TokenType::Else);
    assert_eq!(tokens[3].ttype, TokenType::False);
    assert_eq!(tokens[4].ttype, TokenType::For);
    assert_eq!(tokens[5].ttype, TokenType::Fun);
    assert_eq!(tokens[6].ttype, TokenType::If);
    assert_eq!(tokens[7].ttype, TokenType::Nil);
    assert_eq!(tokens[8].ttype, TokenType::Or);
    assert_eq!(tokens[9].ttype, TokenType::Print);
    assert_eq!(tokens[10].ttype, TokenType::Return);
    assert_eq!(tokens[11].ttype, TokenType::Super);
    assert_eq!(tokens[12].ttype, TokenType::This);
    assert_eq!(tokens[13].ttype, TokenType::True);
    assert_eq!(tokens[14].ttype, TokenType::Var);
    assert_eq!(tokens[15].ttype, TokenType::While);
    assert_eq!(tokens[16].ttype, TokenType::Eof);
}

#[test]
fn test_errors() {
    let mut scanner = Scanner::new("and `");
    let (tokens, errors) = scanner.scan_tokens();
    assert_eq!(errors.is_empty(), false);
    assert_eq!(tokens.len(), 2);
}

#[test]
fn unsupported_character_message() {
    let mut scanner = Scanner::new("a\n@");
    let (tokens, errors) = scanner.scan_tokens();
    assert_eq!(tokens.len(), 2);
    assert_eq!(errors, vec!["Unsupported character '@' at line 2".to_string()]);
}

#[test]
fn remaining_keywords_and_identifiers() {
    let mut scanner = Scanner::new("break continue static _x a1 breaks");
    let (tokens, errors) = scanner.scan_tokens();
    assert!(errors.is_empty());
    let types: Vec<TokenType> = tokens.iter().map(|t| t.ttype).collect();
    assert_eq!(
        types,
        vec![
            TokenType::Break,
            TokenType::Continue,
            TokenType::Static,
            TokenType::Identifier,
            TokenType::Identifier,
            TokenType::Identifier,
            TokenType::Eof
        ]
    );
    assert_eq!(tokens[3].lexeme, "_x");
}

#[test]
fn number_with_fraction_and_trailing_dot() {
    let mut scanner = Scanner::new("12.5 7.");
    let (tokens, errors) = scanner.scan_tokens();
    assert!(errors.is_empty());
    assert_eq!(tokens.len(), 4);
    assert_eq!(tokens[0].lexeme, "12.5");
    assert_eq!(number_of(&tokens[0].literal), 12.5);
    assert_eq!(tokens[1].lexeme, "7");
    assert_eq!(tokens[2].ttype, TokenType::Dot);
}

#[test]
fn multi_line_string_counts_lines() {
    let mut scanner = Scanner::new("\"a\nb\" x");
    let (tokens, errors) = scanner.scan_tokens();
    assert!(errors.is_empty());
    assert_eq!(tokens[0].literal, LiteralType::StringValue("a\nb".to_string()));
    assert_eq!(tokens[0].line, 2);
    assert_eq!(tokens[1].line, 2);
    assert_eq!(tokens[2].ttype, TokenType::Eof);
    assert_eq!(tokens[2].line, 2);
}

#[test]
fn comment_runs_to_end_of_line() {
    let mut scanner = Scanner::new("// note ( )\n;");
    let (tokens, errors) = scanner.scan_tokens();
    assert!(errors.is_empty());
    assert_eq!(tokens.len(), 2);
    assert_eq!(tokens[0].ttype, TokenType::Semicolon);
    assert_eq!(tokens[0].line, 2);
}

#[test]
fn open_string_is_detected() {
    let scanner = Scanner::new("print \"abc");
    assert!(scanner.open_string_ahead());
    let scanner = Scanner::new("print \"abc\";");
    assert!(!scanner.open_string_ahead());
    let scanner = Scanner::new("// \"\n;");
    assert!(!scanner.open_string_ahead());
}

#[test]
fn non_ascii_inside_string_is_kept() {
    let mut scanner = Scanner::new("\"héllo\"");
    let (tokens, errors) = scanner.scan_tokens();
    assert!(errors.is_empty());
    assert_eq!(tokens[0].literal, LiteralType::StringValue("héllo".to_string()));
    assert_eq!(tokens[0].lexeme, "\"héllo\"");
}

#[test]
fn only_the_last_token_ends_the_file_and_lines_never_go_down() {
    let mut scanner = Scanner::new("var a = 1;\n\"x\ny\"\n// c\nprint a;");
    let (tokens, errors) = scanner.scan_tokens();
    assert!(errors.is_empty());
    let last = tokens.len() - 1;
    for (i, t) in tokens.iter().enumerate() {
        assert_eq!(t.ttype == TokenType::Eof, i == last);
        if i > 0 {
            assert!(tokens[i - 1].line <= t.line);
        }
    }
    assert_eq!(tokens[last].line, 5);
}

#[test]
fn number_literals_equal_by_value() {
    let one = LiteralType::NumberValue("1.0".to_string());
    assert_eq!(one, LiteralType::NumberValue("1.00".to_string()));
    assert_eq!(one, LiteralType::NumberValue("1".to_string()));
    assert_eq!(LiteralType::NumberValue("007.50".to_string()), LiteralType::NumberValue("7.5".to_string()));
    assert_ne!(one, LiteralType::NumberValue("1.5".to_string()));
    assert_ne!(one, LiteralType::StringValue("1".to_string()));
    assert_eq!(LiteralType::NoneValue, LiteralType::NoneValue);
    assert_ne!(LiteralType::BoolValue(true), LiteralType::BoolValue(false));
}
