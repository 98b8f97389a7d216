use lib::environment::Environment;
use lib::token::{LiteralType, Token, TokenType};

fn name(text: &str) -> Token {
    Token { ttype: TokenType::Identifier, lexeme: text.to_string(), literal: LiteralType::NoneValue, line: 1 }
}

#[test]
fn define_then_get() {
    let mut env: Environment<i32> = Environment::new();
    env.define(0, "a", 1);
    assert_eq!(env.get(0, &name("a")), Ok(&1));
    env.define(0, "a", 2);
    assert_eq!(env.get(0, &name("a")), Ok(&2));
}

#[test]
fn get_undefined_variable() {
    let env: Environment<i32> = Environment::new();
    assert_eq!(env.get(0, &name("nope")), Err("Undefined variable 'nope'.".to_string()));
}

#[test]
fn inner_scope_sees_and_shadows_outer() {
    let mut env: Environment<&str> = Environment::new();
    env.define(0, "a", "global");
    let inner = env.new_with_enclosing(0);
    assert_eq!(inner, 1);
    assert_eq!(env.get(inner, &name("a")), Ok(&"global"));
    env.define(inner, "a", "local");
    assert_eq!(env.get(inner, &name("a")), Ok(&"local"));
    assert_eq!(env.get(0, &name("a")), Ok(&"global"));
}

#[test]
fn assign_goes_to_the_holding_scope() {
    let mut env: Environment<i32> = Environment::new();
    env.define(0, "a", 1);
    let inner = env.new_with_enclosing(0);
    assert_eq!(env.assign(inner, &name("a"), 5), Ok(()));
    assert_eq!(env.get(0, &name("a")), Ok(&5));
    assert_eq!(env.get(inner, &name("a")), Ok(&5));
    assert_eq!(env.assign(inner, &name("b"), 5), Err("Undefined variable 'b'.".to_string()));
}

#[test]
fn get_at_reads_one_scope_only() {
    let mut env: Environment<i32> = Environment::new();
    env.define(0, "a", 1);
    let middle = env.new_with_enclosing(0);
    let inner = env.new_with_enclosing(middle);
    env.define(inner, "b", 2);
    assert_eq!(env.get_at(inner, "a", 2), Ok(&1));
    assert_eq!(env.get_at(inner, "b", 0), Ok(&2));
    assert_eq!(env.get_at(inner, "a", 1), Err("Undefined variable 'a'".to_string()));
    assert_eq!(env.get_at(inner, "a", 3), Err("Cannot find an environment at distance 3".to_string()));
}

#[test]
fn assign_at_writes_one_scope_only() {
    let mut env: Environment<i32> = Environment::new();
    env.define(0, "a", 1);
    let inner = env.new_with_enclosing(0);
    env.define(inner, "a", 10);
    assert_eq!(env.assign_at(inner, &name("a"), 7, 1), Ok(()));
    assert_eq!(env.get(0, &name("a")), Ok(&7));
    assert_eq!(env.get(inner, &name("a")), Ok(&10));
    assert_eq!(env.assign_at(inner, &name("c"), 7, 0), Err("Undefined variable 'c'.".to_string()));
    assert_eq!(
        env.assign_at(inner, &name("a"), 7, 2),
        Err("Cannot find an environment at distance 2".to_string())
    );
}

#[test]
fn sibling_scopes_are_separate() {
    let mut env: Environment<i32> = Environment::new();
    let left = env.new_with_enclosing(0);
    let right = env.new_with_enclosing(0);
    env.define(left, "x", 1);
    assert!(env.get(right, &name("x")).is_err());
    assert_eq!(env.get(left, &name("x")), Ok(&1));
}
