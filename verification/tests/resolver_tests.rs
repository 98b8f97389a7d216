use lib::parser::Parser;
use lib::resolver::Resolver;
use lib::scanner::Scanner;

fn resolve_source(source: &str) -> Result<std::collections::HashMap<usize, usize>, Vec<String>> {
    let mut scanner = Scanner::new(source);
    let (tokens, _) = scanner.scan_tokens();
    let mut parser = Parser::new(tokens.clone());
    let statements = parser.parse().unwrap();
    let resolver = Resolver::new();
    resolver.resolve(&statements)
}

#[test]
fn test_unused_local_variable() {
    let source = "{ var a = 1; }";
    let mut scanner = Scanner::new(source);
    let (tokens, _) = scanner.scan_tokens();
    let mut parser = Parser::new(tokens.clone());
    let statements = parser.parse().unwrap();

    let resolver = Resolver::new();
    let result = resolver.resolve(&statements);

    assert!(result.is_err());
    let errs = result.unwrap_err();
    assert_eq!(errs.len(), 1);
    assert!(errs[0].contains("is not used"));
}

#[test]
fn test_read_in_own_initializer() {
    let source = "var a = \"outer\"; { var a = a; }";
    let mut scanner = Scanner::new(source);
    let (tokens, _) = scanner.scan_tokens();
    let mut parser = Parser::new(tokens.clone());
    let statements = parser.parse().unwrap();

    let resolver = Resolver::new();
    let result = resolver.resolve(&statements);

    assert!(result.is_err());
    let errs = result.unwrap_err();
    assert_eq!(errs.len(), 1);
    assert!(errs[0].contains("Cannot read local variable in its own initializer"));
}

#[test]
fn test_correct_resolution() {
    let source = "var a = \"global\"; { var b = a; print b; }";
    let mut scanner = Scanner::new(source);
    let (tokens, _) = scanner.scan_tokens();
    let mut parser = Parser::new(tokens.clone());
    let statements = parser.parse().unwrap();

    let resolver = Resolver::new();
    let result = resolver.resolve(&statements);

    assert!(result.is_ok()); // Should have no errors because 'b' is used
}

#[test]
fn unused_message_names_the_variable() {
    let errs = resolve_source("{\n var a = 1;\n}").unwrap_err();
    assert_eq!(errs, vec!["[line 2] Error at 'a': Local variable 'a' is not used".to_string()]);
}

#[test]
fn unused_variables_reported_in_declaration_order() {
    let errs = resolve_source("{ var x = 1; var y = 2; var z = 3; print y; }").unwrap_err();
    assert_eq!(errs.len(), 2);
    assert!(errs[0].contains("'x' is not used"));
    assert!(errs[1].contains("'z' is not used"));
}

#[test]
fn depths_count_scopes_out() {
    // ids: b's read of a is 0, print b is 1, print a is 2
    let locals = resolve_source("{ var a = 1; { var b = a; print b; } print a; }").unwrap();
    assert_eq!(locals.len(), 3);
    assert_eq!(locals.get(&0), Some(&1));
    assert_eq!(locals.get(&1), Some(&0));
    assert_eq!(locals.get(&2), Some(&0));
}

#[test]
fn globals_are_not_recorded() {
    let locals = resolve_source("var a = 1; print a; a = 2;").unwrap();
    assert!(locals.is_empty());
}

#[test]
fn function_parameters_are_locals() {
    let locals = resolve_source("fun f(x) { return x; }").unwrap();
    assert_eq!(locals.len(), 1);
    assert_eq!(locals.get(&0), Some(&0));
}

#[test]
fn unused_parameter_is_reported() {
    let errs = resolve_source("fun f(x) { return 1; }").unwrap_err();
    assert_eq!(errs.len(), 1);
    assert!(errs[0].contains("Local variable 'x' is not used"));
}

#[test]
fn assignment_marks_use() {
    // the target is first read as a variable (id 0); the assignment gets id 1
    let locals = resolve_source("{ var a = 1; a = 2; }").unwrap();
    assert_eq!(locals.len(), 1);
    assert_eq!(locals.get(&1), Some(&0));
}

#[test]
fn redeclaration_in_same_scope_replaces() {
    let errs = resolve_source("{ var a = 1; var a = 2; }").unwrap_err();
    assert_eq!(errs.len(), 1);
    assert!(errs[0].contains("Local variable 'a' is not used"));
}
