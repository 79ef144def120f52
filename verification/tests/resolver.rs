use lib::expr::Expr;
use lib::parser::Parser;
use lib::resolver::{ResolveError, Resolver};
use lib::scanner::Scanner;
use lib::token::{Token, TokenType};

fn resolve(source: &str) -> Resolver {
    let mut scanner = Scanner::new(source.to_string());
    let tokens = scanner.scan_tokens();
    let mut parser = Parser::new(tokens);
    let statements = parser.parse().unwrap();
    let mut resolver = Resolver::new();
    for s in &statements {
        resolver.resolve_statement(s);
    }
    resolver
}

#[test]
fn local_variable_resolves_to_its_slot() {
    // { var a = 1; print a; }   the `a` read is token 7
    let r = resolve("{ var a = 1; print a; }");
    assert!(!r.had_error);
    assert_eq!(r.locals.get(&7), Some(&(0, 0)));
    assert_eq!(r.locals.len(), 1);
}

#[test]
fn enclosing_scope_is_one_step_out() {
    // the `a` read inside the inner block is token 13
    let r = resolve("{ var a = 1; { var b = 2; print a; print b; } }");
    assert_eq!(r.locals.get(&13), Some(&(1, 0)));
    // `b` is token 16
    assert_eq!(r.locals.get(&16), Some(&(0, 0)));
}

#[test]
fn second_local_takes_the_next_slot() {
    let r = resolve("{ var a = 1; var b = 2; print b; }");
    // `b` read is token 12
    assert_eq!(r.locals.get(&12), Some(&(0, 1)));
}

#[test]
fn globals_are_not_resolved() {
    let r = resolve("var a = 1; print a; a = 2;");
    assert!(r.locals.is_empty());
    assert!(!r.had_error);
}

#[test]
fn parameters_are_slots_of_the_function_scope() {
    // fun f(a, b) { print b; }   `b` read is token 9
    let r = resolve("fun f(a, b) { print b; }");
    assert_eq!(r.locals.get(&9), Some(&(0, 1)));
}

#[test]
fn assignment_to_a_local_is_resolved() {
    // { var a; a = 3; }   the assignment's name is token 4
    let r = resolve("{ var a; a = 3; }");
    assert_eq!(r.locals.get(&4), Some(&(0, 0)));
}

#[test]
fn this_resolves_to_the_class_scope() {
    // class A { m() { print this; } }   `this` is token 8
    let r = resolve("class A { m() { print this; } }");
    assert!(!r.had_error);
    assert_eq!(r.locals.get(&8), Some(&(1, 0)));
}

#[test]
fn super_resolves_above_this() {
    // in the second class, `super` is token 13
    let r = resolve("class A {} class B < A { m() { super.m(); } }");
    assert!(!r.had_error);
    assert_eq!(r.locals.get(&13), Some(&(2, 0)));
}

#[test]
fn own_initializer_is_an_error() {
    let r = resolve("{\n var a = a; }");
    assert!(r.had_error);
    assert_eq!(r.errors().len(), 1);
    assert!(matches!(r.errors()[0], ResolveError::OwnInitializer { line: 2 }));
    assert_eq!(
        r.errors()[0].message(),
        "Can't read local variable in its own initializer at line 2"
    );
}

#[test]
fn redeclaration_in_a_local_scope_is_an_error() {
    let r = resolve("{ var a = 1; var a = 2; }");
    assert!(r.had_error);
    assert!(matches!(&r.errors()[0], ResolveError::Redeclared { name, line: 1 } if name == "a"));
    assert_eq!(r.errors()[0].message(), "Variable 'a' was redefined in line 1");
    let ok = resolve("var a = 1; var a = 2;");
    assert!(!ok.had_error);
}

#[test]
fn return_outside_function_is_an_error() {
    let r = resolve("return 1;");
    assert!(r.had_error);
    assert!(matches!(r.errors()[0], ResolveError::ReturnOutsideFunction));
    assert_eq!(r.errors()[0].message(), "return used without function");
}

#[test]
fn return_value_from_init_is_an_error() {
    let r = resolve("class A { init() { return 1; } }");
    assert!(r.had_error);
    assert!(matches!(r.errors()[0], ResolveError::ReturnValueFromInit { line: 1 }));
    let ok = resolve("class A { init() { return; } }");
    assert!(!ok.had_error);
}

#[test]
fn this_outside_class_is_an_error() {
    let r = resolve("print this;");
    assert!(matches!(r.errors()[0], ResolveError::ThisOutsideClass { line: 1 }));
    assert_eq!(r.errors()[0].message(), "Can't use 'this' outside of a class at line 1");
}

#[test]
fn super_outside_class_is_an_error() {
    let r = resolve("fun f() { super.m(); }");
    assert!(matches!(r.errors()[0], ResolveError::SuperOutsideClass { line: 1 }));
}

#[test]
fn super_without_superclass_is_an_error() {
    let r = resolve("class A { m() { super.m(); } }");
    assert!(matches!(r.errors()[0], ResolveError::SuperWithoutSuperclass { line: 1 }));
    assert_eq!(
        r.errors()[0].message(),
        "Can't use 'super' in a class with no superclass at line 1"
    );
}

#[test]
fn class_inheriting_from_itself_is_an_error() {
    let r = resolve("class A < A {}");
    assert_eq!(r.errors().len(), 1);
    assert!(matches!(r.errors()[0], ResolveError::InheritsFromItself { line: 1 }));
    assert_eq!(r.errors()[0].message(), "A class can't inherit from itself at line 1");
}

#[test]
fn errors_are_never_withdrawn() {
    let mut scanner = Scanner::new("return 1; { var a = 1; print a; }".to_string());
    let mut parser = Parser::new(scanner.scan_tokens());
    let statements = parser.parse().unwrap();
    let mut r = Resolver::new();
    r.resolve_statement(&statements[0]);
    assert!(r.had_error);
    r.resolve_statement(&statements[1]);
    assert!(r.had_error);
    assert_eq!(r.errors().len(), 1);
}

#[test]
fn class_context_is_restored_after_a_class() {
    let r = resolve("class A { m() { print this; } } print this;");
    assert_eq!(r.errors().len(), 1);
    assert!(matches!(r.errors()[0], ResolveError::ThisOutsideClass { line: 1 }));
}

#[test]
fn scope_operations_by_hand() {
    let name = Token::new(TokenType::Identifier, "x".to_string(), None, 1);
    let mut r = Resolver::new();
    r.begin_scope();
    r.declare(&name);
    r.define(&name);
    r.resolve_expr(&Expr::Variable(Token::new(TokenType::Identifier, "x".to_string(), None, 1), 5));
    assert_eq!(r.locals.get(&5), Some(&(0, 0)));
    r.end_scope();
    r.resolve_expr(&Expr::Variable(Token::new(TokenType::Identifier, "x".to_string(), None, 1), 6));
    assert_eq!(r.locals.get(&6), None);
    assert!(!r.had_error);
}

#[test]
fn block_declarations_stay_in_the_block() {
    // the `b` read after the inner block is token 14: it is not local there
    let r = resolve("{ var a = 1; { var b = 2; } print b; print a; }");
    assert_eq!(r.locals.get(&14), None);
    // the `a` read is token 17
    assert_eq!(r.locals.get(&17), Some(&(0, 0)));
}

#[test]
fn class_inheriting_from_itself_is_still_resolved() {
    // class A < A { m() { print this; } }   `this` is token 10
    let r = resolve("class A < A { m() { print this; } }");
    assert_eq!(r.errors().len(), 1);
    assert_eq!(r.locals.get(&10), Some(&(1, 0)));
}

#[test]
fn returned_value_in_init_is_still_resolved() {
    // class A { init() { var b; return b; } }   the `b` returned is token 11
    let r = resolve("class A { init() { var b; return b; } }");
    assert_eq!(r.errors().len(), 1);
    assert!(matches!(r.errors()[0], ResolveError::ReturnValueFromInit { line: 1 }));
    assert_eq!(r.locals.get(&11), Some(&(0, 0)));
}

#[test]
fn a_statement_declares_only_its_own_name() {
    // { fun f() { var inner; } print inner; print f; }
    // the `inner` read is token 11, the `f` read is token 14
    let r = resolve("{ fun f() { var inner; } print inner; print f; }");
    assert_eq!(r.locals.get(&11), None);
    assert_eq!(r.locals.get(&14), Some(&(0, 0)));
}
