use lib::expr::Expr;
use lib::parser::{ParseError, Parser};
use lib::scanner::Scanner;
use lib::stmt::{FunctionType, Statement};

fn parse(source: &str) -> Result<Vec<Statement>, ParseError> {
    let mut scanner = Scanner::new(source.to_string());
    let tokens = scanner.scan_tokens();
    let mut parser = Parser::new(tokens);
    parser.parse()
}

fn expression_text(source: &str) -> String {
    let statements = parse(source).unwrap();
    assert_eq!(statements.len(), 1);
    match &statements[0] {
        Statement::ExpressionStmt(e) => e.print(),
        other => panic!("not an expression statement: {:?}", other),
    }
}

#[test]
fn factor_binds_tighter_than_term() {
    assert_eq!(expression_text("1 + 2 * 3;"), "(+ 1 (* 2 3))");
}

#[test]
fn binary_operators_associate_left() {
    assert_eq!(expression_text("1 - 2 - 3;"), "(- (- 1 2) 3)");
    assert_eq!(expression_text("8 / 4 / 2;"), "(/ (/ 8 4) 2)");
}

#[test]
fn grouping_overrides_precedence() {
    assert_eq!(expression_text("(1 + 2) * 3;"), "(* (group (+ 1 2)) 3)");
}

#[test]
fn comparison_and_equality_levels() {
    assert_eq!(expression_text("1 < 2 == 3 >= 4;"), "(== (< 1 2) (>= 3 4))");
}

#[test]
fn unary_operators() {
    assert_eq!(expression_text("-x;"), "(-$x)");
    assert_eq!(expression_text("!true;"), "(!true)");
    assert_eq!(expression_text("!!true;"), "(!(!true))");
    assert_eq!(expression_text("-f();"), "(-$f,),)");
    assert_eq!(expression_text("- -1 * 2;"), "(* (-(-1)) 2)");
}

#[test]
fn and_binds_tighter_than_or() {
    assert_eq!(expression_text("a or b and c;"), "(or $a (and $b $c))");
}

#[test]
fn assignment_associates_right() {
    assert_eq!(expression_text("a = b = 1;"), "(a = (b = 1))");
}

#[test]
fn literals_print_as_written() {
    assert_eq!(expression_text("nil;"), "nil");
    assert_eq!(expression_text("false;"), "false");
    assert_eq!(expression_text("\"text\";"), "text");
    assert_eq!(expression_text("3.25;"), "3.25");
}

#[test]
fn calls_and_properties() {
    assert_eq!(expression_text("f(1, 2)(3);"), "$f,),1,2,),3");
    assert_eq!(expression_text("f();"), "$f,),");
    assert_eq!(expression_text("a.b.c;"), "(($a.b).c)");
    assert_eq!(expression_text("a.b = 1;"), "($a.b = 1)");
    assert_eq!(expression_text("this.x;"), "(this.x)");
    assert_eq!(expression_text("super.m;"), "super.m");
}

#[test]
fn invalid_assignment_target() {
    let err = parse("1 = 2;").unwrap_err();
    assert_eq!(err.message, "Invalid assignment target");
    assert_eq!(err.line, 1);
}

#[test]
fn missing_semicolon() {
    let err = parse("print 1").unwrap_err();
    assert_eq!(err.message, "Expected Semicolon, got EOF");
    assert_eq!(err.line, 1);
}

#[test]
fn missing_expression() {
    let err = parse("\n\nprint ;").unwrap_err();
    assert_eq!(err.message, "Parse error");
    assert_eq!(err.line, 3);
    assert_eq!(err.display(), "line 3: Parse error");
}

#[test]
fn parse_error_display() {
    let err = ParseError { message: "Expected RightParen, got EOF".to_string(), line: 120 };
    assert_eq!(err.display(), "line 120: Expected RightParen, got EOF");
    let err = ParseError { message: "m".to_string(), line: 0 };
    assert_eq!(err.display(), "line 0: m");
}

#[test]
fn var_declarations() {
    let statements = parse("var x = 1; var y;").unwrap();
    assert_eq!(statements.len(), 2);
    assert!(matches!(&statements[0], Statement::VarStmt(t, Some(_)) if t.lexeme == "x"));
    assert!(matches!(&statements[1], Statement::VarStmt(t, None) if t.lexeme == "y"));
}

#[test]
fn if_else_and_while() {
    let statements = parse("if (a) print 1; else print 2; while (b) { print 3; }").unwrap();
    assert_eq!(statements.len(), 2);
    assert!(matches!(&statements[0], Statement::IfStmt(_, _, Some(_))));
    match &statements[1] {
        Statement::WhileStmt(c, body) => {
            assert_eq!(c.print(), "$b");
            assert!(matches!(body.as_ref(), Statement::BlockStmt(v) if v.len() == 1));
        }
        other => panic!("{:?}", other),
    }
}

#[test]
fn for_loop_becomes_a_while_loop_in_a_block() {
    let statements = parse("for (var i = 0; i < 3; i = i + 1) print i;").unwrap();
    assert_eq!(statements.len(), 1);
    match &statements[0] {
        Statement::BlockStmt(outer) => {
            assert_eq!(outer.len(), 2);
            assert!(matches!(&outer[0], Statement::VarStmt(t, Some(_)) if t.lexeme == "i"));
            match &outer[1] {
                Statement::WhileStmt(cond, body) => {
                    assert_eq!(cond.print(), "(< $i 3)");
                    match body.as_ref() {
                        Statement::BlockStmt(inner) => {
                            assert_eq!(inner.len(), 2);
                            assert!(matches!(&inner[0], Statement::PrintStmt(_)));
                            match &inner[1] {
                                Statement::ExpressionStmt(e) => {
                                    assert_eq!(e.print(), "(i = (+ $i 1))")
                                }
                                other => panic!("{:?}", other),
                            }
                        }
                        other => panic!("{:?}", other),
                    }
                }
                other => panic!("{:?}", other),
            }
        }
        other => panic!("{:?}", other),
    }
}

#[test]
fn for_loop_without_clauses() {
    let statements = parse("for (;;) print 1;").unwrap();
    match &statements[0] {
        Statement::BlockStmt(outer) => {
            assert_eq!(outer.len(), 1);
            match &outer[0] {
                Statement::WhileStmt(cond, body) => {
                    assert_eq!(cond.print(), "true");
                    assert!(matches!(body.as_ref(), Statement::BlockStmt(inner) if inner.len() == 1));
                }
                other => panic!("{:?}", other),
            }
        }
        other => panic!("{:?}", other),
    }
}

#[test]
fn functions_are_tagged() {
    let statements = parse("fun f(a, b) { return a; }").unwrap();
    match &statements[0] {
        Statement::FunctionStmt(name, params, body, kind) => {
            assert_eq!(name.lexeme, "f");
            assert_eq!(params.len(), 2);
            assert_eq!(params[1].lexeme, "b");
            assert_eq!(*kind, FunctionType::FUNCTION);
            assert!(matches!(body.as_ref().as_ref(), Statement::BlockStmt(v) if v.len() == 1));
        }
        other => panic!("{:?}", other),
    }
}

#[test]
fn classes_with_superclass_and_methods() {
    let statements = parse("class B < A { init(x) { this.x = x; } speak() { print 1; } }").unwrap();
    match &statements[0] {
        Statement::ClassStmt(name, methods, superclass) => {
            assert_eq!(name.lexeme, "B");
            assert!(matches!(superclass, Some(Expr::Variable(t, _)) if t.lexeme == "A"));
            assert_eq!(methods.len(), 2);
            assert!(matches!(&methods[0], Statement::FunctionStmt(n, _, _, FunctionType::INIT) if n.lexeme == "init"));
            assert!(matches!(&methods[1], Statement::FunctionStmt(n, _, _, FunctionType::METHOD) if n.lexeme == "speak"));
        }
        other => panic!("{:?}", other),
    }
}

#[test]
fn unterminated_block() {
    let err = parse("{ print 1;").unwrap_err();
    assert_eq!(err.message, "Expected RightBrace, got EOF");
}

#[test]
fn empty_program() {
    assert!(parse("").unwrap().is_empty());
    assert!(parse("// only a comment").unwrap().is_empty());
}
