use lib::expr::Expr;
use lib::token::{Literal, Token, TokenType};

fn tok(t: TokenType, lexeme: &str) -> Token {
    Token::new(t, lexeme.to_string(), None, 1)
}

fn num(text: &str) -> Box<Expr> {
    Box::new(Expr::Literal(Literal::Number(text.to_string())))
}

#[test]
fn print_nested_arithmetic() {
    let expr = Expr::Binary {
        left: Box::new(Expr::Unary { operator: tok(TokenType::Minus, "-"), right: num("10.123") }),
        operator: tok(TokenType::Star, "*"),
        right: Box::new(Expr::Grouping { expr: num("45.67") }),
    };
    assert_eq!(expr.print(), "(* (-10.123) (group 45.67))");
}

#[test]
fn print_variables_and_assignment() {
    let x = Expr::Variable(tok(TokenType::Identifier, "x"), 0);
    assert_eq!(x.print(), "$x");
    let a = Expr::Assignment { name: tok(TokenType::Identifier, "x"), id: 0, value: num("1") };
    assert_eq!(a.print(), "(x = 1)");
}

#[test]
fn print_logical_and_literals() {
    let e = Expr::Logical {
        left: Box::new(Expr::Literal(Literal::Boolean(true))),
        operator: tok(TokenType::Or, "or"),
        right: Box::new(Expr::Literal(Literal::Nil)),
    };
    assert_eq!(e.print(), "(or true nil)");
    let s = Expr::Literal(Literal::String("hi there".to_string()));
    assert_eq!(s.print(), "hi there");
}

#[test]
fn print_call_lists_arguments() {
    let call = Expr::Call {
        callee: Box::new(Expr::Variable(tok(TokenType::Identifier, "f"), 0)),
        token: tok(TokenType::RightParen, ")"),
        args: vec![*num("1"), *num("2"), *num("3")],
    };
    assert_eq!(call.print(), "$f,),1,2,3");
    let empty = Expr::Call {
        callee: Box::new(Expr::Variable(tok(TokenType::Identifier, "g"), 0)),
        token: tok(TokenType::RightParen, ")"),
        args: vec![],
    };
    assert_eq!(empty.print(), "$g,),");
}

#[test]
fn display_differs_from_print_at_the_root() {
    let x = Expr::Variable(tok(TokenType::Identifier, "x"), 0);
    assert_eq!(x.display(), "x");
    let a = Expr::Assignment {
        name: tok(TokenType::Identifier, "x"),
        id: 0,
        value: Box::new(Expr::Variable(tok(TokenType::Identifier, "y"), 2)),
    };
    assert_eq!(a.display(), "(x = $y");
    let call = Expr::Call {
        callee: Box::new(Expr::Variable(tok(TokenType::Identifier, "f"), 0)),
        token: tok(TokenType::RightParen, ")"),
        args: vec![*num("1"), *num("2")],
    };
    assert_eq!(call.display(), "($f ) 1,2)");
    let b = Expr::Binary {
        left: num("1"),
        operator: tok(TokenType::Plus, "+"),
        right: Box::new(Expr::Variable(tok(TokenType::Identifier, "z"), 2)),
    };
    assert_eq!(b.display(), "(+ 1 $z)");
}

#[test]
fn print_properties_this_and_super() {
    let get = Expr::Get {
        object: Box::new(Expr::This { token: tok(TokenType::This, "this"), id: 0 }),
        name: tok(TokenType::Identifier, "name"),
    };
    assert_eq!(get.print(), "(this.name)");
    let set = Expr::SetProperty {
        object: Box::new(Expr::Variable(tok(TokenType::Identifier, "o"), 0)),
        name: tok(TokenType::Identifier, "f"),
        value: num("2"),
    };
    assert_eq!(set.print(), "($o.f = 2)");
    let sup = Expr::Super {
        keyword: tok(TokenType::Super, "super"),
        method: tok(TokenType::Identifier, "speak"),
        id: 0,
    };
    assert_eq!(sup.print(), "super.speak");
}
