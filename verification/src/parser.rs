use vstd::prelude::*;
use std::rc::Rc;

use crate::expr::{expr_models, Expr, ExprModel};
use crate::grammar::{self, at_end, check, check_any, kind, ExprResult, StmtResult, SyntaxError};
use crate::stmt::{stmt_models, FunctionType, Statement, StmtModel};
use crate::text::{chars_of, decimal, decimal_string};
use crate::token::{kind_name, Literal, Token, TokenType};

verus! {

/// A syntax error, with its message and the line it was found on.
#[derive(Debug)]
pub struct ParseError {
    pub message: String,
    pub line: usize,
}

/// The message that describes a syntax error.
pub open spec fn error_message(e: SyntaxError) -> Seq<char> {
    match e {
        SyntaxError::Expected { expected, found, .. } => "Expected "@ + kind_name(expected) + ", got "@
            + kind_name(found),
        SyntaxError::InvalidAssignmentTarget { .. } => "Invalid assignment target"@,
        SyntaxError::ExpectedExpression { .. } => "Parse error"@,
    }
}

pub open spec fn error_line(e: SyntaxError) -> usize {
    match e {
        SyntaxError::Expected { line, .. } => line,
        SyntaxError::InvalidAssignmentTarget { line } => line,
        SyntaxError::ExpectedExpression { line } => line,
    }
}

/// The parse error that reports a syntax error.
pub fn report(e: SyntaxError) -> (r: ParseError)
    ensures
        r.message@ == error_message(e),
        r.line == error_line(e),
{
    match e {
        SyntaxError::Expected { expected, found, line } => {
            let mut message = String::from_str("Expected ");
            message.append(expected.name());
            message.append(", got ");
            message.append(found.name());
            ParseError { message, line }
        },
        SyntaxError::InvalidAssignmentTarget { line } => ParseError {
            message: String::from_str("Invalid assignment target"),
            line,
        },
        SyntaxError::ExpectedExpression { line } => ParseError {
            message: String::from_str("Parse error"),
            line,
        },
    }
}

impl ParseError {
    /// The error as it is shown to the user: `line N: message`.
    pub fn display(&self) -> (r: String)
        ensures
            r@ == "line "@ + decimal(self.line as nat) + ": "@ + self.message@,
    {
        let mut s = String::from_str("line ");
        s.append(decimal_string(self.line).as_str());
        s.append(": ");
        s.append(self.message.as_str());
        s
    }
}

/// Some token at or after position `p` marks the end of input.
pub open spec fn has_eof_from(toks: Seq<Token>, p: int) -> bool {
    exists|i: int| p <= i < toks.len() && #[trigger] toks[i].token_type == TokenType::EOF
}

pub open spec fn expr_outcome(r: Result<Expr, SyntaxError>, q: int) -> ExprResult {
    match r {
        Ok(e) => Ok((e@, q)),
        Err(x) => Err(x),
    }
}

pub open spec fn stmt_outcome(r: Result<Statement, SyntaxError>, q: int) -> StmtResult {
    match r {
        Ok(s) => Ok((s@, q)),
        Err(x) => Err(x),
    }
}

/// Turns a sequence of tokens into statements, by recursive descent.
pub struct Parser {
    tokens: Vec<Token>,
    current: usize,
}

impl Parser {
    pub closed spec fn tokens(&self) -> Seq<Token> {
        self.tokens@
    }

    pub closed spec fn position(&self) -> int {
        self.current as int
    }

    /// The end of input lies ahead of the parser.
    pub closed spec fn wf(&self) -> bool {
        &&& has_eof_from(self.tokens@, self.current as int)
        &&& self.tokens@.len() <= usize::MAX
    }

    /// What a parsing step leaves unchanged, and that it never moves back.
    pub closed spec fn keeps(&self, old: &Parser) -> bool {
        &&& self.tokens@ == old.tokens@
        &&& old.current <= self.current
        &&& self.wf()
    }

    pub fn new(tokens: Vec<Token>) -> (r: Self)
        ensures
            r.tokens() == tokens@,
            r.position() == 0,
    {
        Self { tokens, current: 0 }
    }

    fn is_at_end(&self) -> (r: bool)
        requires
            self.wf(),
        ensures
            r == at_end(self.tokens@, self.current as int),
    {
        self.peek().token_type == TokenType::EOF
    }

    fn peek(&self) -> (r: &Token)
        requires
            self.wf(),
        ensures
            self.current < self.tokens@.len(),
            *r == self.tokens@[self.current as int],
    {
        &self.tokens[self.current]
    }

    fn advance(&mut self) -> (r: &Token)
        requires
            old(self).wf(),
            !at_end(old(self).tokens@, old(self).current as int),
        ensures
            final(self).tokens@ == old(self).tokens@,
            final(self).current == old(self).current + 1,
            final(self).wf(),
            *r == old(self).tokens@[old(self).current as int],
    {
        if !self.is_at_end() {
            self.current += 1;
        }
        self.previous()
    }

    fn previous(&self) -> (r: &Token)
        requires
            1 <= self.current <= self.tokens@.len(),
        ensures
            *r == self.tokens@[self.current - 1],
    {
        &self.tokens[self.current - 1]
    }

    fn check(&self, token_type: &TokenType) -> (r: bool)
        requires
            self.wf(),
        ensures
            r == check(self.tokens@, self.current as int, *token_type),
    {
        if self.is_at_end() {
            false
        } else {
            self.peek().token_type == *token_type
        }
    }

    fn match_any(&mut self, types: &[TokenType]) -> (r: bool)
        requires
            old(self).wf(),
        ensures
            r == check_any(old(self).tokens@, old(self).current as int, types@),
            final(self).tokens@ == old(self).tokens@,
            final(self).current == old(self).current + if r {
                1int
            } else {
                0int
            },
            final(self).wf(),
    {
        let mut i: usize = 0;
        while i < types.len()
            invariant
                self.wf(),
                self.tokens@ == old(self).tokens@,
                self.current == old(self).current,
                i <= types@.len(),
                forall|j: int| 0 <= j < i ==> !check(self.tokens@, self.current as int, types@[j]),
            decreases types@.len() - i,
        {
            if self.check(&types[i]) {
                self.advance();
                assert(types@.contains(types@[i as int]));
                return true;
            }
            i = i + 1;
        }
        proof {
            if check_any(self.tokens@, self.current as int, types@) {
                let k = choose|k: int| 0 <= k < types@.len() && types@[k] == kind(self.tokens@, self.current as int);
                assert(!check(self.tokens@, self.current as int, types@[k]));
            }
        }
        false
    }

    fn expect(&mut self, typ: &TokenType) -> (r: Result<&Token, SyntaxError>)
        requires
            old(self).wf(),
        ensures
            final(self).keeps(old(self)),
            match r {
                Ok(t) => {
                    &&& grammar::expect(old(self).tokens@, old(self).current as int, *typ) == Ok::<int, SyntaxError>(final(self).current as int)
                    &&& *t == old(self).tokens@[old(self).current as int]
                },
                Err(e) => grammar::expect(old(self).tokens@, old(self).current as int, *typ) == Err::<int, SyntaxError>(e),
            },
    {
        if self.check(typ) {
            Ok(self.advance())
        } else {
            let found = self.peek();
            Err(SyntaxError::Expected { expected: *typ, found: found.token_type, line: found.line })
        }
    }

    fn primary(&mut self) -> (r: Result<Expr, SyntaxError>)
        requires
            old(self).wf(),
        ensures
            final(self).keeps(old(self)),
            grammar::primary(old(self).tokens@, old(self).current as int) == expr_outcome(
                r,
                final(self).current as int,
            ),
            r is Ok ==> old(self).current < final(self).current,
        decreases old(self).tokens@.len() - old(self).current, 0int,
    {
        if self.match_any(&[TokenType::False]) {
            Ok(Expr::Literal(Literal::Boolean(false)))
        } else if self.match_any(&[TokenType::True]) {
            Ok(Expr::Literal(Literal::Boolean(true)))
        } else if self.match_any(&[TokenType::Nil]) {
            Ok(Expr::Literal(Literal::Nil))
        } else if self.match_any(&[TokenType::Number, TokenType::String]) {
            let token = self.previous();
            match &token.literal {
                Some(l) => Ok(Expr::Literal(l.clone())),
                None => Err(SyntaxError::ExpectedExpression { line: token.line }),
            }
        } else if self.match_any(&[TokenType::LeftParen]) {
            let expr = self.expression()?;
            self.expect(&TokenType::RightParen)?;
            Ok(Expr::Grouping { expr: Box::new(expr) })
        } else if self.match_any(&[TokenType::This]) {
            Ok(Expr::This { token: self.previous().clone(), id: self.current - 1 })
        } else if self.match_any(&[TokenType::Identifier]) {
            Ok(Expr::Variable(self.previous().clone(), self.current - 1))
        } else if self.match_any(&[TokenType::Super]) {
            let keyword = self.previous().clone();
            let id = self.current - 1;
            self.expect(&TokenType::Dot)?;
            let method = self.expect(&TokenType::Identifier)?.clone();
            Ok(Expr::Super { keyword, method, id })
        } else {
            Err(SyntaxError::ExpectedExpression { line: self.peek().line })
        }
    }

    fn expression(&mut self) -> (r: Result<Expr, SyntaxError>)
        requires
            old(self).wf(),
        ensures
            final(self).keeps(old(self)),
            grammar::expression(old(self).tokens@, old(self).current as int) == expr_outcome(
                r,
                final(self).current as int,
            ),
            r is Ok ==> old(self).current < final(self).current,
        decreases old(self).tokens@.len() - old(self).current, 16int,
    {
        self.assignment()
    }

    fn assignment(&mut self) -> (r: Result<Expr, SyntaxError>)
        requires
            old(self).wf(),
        ensures
            final(self).keeps(old(self)),
            grammar::assignment(old(self).tokens@, old(self).current as int) == expr_outcome(
                r,
                final(self).current as int,
            ),
            r is Ok ==> old(self).current < final(self).current,
        decreases old(self).tokens@.len() - old(self).current, 15int,
    {
        let ex = self.or()?;
        if self.match_any(&[TokenType::Equal]) {
            let line = self.previous().line;
            let value = self.assignment()?;
            match ex {
                Expr::Variable(var_token, id) => Ok(
                    Expr::Assignment { name: var_token, id, value: Box::new(value) },
                ),
                Expr::Get { object, name } => Ok(
                    Expr::SetProperty { object, name, value: Box::new(value) },
                ),
                _ => Err(SyntaxError::InvalidAssignmentTarget { line }),
            }
        } else {
            Ok(ex)
        }
    }

    fn or(&mut self) -> (r: Result<Expr, SyntaxError>)
        requires
            old(self).wf(),
        ensures
            final(self).keeps(old(self)),
            grammar::binary(old(self).tokens@, old(self).current as int, 5) == expr_outcome(
                r,
                final(self).current as int,
            ),
            r is Ok ==> old(self).current < final(self).current,
        decreases old(self).tokens@.len() - old(self).current, 14int,
    {
        let ghost toks = self.tokens@;
        let ghost p0 = self.current as int;
        let mut expr = self.and()?;
        loop
            invariant
                self.wf(),
                self.tokens@ == toks,
                toks == old(self).tokens@,
                p0 == old(self).current,
                p0 < self.current,
                grammar::binary(toks, p0, 5) == grammar::binary_rest(toks, self.current as int, expr@, 5),
            ensures
                self.wf(),
                self.tokens@ == toks,
                p0 < self.current,
                grammar::binary(toks, p0, 5) == expr_outcome(Ok::<Expr, SyntaxError>(expr), self.current as int),
            decreases toks.len() - self.current,
        {
            if !self.match_any(&[TokenType::Or]) {
                break;
            }
            let operator = self.previous().clone();
            let right = self.and()?;
            expr = Expr::Logical { left: Box::new(expr), operator, right: Box::new(right) };
        }
        Ok(expr)
    }

    fn and(&mut self) -> (r: Result<Expr, SyntaxError>)
        requires
            old(self).wf(),
        ensures
            final(self).keeps(old(self)),
            grammar::binary(old(self).tokens@, old(self).current as int, 4) == expr_outcome(
                r,
                final(self).current as int,
            ),
            r is Ok ==> old(self).current < final(self).current,
        decreases old(self).tokens@.len() - old(self).current, 12int,
    {
        let ghost toks = self.tokens@;
        let ghost p0 = self.current as int;
        let mut expr = self.equality()?;
        loop
            invariant
                self.wf(),
                self.tokens@ == toks,
                toks == old(self).tokens@,
                p0 == old(self).current,
                p0 < self.current,
                grammar::binary(toks, p0, 4) == grammar::binary_rest(toks, self.current as int, expr@, 4),
            ensures
                self.wf(),
                self.tokens@ == toks,
                p0 < self.current,
                grammar::binary(toks, p0, 4) == expr_outcome(Ok::<Expr, SyntaxError>(expr), self.current as int),
            decreases toks.len() - self.current,
        {
            if !self.match_any(&[TokenType::And]) {
                break;
            }
            let operator = self.previous().clone();
            let right = self.equality()?;
            expr = Expr::Logical { left: Box::new(expr), operator, right: Box::new(right) };
        }
        Ok(expr)
    }

    fn equality(&mut self) -> (r: Result<Expr, SyntaxError>)
        requires
            old(self).wf(),
        ensures
            final(self).keeps(old(self)),
            grammar::binary(old(self).tokens@, old(self).current as int, 3) == expr_outcome(
                r,
                final(self).current as int,
            ),
            r is Ok ==> old(self).current < final(self).current,
        decreases old(self).tokens@.len() - old(self).current, 10int,
    {
        let ghost toks = self.tokens@;
        let ghost p0 = self.current as int;
        let mut expr = self.comparison()?;
        loop
            invariant
                self.wf(),
                self.tokens@ == toks,
                toks == old(self).tokens@,
                p0 == old(self).current,
                p0 < self.current,
                grammar::binary(toks, p0, 3) == grammar::binary_rest(toks, self.current as int, expr@, 3),
            ensures
                self.wf(),
                self.tokens@ == toks,
                p0 < self.current,
                grammar::binary(toks, p0, 3) == expr_outcome(Ok::<Expr, SyntaxError>(expr), self.current as int),
            decreases toks.len() - self.current,
        {
            if !self.match_any(&[TokenType::BangEqual, TokenType::EqualEqual]) {
                break;
            }
            let operator = self.previous().clone();
            let right = self.comparison()?;
            expr = Expr::Binary { left: Box::new(expr), operator, right: Box::new(right) };
        }
        Ok(expr)
    }

    fn comparison(&mut self) -> (r: Result<Expr, SyntaxError>)
        requires
            old(self).wf(),
        ensures
            final(self).keeps(old(self)),
            grammar::binary(old(self).tokens@, old(self).current as int, 2) == expr_outcome(
                r,
                final(self).current as int,
            ),
            r is Ok ==> old(self).current < final(self).current,
        decreases old(self).tokens@.len() - old(self).current, 8int,
    {
        let ghost toks = self.tokens@;
        let ghost p0 = self.current as int;
        let mut expr = self.term()?;
        loop
            invariant
                self.wf(),
                self.tokens@ == toks,
                toks == old(self).tokens@,
                p0 == old(self).current,
                p0 < self.current,
                grammar::binary(toks, p0, 2) == grammar::binary_rest(toks, self.current as int, expr@, 2),
            ensures
                self.wf(),
                self.tokens@ == toks,
                p0 < self.current,
                grammar::binary(toks, p0, 2) == expr_outcome(Ok::<Expr, SyntaxError>(expr), self.current as int),
            decreases toks.len() - self.current,
        {
            if !self.match_any(
                &[
                    TokenType::Greater,
                    TokenType::GreaterEqual,
                    TokenType::Less,
                    TokenType::LessEqual,
                ],
            ) {
                break;
            }
            let operator = self.previous().clone();
            let right = self.term()?;
            expr = Expr::Binary { left: Box::new(expr), operator, right: Box::new(right) };
        }
        Ok(expr)
    }

    fn term(&mut self) -> (r: Result<Expr, SyntaxError>)
        requires
            old(self).wf(),
        ensures
            final(self).keeps(old(self)),
            grammar::binary(old(self).tokens@, old(self).current as int, 1) == expr_outcome(
                r,
                final(self).current as int,
            ),
            r is Ok ==> old(self).current < final(self).current,
        decreases old(self).tokens@.len() - old(self).current, 6int,
    {
        let ghost toks = self.tokens@;
        let ghost p0 = self.current as int;
        let mut expr = self.factor()?;
        loop
            invariant
                self.wf(),
                self.tokens@ == toks,
                toks == old(self).tokens@,
                p0 == old(self).current,
                p0 < self.current,
                grammar::binary(toks, p0, 1) == grammar::binary_rest(toks, self.current as int, expr@, 1),
            ensures
                self.wf(),
                self.tokens@ == toks,
                p0 < self.current,
                grammar::binary(toks, p0, 1) == expr_outcome(Ok::<Expr, SyntaxError>(expr), self.current as int),
            decreases toks.len() - self.current,
        {
            if !self.match_any(&[TokenType::Minus, TokenType::Plus]) {
                break;
            }
            let operator = self.previous().clone();
            let right = self.factor()?;
            expr = Expr::Binary { left: Box::new(expr), operator, right: Box::new(right) };
        }
        Ok(expr)
    }

    fn factor(&mut self) -> (r: Result<Expr, SyntaxError>)
        requires
            old(self).wf(),
        ensures
            final(self).keeps(old(self)),
            grammar::binary(old(self).tokens@, old(self).current as int, 0) == expr_outcome(
                r,
                final(self).current as int,
            ),
            r is Ok ==> old(self).current < final(self).current,
        decreases old(self).tokens@.len() - old(self).current, 4int,
    {
        let ghost toks = self.tokens@;
        let ghost p0 = self.current as int;
        let mut expr = self.unary()?;
        loop
            invariant
                self.wf(),
                self.tokens@ == toks,
                toks == old(self).tokens@,
                p0 == old(self).current,
                p0 < self.current,
                grammar::binary(toks, p0, 0) == grammar::binary_rest(toks, self.current as int, expr@, 0),
            ensures
                self.wf(),
                self.tokens@ == toks,
                p0 < self.current,
                grammar::binary(toks, p0, 0) == expr_outcome(Ok::<Expr, SyntaxError>(expr), self.current as int),
            decreases toks.len() - self.current,
        {
            if !self.match_any(&[TokenType::Slash, TokenType::Star]) {
                break;
            }
            let operator = self.previous().clone();
            let right = self.unary()?;
            expr = Expr::Binary { left: Box::new(expr), operator, right: Box::new(right) };
        }
        Ok(expr)
    }

    fn unary(&mut self) -> (r: Result<Expr, SyntaxError>)
        requires
            old(self).wf(),
        ensures
            final(self).keeps(old(self)),
            grammar::unary(old(self).tokens@, old(self).current as int) == expr_outcome(
                r,
                final(self).current as int,
            ),
            r is Ok ==> old(self).current < final(self).current,
        decreases old(self).tokens@.len() - old(self).current, 2int,
    {
        if self.match_any(&[TokenType::Bang, TokenType::Minus]) {
            let operator = self.previous().clone();
            let right = self.unary()?;
            Ok(Expr::Unary { operator, right: Box::new(right) })
        } else {
            self.call()
        }
    }

    fn call(&mut self) -> (r: Result<Expr, SyntaxError>)
        requires
            old(self).wf(),
        ensures
            final(self).keeps(old(self)),
            grammar::call(old(self).tokens@, old(self).current as int) == expr_outcome(
                r,
                final(self).current as int,
            ),
            r is Ok ==> old(self).current < final(self).current,
        decreases old(self).tokens@.len() - old(self).current, 1int,
    {
        let ghost toks = self.tokens@;
        let ghost p0 = self.current as int;
        let mut expr = self.primary()?;
        loop
            invariant
                self.wf(),
                self.tokens@ == toks,
                toks == old(self).tokens@,
                p0 == old(self).current,
                p0 < self.current,
                grammar::call(toks, p0) == grammar::call_rest(toks, self.current as int, expr@),
            ensures
                self.wf(),
                self.tokens@ == toks,
                p0 < self.current,
                grammar::call(toks, p0) == expr_outcome(Ok::<Expr, SyntaxError>(expr), self.current as int),
            decreases toks.len() - self.current,
        {
            if self.match_any(&[TokenType::LeftParen]) {
                expr = self.finish_call(expr)?;
            } else if self.match_any(&[TokenType::Dot]) {
                let name = self.expect(&TokenType::Identifier)?.clone();
                expr = Expr::Get { object: Box::new(expr), name };
            } else {
                break;
            }
        }
        Ok(expr)
    }

    fn finish_call(&mut self, callee: Expr) -> (r: Result<Expr, SyntaxError>)
        requires
            old(self).wf(),
        ensures
            final(self).keeps(old(self)),
            grammar::finish_call(old(self).tokens@, old(self).current as int, callee@)
                == expr_outcome(r, final(self).current as int),
            r is Ok ==> old(self).current < final(self).current,
        decreases old(self).tokens@.len() - old(self).current, 17int,
    {
        let ghost toks = self.tokens@;
        let ghost p0 = self.current as int;
        let ghost cm = callee@;
        let mut args: Vec<Expr> = Vec::new();
        if !self.check(&TokenType::RightParen) {
            let first = self.expression()?;
            args.push(first);
            proof {
                assert(args@.drop_last() =~= Seq::<Expr>::empty());
                assert(expr_models(Seq::<Expr>::empty()) =~= Seq::<ExprModel>::empty());
                assert(expr_models(args@) =~= seq![first@]);
            }
            loop
                invariant
                    self.wf(),
                    self.tokens@ == toks,
                    toks == old(self).tokens@,
                    p0 == old(self).current,
                    p0 < self.current,
                    cm == callee@,
                    grammar::finish_call(toks, p0, cm) == grammar::args_rest(
                        toks,
                        self.current as int,
                        expr_models(args@),
                        cm,
                    ),
                ensures
                    self.wf(),
                    self.tokens@ == toks,
                    p0 < self.current,
                    !check(toks, self.current as int, TokenType::Comma),
                    grammar::finish_call(toks, p0, cm) == grammar::args_rest(
                        toks,
                        self.current as int,
                        expr_models(args@),
                        cm,
                    ),
                decreases toks.len() - self.current,
            {
                let ghost c = self.current as int;
                if !self.match_any(&[TokenType::Comma]) {
                    break;
                }
                let arg = match self.expression() {
                    Ok(a) => a,
                    Err(e) => {
                        assert(grammar::expression(toks, c + 1) == Err::<(ExprModel, int), SyntaxError>(e));
                        assert(grammar::args_rest(toks, c, expr_models(args@), cm) == Err::<(ExprModel, int), SyntaxError>(e));
                        return Err(e);
                    },
                };
                let ghost before = args@;
                args.push(arg);
                proof {
                    assert(args@.drop_last() =~= before);
                }
            }
        } else {
            assert(expr_models(args@) =~= Seq::<ExprModel>::empty());
        }
        let paren = self.expect(&TokenType::RightParen)?.clone();
        Ok(Expr::Call { callee: Box::new(callee), token: paren, args })
    }
}


pub proof fn lemma_stmt_models_push(s: Seq<Statement>, x: Statement)
    ensures
        stmt_models(s.push(x)) == stmt_models(s).push(x@),
        stmt_models(Seq::<Statement>::empty()) == Seq::<StmtModel>::empty(),
{
    assert(s.push(x).drop_last() =~= s);
}

/// Whether a method name is `init`, in any mix of upper and lower case.
fn is_init(name: &String) -> (r: bool)
    ensures
        r == grammar::is_init_name(name@),
{
    let w = chars_of(name);
    w.len() == 4 && (w[0] == 'i' || w[0] == 'I') && (w[1] == 'n' || w[1] == 'N') && (w[2] == 'i'
        || w[2] == 'I') && (w[3] == 't' || w[3] == 'T')
}

pub open spec fn opt_box_model(s: Option<Box<Statement>>) -> Option<StmtModel> {
    match s {
        Some(b) => Some((*b)@),
        None => None,
    }
}

pub open spec fn opt_model(e: Option<Expr>) -> Option<ExprModel> {
    match e {
        Some(e) => Some(e@),
        None => None,
    }
}

/// The block a `for` loop stands for: the initializer, then a `while` loop
/// (a plain block where there is no condition) whose body runs the loop body
/// and then the increment.
fn desugar_for(
    initializer: Option<Box<Statement>>,
    condition: Option<Expr>,
    increment: Option<Expr>,
    body: Statement,
) -> (r: Statement)
    ensures
        r@ == grammar::desugar_for(
            opt_box_model(initializer),
            opt_model(condition),
            opt_model(increment),
            body@,
        ),
{
    let ghost body_model = body@;
    let ghost init_model = opt_box_model(initializer);
    let ghost cond_model = opt_model(condition);
    let ghost incr_model = opt_model(increment);
    let mut block_body = Vec::new();
    block_body.push(body);
    proof {
        lemma_stmt_models_push(Seq::<Statement>::empty(), body);
        assert(Seq::<Statement>::empty().push(body) =~= block_body@);
    }
    if let Some(increment) = increment {
        let ghost before = block_body@;
        block_body.push(Statement::ExpressionStmt(increment));
        proof {
            lemma_stmt_models_push(before, Statement::ExpressionStmt(increment));
            assert(stmt_models(block_body@) =~= seq![body_model, StmtModel::Expression(increment@)]);
        }
    } else {
        assert(stmt_models(block_body@) =~= seq![body_model]);
    }
    let ghost block_model = stmt_models(block_body@);
    assert(block_model == match incr_model {
        Some(i) => seq![body_model, StmtModel::Expression(i)],
        None => seq![body_model],
    });
    let condition = match condition {
        Some(c) => c,
        None => Expr::Literal(Literal::Boolean(true)),
    };
    let inner = Statement::BlockStmt(block_body);
    assert(inner@ == StmtModel::Block(block_model));
    let loop_body = Statement::WhileStmt(condition, Box::new(inner));
    let ghost loop_model = loop_body@;
    assert(loop_model == StmtModel::While(
        match cond_model {
            Some(c) => c,
            None => ExprModel::Literal(Literal::Boolean(true)),
        },
        Box::new(StmtModel::Block(block_model)),
    ));
    let mut statements = Vec::new();
    if let Some(initializer) = initializer {
        statements.push(*initializer);
        proof {
            lemma_stmt_models_push(Seq::<Statement>::empty(), *initializer);
            assert(Seq::<Statement>::empty().push(*initializer) =~= statements@);
        }
    } else {
        proof {
            lemma_stmt_models_push(Seq::<Statement>::empty(), loop_body);
        }
        assert(statements@ =~= Seq::<Statement>::empty());
    }
    let ghost before = statements@;
    statements.push(loop_body);
    proof {
        lemma_stmt_models_push(before, loop_body);
        assert(stmt_models(statements@) =~= match init_model {
            Some(i) => seq![i, loop_model],
            None => seq![loop_model],
        });
    }
    Statement::BlockStmt(statements)
}

impl Parser {
    #[verifier::spinoff_prover]
    fn statement(&mut self) -> (r: Result<Statement, SyntaxError>)
        requires
            old(self).wf(),
        ensures
            final(self).keeps(old(self)),
            grammar::statement(old(self).tokens@, old(self).current as int) == stmt_outcome(
                r,
                final(self).current as int,
            ),
            r is Ok ==> old(self).current < final(self).current,
        decreases old(self).tokens@.len() - old(self).current, 18int,
    {
        if self.match_any(&[TokenType::If]) {
            self.if_statement()
        } else if self.match_any(&[TokenType::While]) {
            self.while_statement()
        } else if self.match_any(&[TokenType::For]) {
            self.for_statement()
        } else if self.match_any(&[TokenType::Print]) {
            self.print_statement()
        } else if self.match_any(&[TokenType::LeftBrace]) {
            self.block_statement()
        } else if self.match_any(&[TokenType::Return]) {
            self.return_statement()
        } else {
            self.expression_statement()
        }
    }

    fn return_statement(&mut self) -> (r: Result<Statement, SyntaxError>)
        requires
            old(self).wf(),
            1 <= old(self).current,
        ensures
            final(self).keeps(old(self)),
            grammar::return_statement(old(self).tokens@, old(self).current as int)
                == stmt_outcome(r, final(self).current as int),
            r is Ok ==> old(self).current < final(self).current,
        decreases old(self).tokens@.len() - old(self).current, 17int,
    {
        let keyword = self.previous().clone();
        let mut expr = None;
        if !self.check(&TokenType::Semicolon) {
            expr = Some(self.expression()?);
        }
        self.expect(&TokenType::Semicolon)?;
        Ok(Statement::ReturnStmt(keyword, expr))
    }

    fn for_statement(&mut self) -> (r: Result<Statement, SyntaxError>)
        requires
            old(self).wf(),
        ensures
            final(self).keeps(old(self)),
            grammar::for_statement(old(self).tokens@, old(self).current as int) == stmt_outcome(
                r,
                final(self).current as int,
            ),
            r is Ok ==> old(self).current < final(self).current,
        decreases old(self).tokens@.len() - old(self).current, 17int,
    {
        let ghost toks = self.tokens@;
        let ghost p0 = self.current as int;
        self.expect(&TokenType::LeftParen)?;
        let ghost q = self.current as int;
        let initializer = if self.match_any(&[TokenType::Semicolon]) {
            None
        } else if self.match_any(&[TokenType::Var]) {
            let init = match self.var_declaration() {
                Ok(s) => s,
                Err(e) => {
                    assert(grammar::for_initializer(toks, q) == Err::<(Option<StmtModel>, int), SyntaxError>(e));
                    return Err(e);
                },
            };
            Some(Box::new(init))
        } else {
            let init = match self.expression_statement() {
                Ok(s) => s,
                Err(e) => {
                    assert(grammar::for_initializer(toks, q) == Err::<(Option<StmtModel>, int), SyntaxError>(e));
                    return Err(e);
                },
            };
            Some(Box::new(init))
        };
        let ghost q1 = self.current as int;
        assert(grammar::for_initializer(toks, q) == Ok::<(Option<StmtModel>, int), SyntaxError>((opt_box_model(initializer), q1)));
        let condition = if !self.check(&TokenType::Semicolon) {
            match self.expression() {
                Ok(c) => Some(c),
                Err(e) => {
                    assert(grammar::optional_expression(toks, q1, TokenType::Semicolon) == Err::<(Option<ExprModel>, int), SyntaxError>(e));
                    return Err(e);
                },
            }
        } else {
            None
        };
        let ghost q2 = self.current as int;
        assert(grammar::optional_expression(toks, q1, TokenType::Semicolon) == Ok::<(Option<ExprModel>, int), SyntaxError>((opt_model(condition), q2)));
        self.expect(&TokenType::Semicolon)?;
        let ghost q3 = self.current as int;
        let increment = if !self.check(&TokenType::RightParen) {
            match self.expression() {
                Ok(c) => Some(c),
                Err(e) => {
                    assert(grammar::optional_expression(toks, q3, TokenType::RightParen) == Err::<(Option<ExprModel>, int), SyntaxError>(e));
                    return Err(e);
                },
            }
        } else {
            None
        };
        let ghost q4 = self.current as int;
        assert(grammar::optional_expression(toks, q3, TokenType::RightParen) == Ok::<(Option<ExprModel>, int), SyntaxError>((opt_model(increment), q4)));
        self.expect(&TokenType::RightParen)?;
        let body = self.statement()?;
        Ok(desugar_for(initializer, condition, increment, body))
    }

    fn while_statement(&mut self) -> (r: Result<Statement, SyntaxError>)
        requires
            old(self).wf(),
        ensures
            final(self).keeps(old(self)),
            grammar::while_statement(old(self).tokens@, old(self).current as int)
                == stmt_outcome(r, final(self).current as int),
            r is Ok ==> old(self).current < final(self).current,
        decreases old(self).tokens@.len() - old(self).current, 18int,
    {
        let ghost toks = self.tokens@;
        let ghost p0 = self.current as int;
        self.expect(&TokenType::LeftParen)?;
        let condition = match self.expression() {
            Ok(c) => c,
            Err(e) => {
                assert(grammar::condition(toks, p0) == Err::<(ExprModel, int), SyntaxError>(e));
                return Err(e);
            },
        };
        match self.expect(&TokenType::RightParen) {
            Ok(_) => {},
            Err(e) => {
                assert(grammar::condition(toks, p0) == Err::<(ExprModel, int), SyntaxError>(e));
                return Err(e);
            },
        }
        assert(grammar::condition(toks, p0) == Ok::<(ExprModel, int), SyntaxError>((condition@, self.current as int)));
        let body = self.statement()?;
        Ok(Statement::WhileStmt(condition, Box::new(body)))
    }

    fn if_statement(&mut self) -> (r: Result<Statement, SyntaxError>)
        requires
            old(self).wf(),
        ensures
            final(self).keeps(old(self)),
            grammar::if_statement(old(self).tokens@, old(self).current as int) == stmt_outcome(
                r,
                final(self).current as int,
            ),
            r is Ok ==> old(self).current < final(self).current,
        decreases old(self).tokens@.len() - old(self).current, 18int,
    {
        let ghost toks = self.tokens@;
        let ghost p0 = self.current as int;
        self.expect(&TokenType::LeftParen)?;
        let condition = match self.expression() {
            Ok(c) => c,
            Err(e) => {
                assert(grammar::condition(toks, p0) == Err::<(ExprModel, int), SyntaxError>(e));
                return Err(e);
            },
        };
        match self.expect(&TokenType::RightParen) {
            Ok(_) => {},
            Err(e) => {
                assert(grammar::condition(toks, p0) == Err::<(ExprModel, int), SyntaxError>(e));
                return Err(e);
            },
        }
        assert(grammar::condition(toks, p0) == Ok::<(ExprModel, int), SyntaxError>((condition@, self.current as int)));
        let then_branch = Box::new(self.statement()?);
        let mut else_branch: Option<Box<Statement>> = None;
        if self.match_any(&[TokenType::Else]) {
            else_branch = Some(Box::new(self.statement()?));
        }
        Ok(Statement::IfStmt(condition, then_branch, else_branch))
    }

    fn block_statement(&mut self) -> (r: Result<Statement, SyntaxError>)
        requires
            old(self).wf(),
        ensures
            final(self).keeps(old(self)),
            grammar::block_statement(old(self).tokens@, old(self).current as int)
                == stmt_outcome(r, final(self).current as int),
            r is Ok ==> old(self).current < final(self).current,
        decreases old(self).tokens@.len() - old(self).current, 21int,
    {
        let ghost toks = self.tokens@;
        let ghost p0 = self.current as int;
        let mut stmts: Vec<Statement> = Vec::new();
        proof {
            lemma_stmt_models_push(stmts@, Statement::PrintStmt(Expr::Literal(Literal::Nil)));
            assert(stmts@ =~= Seq::<Statement>::empty());
        }
        while !self.check(&TokenType::RightBrace) && !self.is_at_end()
            invariant
                self.wf(),
                self.tokens@ == toks,
                toks == old(self).tokens@,
                p0 == old(self).current,
                p0 <= self.current,
                grammar::block_statement(toks, p0) == grammar::block_rest(
                    toks,
                    self.current as int,
                    stmt_models(stmts@),
                ),
            decreases toks.len() - self.current,
        {
            let ghost before = stmts@;
            let s = self.declaration()?;
            stmts.push(s);
            proof {
                lemma_stmt_models_push(before, s);
            }
        }
        self.expect(&TokenType::RightBrace)?;
        Ok(Statement::BlockStmt(stmts))
    }

    fn expression_statement(&mut self) -> (r: Result<Statement, SyntaxError>)
        requires
            old(self).wf(),
        ensures
            final(self).keeps(old(self)),
            grammar::expression_statement(old(self).tokens@, old(self).current as int)
                == stmt_outcome(r, final(self).current as int),
            r is Ok ==> old(self).current < final(self).current,
        decreases old(self).tokens@.len() - old(self).current, 17int,
    {
        let expr = self.expression()?;
        self.expect(&TokenType::Semicolon)?;
        Ok(Statement::ExpressionStmt(expr))
    }

    fn print_statement(&mut self) -> (r: Result<Statement, SyntaxError>)
        requires
            old(self).wf(),
        ensures
            final(self).keeps(old(self)),
            grammar::print_statement(old(self).tokens@, old(self).current as int)
                == stmt_outcome(r, final(self).current as int),
            r is Ok ==> old(self).current < final(self).current,
        decreases old(self).tokens@.len() - old(self).current, 17int,
    {
        let expr = self.expression()?;
        self.expect(&TokenType::Semicolon)?;
        Ok(Statement::PrintStmt(expr))
    }

    fn declaration(&mut self) -> (r: Result<Statement, SyntaxError>)
        requires
            old(self).wf(),
        ensures
            final(self).keeps(old(self)),
            grammar::declaration(old(self).tokens@, old(self).current as int) == stmt_outcome(
                r,
                final(self).current as int,
            ),
            r is Ok ==> old(self).current < final(self).current,
        decreases old(self).tokens@.len() - old(self).current, 19int,
    {
        if self.match_any(&[TokenType::Var]) {
            self.var_declaration()
        } else if self.match_any(&[TokenType::Fun]) {
            let name = self.expect(&TokenType::Identifier)?.clone();
            self.function(name, FunctionType::FUNCTION)
        } else if self.match_any(&[TokenType::Class]) {
            self.class_declaration()
        } else {
            self.statement()
        }
    }

    fn class_declaration(&mut self) -> (r: Result<Statement, SyntaxError>)
        requires
            old(self).wf(),
        ensures
            final(self).keeps(old(self)),
            grammar::class_declaration(old(self).tokens@, old(self).current as int)
                == stmt_outcome(r, final(self).current as int),
            r is Ok ==> old(self).current < final(self).current,
        decreases old(self).tokens@.len() - old(self).current, 21int,
    {
        let ghost toks = self.tokens@;
        let ghost p0 = self.current as int;
        let name = self.expect(&TokenType::Identifier)?.clone();
        let mut super_class = None;
        if self.match_any(&[TokenType::Less]) {
            let superclass_name = self.expect(&TokenType::Identifier)?.clone();
            super_class = Some(Expr::Variable(superclass_name, self.current - 1));
        }
        self.match_any(&[TokenType::LeftBrace]);
        let mut methods: Vec<Statement> = Vec::new();
        proof {
            lemma_stmt_models_push(methods@, Statement::PrintStmt(Expr::Literal(Literal::Nil)));
            assert(methods@ =~= Seq::<Statement>::empty());
        }
        let ghost sup = opt_model(super_class);
        assert(grammar::class_declaration(toks, p0) == grammar::class_rest(toks, self.current as int, name, stmt_models(methods@), sup));
        while !self.check(&TokenType::RightBrace) && !self.is_at_end()
            invariant
                self.wf(),
                self.tokens@ == toks,
                toks == old(self).tokens@,
                p0 == old(self).current,
                p0 < self.current,
                grammar::class_declaration(toks, p0) == grammar::class_rest(
                    toks,
                    self.current as int,
                    name,
                    stmt_models(methods@),
                    sup,
                ),
            decreases toks.len() - self.current,
        {
            let ghost c = self.current as int;
            let ghost before = methods@;
            let method_name = self.expect(&TokenType::Identifier)?.clone();
            let function_type = if is_init(&method_name.lexeme) {
                FunctionType::INIT
            } else {
                FunctionType::METHOD
            };
            let m = match self.function(method_name, function_type) {
                Ok(m) => m,
                Err(e) => {
                    assert(grammar::class_rest(toks, c, name, stmt_models(before), sup) == Err::<(StmtModel, int), SyntaxError>(e));
                    return Err(e);
                },
            };
            methods.push(m);
            proof {
                lemma_stmt_models_push(before, m);
            }
        }
        self.expect(&TokenType::RightBrace)?;
        Ok(Statement::ClassStmt(name, methods, super_class))
    }

    fn function(&mut self, name: Token, function_type: FunctionType) -> (r: Result<
        Statement,
        SyntaxError,
    >)
        requires
            old(self).wf(),
        ensures
            final(self).keeps(old(self)),
            grammar::function(old(self).tokens@, old(self).current as int, name, function_type)
                == stmt_outcome(r, final(self).current as int),
            r is Ok ==> old(self).current < final(self).current,
        decreases old(self).tokens@.len() - old(self).current, 21int,
    {
        let ghost toks = self.tokens@;
        let ghost p0 = self.current as int;
        self.expect(&TokenType::LeftParen)?;
        let ghost q = self.current as int;
        let mut params: Vec<Token> = vec![];
        if !self.check(&TokenType::RightParen) {
            let first = match self.expect(&TokenType::Identifier) {
                Ok(t) => t.clone(),
                Err(e) => {
                    assert(grammar::parameters(toks, q) == Err::<(Seq<Token>, int), SyntaxError>(e));
                    return Err(e);
                },
            };
            params.push(first);
            assert(params@ =~= seq![toks[q]]);
            loop
                invariant
                    self.wf(),
                    self.tokens@ == toks,
                    toks == old(self).tokens@,
                    p0 == old(self).current,
                    p0 < q < self.current,
                    grammar::expect(toks, p0, TokenType::LeftParen) == Ok::<int, SyntaxError>(q),
                    grammar::parameters(toks, q) == grammar::params_rest(toks, self.current as int, params@),
                ensures
                    self.wf(),
                    self.tokens@ == toks,
                    q < self.current,
                    grammar::parameters(toks, q) == Ok::<(Seq<Token>, int), SyntaxError>((params@, self.current as int)),
                decreases toks.len() - self.current,
            {
                let ghost c = self.current as int;
                if !self.match_any(&[TokenType::Comma]) {
                    break;
                }
                let param = match self.expect(&TokenType::Identifier) {
                    Ok(t) => t.clone(),
                    Err(e) => {
                        assert(grammar::params_rest(toks, c, params@) == Err::<(Seq<Token>, int), SyntaxError>(e));
                        assert(grammar::parameters(toks, q) == Err::<(Seq<Token>, int), SyntaxError>(e));
                        return Err(e);
                    },
                };
                params.push(param);
            }
        } else {
            assert(params@ =~= Seq::<Token>::empty());
        }
        self.expect(&TokenType::RightParen)?;
        self.expect(&TokenType::LeftBrace)?;
        let body = self.block_statement()?;
        Ok(Statement::FunctionStmt(name, params, Rc::new(Box::new(body)), function_type))
    }

    fn var_declaration(&mut self) -> (r: Result<Statement, SyntaxError>)
        requires
            old(self).wf(),
        ensures
            final(self).keeps(old(self)),
            grammar::var_declaration(old(self).tokens@, old(self).current as int)
                == stmt_outcome(r, final(self).current as int),
            r is Ok ==> old(self).current < final(self).current,
        decreases old(self).tokens@.len() - old(self).current, 17int,
    {
        let name = self.expect(&TokenType::Identifier)?.clone();
        let initializer = if self.match_any(&[TokenType::Equal]) {
            Some(self.expression()?)
        } else {
            None
        };
        self.expect(&TokenType::Semicolon)?;
        Ok(Statement::VarStmt(name, initializer))
    }
}


impl Parser {
    /// Parses declarations up to the end of input.
    pub fn parse(&mut self) -> (r: Result<Vec<Statement>, ParseError>)
        requires
            has_eof_from(old(self).tokens(), old(self).position()),
        ensures
            final(self).tokens() == old(self).tokens(),
            match grammar::program(old(self).tokens(), old(self).position(), seq![]) {
                Ok(ss) => r matches Ok(v) && stmt_models(v@) == ss,
                Err(e) => r matches Err(pe) && pe.message@ == error_message(e) && pe.line
                    == error_line(e),
            },
    {
        proof {
            vstd::std_specs::vec::axiom_spec_len(&self.tokens);
        }
        match self.declarations() {
            Ok(statements) => Ok(statements),
            Err(e) => Err(report(e)),
        }
    }

    fn declarations(&mut self) -> (r: Result<Vec<Statement>, SyntaxError>)
        requires
            old(self).wf(),
        ensures
            final(self).tokens@ == old(self).tokens@,
            grammar::program(old(self).tokens@, old(self).current as int, seq![]) == match r {
                Ok(v) => Ok::<Seq<StmtModel>, SyntaxError>(stmt_models(v@)),
                Err(e) => Err(e),
            },
    {
        let ghost toks = self.tokens@;
        let ghost p0 = self.current as int;
        let mut statements: Vec<Statement> = Vec::new();
        proof {
            lemma_stmt_models_push(statements@, Statement::PrintStmt(Expr::Literal(Literal::Nil)));
            assert(statements@ =~= Seq::<Statement>::empty());
        }
        while !self.is_at_end()
            invariant
                self.wf(),
                self.tokens@ == toks,
                toks == old(self).tokens@,
                p0 == old(self).current,
                grammar::program(toks, p0, seq![]) == grammar::program(
                    toks,
                    self.current as int,
                    stmt_models(statements@),
                ),
            decreases toks.len() - self.current,
        {
            let ghost before = statements@;
            let s = self.declaration()?;
            statements.push(s);
            proof {
                lemma_stmt_models_push(before, s);
            }
        }
        Ok(statements)
    }
}

} // verus!
