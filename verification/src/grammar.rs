use vstd::prelude::*;

use crate::expr::ExprModel;
use crate::stmt::{FunctionType, StmtModel};
use crate::token::{Token, TokenType};

verus! {

// The syntax of the language, stated as a function of the token sequence and
// a position in it. Each rule yields either the tree it recognizes together
// with the position after it, or the syntax error it stops at.
//
// Each rule carries a rank: a rule that calls another without consuming a
// token calls one of lower rank. Where a rule continues from a position
// returned by another rule, it first checks that this position has not moved
// backwards or past the end; the parser shows that it never does.

/// A syntax error and the line it was found on.
#[derive(Clone, Copy, Debug, PartialEq, Eq, Structural)]
pub enum SyntaxError {
    Expected { expected: TokenType, found: TokenType, line: usize },
    InvalidAssignmentTarget { line: usize },
    ExpectedExpression { line: usize },
}

pub type ExprResult = Result<(ExprModel, int), SyntaxError>;

pub type StmtResult = Result<(StmtModel, int), SyntaxError>;

/// The kind of token at `p` (end of input past the last token).
pub open spec fn kind(toks: Seq<Token>, p: int) -> TokenType {
    if 0 <= p < toks.len() {
        toks[p].token_type
    } else {
        TokenType::EOF
    }
}

pub open spec fn at_end(toks: Seq<Token>, p: int) -> bool {
    kind(toks, p) == TokenType::EOF
}

/// Whether the token at `p` is of kind `t` (never at the end of input).
pub open spec fn check(toks: Seq<Token>, p: int, t: TokenType) -> bool {
    !at_end(toks, p) && kind(toks, p) == t
}

pub open spec fn check_any(toks: Seq<Token>, p: int, ts: Seq<TokenType>) -> bool {
    !at_end(toks, p) && ts.contains(kind(toks, p))
}

pub open spec fn line_at(toks: Seq<Token>, p: int) -> usize {
    if 0 <= p < toks.len() {
        toks[p].line
    } else {
        0
    }
}

/// Consumes a token of kind `t` at `p`, or reports what was found instead.
pub open spec fn expect(toks: Seq<Token>, p: int, t: TokenType) -> Result<int, SyntaxError> {
    if check(toks, p, t) {
        Ok(p + 1)
    } else {
        Err(SyntaxError::Expected { expected: t, found: kind(toks, p), line: line_at(toks, p) })
    }
}

pub open spec fn moved(toks: Seq<Token>, p: int, q: int) -> bool {
    p <= q <= toks.len()
}

/// The error of a rule whose sub-rule succeeded without consuming a token.
/// The parser's contracts show that a successful rule always consumes one,
/// so in practice this is only the error for a number or string token that
/// carries no literal value.
pub open spec fn stalled(toks: Seq<Token>, p: int) -> SyntaxError {
    SyntaxError::ExpectedExpression { line: line_at(toks, p) }
}

/// The operators of each binary level: factor, term, comparison, equality,
/// `and`, `or`.
pub open spec fn level_ops(level: int) -> Seq<TokenType> {
    if level == 0 {
        seq![TokenType::Slash, TokenType::Star]
    } else if level == 1 {
        seq![TokenType::Minus, TokenType::Plus]
    } else if level == 2 {
        seq![TokenType::Greater, TokenType::GreaterEqual, TokenType::Less, TokenType::LessEqual]
    } else if level == 3 {
        seq![TokenType::BangEqual, TokenType::EqualEqual]
    } else if level == 4 {
        seq![TokenType::And]
    } else {
        seq![TokenType::Or]
    }
}

/// The node that joins two operands: arithmetic and comparison levels build
/// `Binary` nodes, `and` and `or` build `Logical` nodes.
pub open spec fn join(level: int, left: ExprModel, operator: Token, right: ExprModel) -> ExprModel {
    if level <= 3 {
        ExprModel::Binary { left: Box::new(left), operator, right: Box::new(right) }
    } else {
        ExprModel::Logical { left: Box::new(left), operator, right: Box::new(right) }
    }
}

// --- Expressions ------------------------------------------------------------

pub open spec fn expression(toks: Seq<Token>, p: int) -> ExprResult
    decreases toks.len() - p, 16int,
{
    assignment(toks, p)
}

pub open spec fn assignment(toks: Seq<Token>, p: int) -> ExprResult
    decreases toks.len() - p, 15int,
{
    match binary(toks, p, 5) {
        Err(e) => Err(e),
        Ok((ex, p1)) => if !moved(toks, p, p1) {
            Err(stalled(toks, p))
        } else if check(toks, p1, TokenType::Equal) {
            let line = toks[p1].line;
            match assignment(toks, p1 + 1) {
                Err(e) => Err(e),
                Ok((value, p2)) => match ex {
                    ExprModel::Variable(name, id) => Ok(
                        (ExprModel::Assignment { name, id, value: Box::new(value) }, p2),
                    ),
                    ExprModel::Get { object, name } => Ok(
                        (ExprModel::SetProperty { object, name, value: Box::new(value) }, p2),
                    ),
                    _ => Err(SyntaxError::InvalidAssignmentTarget { line }),
                },
            }
        } else {
            Ok((ex, p1))
        },
    }
}

/// A left-associative chain of operands of the next level down, joined by
/// the operators of `level`.
pub open spec fn binary(toks: Seq<Token>, p: int, level: int) -> ExprResult
    decreases toks.len() - p, 4 + 2 * level,
{
    if level < 0 || level > 5 {
        Err(stalled(toks, p))
    } else {
        let first = if level == 0 {
            unary(toks, p)
        } else {
            binary(toks, p, level - 1)
        };
        match first {
            Err(e) => Err(e),
            Ok((e, p1)) => if moved(toks, p, p1) {
                binary_rest(toks, p1, e, level)
            } else {
                Err(stalled(toks, p))
            },
        }
    }
}

pub open spec fn binary_rest(toks: Seq<Token>, p: int, left: ExprModel, level: int) -> ExprResult
    decreases toks.len() - p, 3 + 2 * level,
{
    if level < 0 || level > 5 {
        Err(stalled(toks, p))
    } else if check_any(toks, p, level_ops(level)) {
        let next = if level == 0 {
            unary(toks, p + 1)
        } else {
            binary(toks, p + 1, level - 1)
        };
        match next {
            Err(e) => Err(e),
            Ok((right, p2)) => if moved(toks, p + 1, p2) {
                binary_rest(toks, p2, join(level, left, toks[p], right), level)
            } else {
                Err(stalled(toks, p))
            },
        }
    } else {
        Ok((left, p))
    }
}

pub open spec fn unary(toks: Seq<Token>, p: int) -> ExprResult
    decreases toks.len() - p, 2int,
{
    if check_any(toks, p, seq![TokenType::Bang, TokenType::Minus]) {
        match unary(toks, p + 1) {
            Err(e) => Err(e),
            Ok((right, p2)) => Ok((ExprModel::Unary { operator: toks[p], right: Box::new(right) }, p2)),
        }
    } else {
        call(toks, p)
    }
}

pub open spec fn call(toks: Seq<Token>, p: int) -> ExprResult
    decreases toks.len() - p, 1int,
{
    match primary(toks, p) {
        Err(e) => Err(e),
        Ok((e, p1)) => if moved(toks, p, p1) {
            call_rest(toks, p1, e)
        } else {
            Err(stalled(toks, p))
        },
    }
}

/// Calls and property accesses that follow a primary expression.
pub open spec fn call_rest(toks: Seq<Token>, p: int, callee: ExprModel) -> ExprResult
    decreases toks.len() - p, 0int,
{
    if check(toks, p, TokenType::LeftParen) {
        match finish_call(toks, p + 1, callee) {
            Err(e) => Err(e),
            Ok((e, p2)) => if moved(toks, p + 1, p2) {
                call_rest(toks, p2, e)
            } else {
                Err(stalled(toks, p))
            },
        }
    } else if check(toks, p, TokenType::Dot) {
        match expect(toks, p + 1, TokenType::Identifier) {
            Err(e) => Err(e),
            Ok(p2) => call_rest(
                toks,
                p2,
                ExprModel::Get { object: Box::new(callee), name: toks[p + 1] },
            ),
        }
    } else {
        Ok((callee, p))
    }
}

/// The arguments of a call whose opening parenthesis has been consumed.
pub open spec fn finish_call(toks: Seq<Token>, p: int, callee: ExprModel) -> ExprResult
    decreases toks.len() - p, 17int,
{
    if !check(toks, p, TokenType::RightParen) {
        match expression(toks, p) {
            Err(e) => Err(e),
            Ok((a, p1)) => if moved(toks, p, p1) {
                args_rest(toks, p1, seq![a], callee)
            } else {
                Err(stalled(toks, p))
            },
        }
    } else {
        close_call(toks, p, seq![], callee)
    }
}

pub open spec fn args_rest(toks: Seq<Token>, p: int, args: Seq<ExprModel>, callee: ExprModel) -> ExprResult
    decreases toks.len() - p, 0int,
{
    if check(toks, p, TokenType::Comma) {
        match expression(toks, p + 1) {
            Err(e) => Err(e),
            Ok((a, p2)) => if moved(toks, p + 1, p2) {
                args_rest(toks, p2, args.push(a), callee)
            } else {
                Err(stalled(toks, p))
            },
        }
    } else {
        close_call(toks, p, args, callee)
    }
}

pub open spec fn close_call(toks: Seq<Token>, p: int, args: Seq<ExprModel>, callee: ExprModel) -> ExprResult {
    match expect(toks, p, TokenType::RightParen) {
        Err(e) => Err(e),
        Ok(q) => Ok((ExprModel::Call { callee: Box::new(callee), token: toks[p], args }, q)),
    }
}

pub open spec fn primary(toks: Seq<Token>, p: int) -> ExprResult
    decreases toks.len() - p, 0int,
{
    if check(toks, p, TokenType::False) {
        Ok((ExprModel::Literal(crate::token::Literal::Boolean(false)), p + 1))
    } else if check(toks, p, TokenType::True) {
        Ok((ExprModel::Literal(crate::token::Literal::Boolean(true)), p + 1))
    } else if check(toks, p, TokenType::Nil) {
        Ok((ExprModel::Literal(crate::token::Literal::Nil), p + 1))
    } else if check_any(toks, p, seq![TokenType::Number, TokenType::String]) {
        match toks[p].literal {
            Some(l) => Ok((ExprModel::Literal(l), p + 1)),
            None => Err(stalled(toks, p)),
        }
    } else if check(toks, p, TokenType::LeftParen) {
        match expression(toks, p + 1) {
            Err(e) => Err(e),
            Ok((e, p2)) => match expect(toks, p2, TokenType::RightParen) {
                Err(err) => Err(err),
                Ok(p3) => Ok((ExprModel::Grouping { expr: Box::new(e) }, p3)),
            },
        }
    } else if check(toks, p, TokenType::This) {
        Ok((ExprModel::This { token: toks[p], id: p as usize }, p + 1))
    } else if check(toks, p, TokenType::Identifier) {
        Ok((ExprModel::Variable(toks[p], p as usize), p + 1))
    } else if check(toks, p, TokenType::Super) {
        match expect(toks, p + 1, TokenType::Dot) {
            Err(e) => Err(e),
            Ok(p2) => match expect(toks, p2, TokenType::Identifier) {
                Err(e) => Err(e),
                Ok(p3) => Ok(
                    (ExprModel::Super { keyword: toks[p], method: toks[p2], id: p as usize }, p3),
                ),
            },
        }
    } else {
        Err(SyntaxError::ExpectedExpression { line: line_at(toks, p) })
    }
}

// --- Statements -------------------------------------------------------------

pub open spec fn statement(toks: Seq<Token>, p: int) -> StmtResult
    decreases toks.len() - p, 18int,
{
    if check(toks, p, TokenType::If) {
        if_statement(toks, p + 1)
    } else if check(toks, p, TokenType::While) {
        while_statement(toks, p + 1)
    } else if check(toks, p, TokenType::For) {
        for_statement(toks, p + 1)
    } else if check(toks, p, TokenType::Print) {
        print_statement(toks, p + 1)
    } else if check(toks, p, TokenType::LeftBrace) {
        block_statement(toks, p + 1)
    } else if check(toks, p, TokenType::Return) {
        return_statement(toks, p + 1)
    } else {
        expression_statement(toks, p)
    }
}

/// A `return` statement whose keyword is the token before `p`.
pub open spec fn return_statement(toks: Seq<Token>, p: int) -> StmtResult
    decreases toks.len() - p, 17int,
{
    let keyword = toks[p - 1];
    if !check(toks, p, TokenType::Semicolon) {
        match expression(toks, p) {
            Err(e) => Err(e),
            Ok((e, p1)) => match expect(toks, p1, TokenType::Semicolon) {
                Err(err) => Err(err),
                Ok(p2) => Ok((StmtModel::Return(keyword, Some(e)), p2)),
            },
        }
    } else {
        match expect(toks, p, TokenType::Semicolon) {
            Err(err) => Err(err),
            Ok(p2) => Ok((StmtModel::Return(keyword, None), p2)),
        }
    }
}

/// The block a `for` loop stands for: the initializer, then a `while` loop
/// on the condition (on `true` where there is none) whose body runs the loop
/// body and then the increment.
pub open spec fn desugar_for(
    init: Option<StmtModel>,
    cond: Option<ExprModel>,
    incr: Option<ExprModel>,
    body: StmtModel,
) -> StmtModel {
    let block_body = match incr {
        Some(i) => seq![body, StmtModel::Expression(i)],
        None => seq![body],
    };
    let c = match cond {
        Some(c) => c,
        None => ExprModel::Literal(crate::token::Literal::Boolean(true)),
    };
    let loop_body = StmtModel::While(c, Box::new(StmtModel::Block(block_body)));
    match init {
        Some(s) => StmtModel::Block(seq![s, loop_body]),
        None => StmtModel::Block(seq![loop_body]),
    }
}

pub open spec fn for_initializer(toks: Seq<Token>, p: int) -> Result<(Option<StmtModel>, int), SyntaxError>
    decreases toks.len() - p, 18int,
{
    if check(toks, p, TokenType::Semicolon) {
        Ok((None, p + 1))
    } else if check(toks, p, TokenType::Var) {
        match var_declaration(toks, p + 1) {
            Err(e) => Err(e),
            Ok((s, p1)) => Ok((Some(s), p1)),
        }
    } else {
        match expression_statement(toks, p) {
            Err(e) => Err(e),
            Ok((s, p1)) => Ok((Some(s), p1)),
        }
    }
}

/// An optional expression, absent where the token at `p` is `stop`.
pub open spec fn optional_expression(toks: Seq<Token>, p: int, stop: TokenType) -> Result<
    (Option<ExprModel>, int),
    SyntaxError,
>
    decreases toks.len() - p, 17int,
{
    if !check(toks, p, stop) {
        match expression(toks, p) {
            Err(e) => Err(e),
            Ok((e, p1)) => Ok((Some(e), p1)),
        }
    } else {
        Ok((None, p))
    }
}

pub open spec fn for_statement(toks: Seq<Token>, p: int) -> StmtResult
    decreases toks.len() - p, 17int,
{
    match expect(toks, p, TokenType::LeftParen) {
        Err(e) => Err(e),
        Ok(q) => match for_initializer(toks, q) {
            Err(e) => Err(e),
            Ok((init, q1)) => if !moved(toks, q, q1) {
                Err(stalled(toks, p))
            } else {
                match optional_expression(toks, q1, TokenType::Semicolon) {
                    Err(e) => Err(e),
                    Ok((cond, q2)) => match expect(toks, q2, TokenType::Semicolon) {
                        Err(e) => Err(e),
                        Ok(q3) => if !moved(toks, q1, q3) {
                            Err(stalled(toks, p))
                        } else {
                            match optional_expression(toks, q3, TokenType::RightParen) {
                                Err(e) => Err(e),
                                Ok((incr, q4)) => match expect(toks, q4, TokenType::RightParen) {
                                    Err(e) => Err(e),
                                    Ok(q5) => if !moved(toks, q3, q5) {
                                        Err(stalled(toks, p))
                                    } else {
                                        match statement(toks, q5) {
                                            Err(e) => Err(e),
                                            Ok((body, q6)) => Ok(
                                                (desugar_for(init, cond, incr, body), q6),
                                            ),
                                        }
                                    },
                                },
                            }
                        },
                    },
                }
            },
        },
    }
}

/// A parenthesized condition: the expression and the position after `)`.
pub open spec fn condition(toks: Seq<Token>, p: int) -> ExprResult
    decreases toks.len() - p, 17int,
{
    match expect(toks, p, TokenType::LeftParen) {
        Err(e) => Err(e),
        Ok(q) => match expression(toks, q) {
            Err(e) => Err(e),
            Ok((c, q1)) => match expect(toks, q1, TokenType::RightParen) {
                Err(e) => Err(e),
                Ok(q2) => Ok((c, q2)),
            },
        },
    }
}

pub open spec fn while_statement(toks: Seq<Token>, p: int) -> StmtResult
    decreases toks.len() - p, 18int,
{
    match condition(toks, p) {
        Err(e) => Err(e),
        Ok((c, q)) => if !moved(toks, p + 1, q) {
            Err(stalled(toks, p))
        } else {
            match statement(toks, q) {
                Err(e) => Err(e),
                Ok((body, q1)) => Ok((StmtModel::While(c, Box::new(body)), q1)),
            }
        },
    }
}

pub open spec fn if_statement(toks: Seq<Token>, p: int) -> StmtResult
    decreases toks.len() - p, 18int,
{
    match condition(toks, p) {
        Err(e) => Err(e),
        Ok((c, q)) => if !moved(toks, p + 1, q) {
            Err(stalled(toks, p))
        } else {
            match statement(toks, q) {
                Err(e) => Err(e),
                Ok((then_branch, q1)) => if !moved(toks, q, q1) {
                    Err(stalled(toks, p))
                } else if check(toks, q1, TokenType::Else) {
                    match statement(toks, q1 + 1) {
                        Err(e) => Err(e),
                        Ok((else_branch, q2)) => Ok(
                            (
                                StmtModel::If(
                                    c,
                                    Box::new(then_branch),
                                    Some(Box::new(else_branch)),
                                ),
                                q2,
                            ),
                        ),
                    }
                } else {
                    Ok((StmtModel::If(c, Box::new(then_branch), None), q1))
                },
            }
        },
    }
}

/// A block whose opening brace has been consumed.
pub open spec fn block_statement(toks: Seq<Token>, p: int) -> StmtResult
    decreases toks.len() - p, 21int,
{
    block_rest(toks, p, seq![])
}

pub open spec fn block_rest(toks: Seq<Token>, p: int, acc: Seq<StmtModel>) -> StmtResult
    decreases toks.len() - p, 20int,
{
    if !check(toks, p, TokenType::RightBrace) && !at_end(toks, p) {
        match declaration(toks, p) {
            Err(e) => Err(e),
            Ok((s, p1)) => if p < p1 <= toks.len() {
                block_rest(toks, p1, acc.push(s))
            } else {
                Err(stalled(toks, p))
            },
        }
    } else {
        match expect(toks, p, TokenType::RightBrace) {
            Err(e) => Err(e),
            Ok(q) => Ok((StmtModel::Block(acc), q)),
        }
    }
}

pub open spec fn expression_statement(toks: Seq<Token>, p: int) -> StmtResult
    decreases toks.len() - p, 17int,
{
    match expression(toks, p) {
        Err(e) => Err(e),
        Ok((e, p1)) => match expect(toks, p1, TokenType::Semicolon) {
            Err(err) => Err(err),
            Ok(p2) => Ok((StmtModel::Expression(e), p2)),
        },
    }
}

pub open spec fn print_statement(toks: Seq<Token>, p: int) -> StmtResult
    decreases toks.len() - p, 17int,
{
    match expression(toks, p) {
        Err(e) => Err(e),
        Ok((e, p1)) => match expect(toks, p1, TokenType::Semicolon) {
            Err(err) => Err(err),
            Ok(p2) => Ok((StmtModel::Print(e), p2)),
        },
    }
}

pub open spec fn declaration(toks: Seq<Token>, p: int) -> StmtResult
    decreases toks.len() - p, 19int,
{
    if check(toks, p, TokenType::Var) {
        var_declaration(toks, p + 1)
    } else if check(toks, p, TokenType::Fun) {
        match expect(toks, p + 1, TokenType::Identifier) {
            Err(e) => Err(e),
            Ok(q) => function(toks, q, toks[p + 1], FunctionType::FUNCTION),
        }
    } else if check(toks, p, TokenType::Class) {
        class_declaration(toks, p + 1)
    } else {
        statement(toks, p)
    }
}

/// Whether a method name is `init`, in any mix of upper and lower case.
pub open spec fn is_init_name(w: Seq<char>) -> bool {
    &&& w.len() == 4
    &&& (w[0] == 'i' || w[0] == 'I')
    &&& (w[1] == 'n' || w[1] == 'N')
    &&& (w[2] == 'i' || w[2] == 'I')
    &&& (w[3] == 't' || w[3] == 'T')
}

pub open spec fn class_declaration(toks: Seq<Token>, p: int) -> StmtResult
    decreases toks.len() - p, 21int,
{
    match expect(toks, p, TokenType::Identifier) {
        Err(e) => Err(e),
        Ok(q) => {
            let name = toks[p];
            let sup: Result<(Option<ExprModel>, int), SyntaxError> = if check(
                toks,
                q,
                TokenType::Less,
            ) {
                match expect(toks, q + 1, TokenType::Identifier) {
                    Err(e) => Err(e),
                    Ok(q2) => Ok((Some(ExprModel::Variable(toks[q + 1], (q + 1) as usize)), q2)),
                }
            } else {
                Ok((None, q))
            };
            match sup {
                Err(e) => Err(e),
                Ok((superclass, q3)) => {
                    let q4 = if check(toks, q3, TokenType::LeftBrace) {
                        q3 + 1
                    } else {
                        q3
                    };
                    if !moved(toks, q, q4) {
                        Err(stalled(toks, p))
                    } else {
                        class_rest(toks, q4, name, seq![], superclass)
                    }
                },
            }
        },
    }
}

pub open spec fn class_rest(
    toks: Seq<Token>,
    p: int,
    name: Token,
    methods: Seq<StmtModel>,
    superclass: Option<ExprModel>,
) -> StmtResult
    decreases toks.len() - p, 21int,
{
    if !check(toks, p, TokenType::RightBrace) && !at_end(toks, p) {
        match expect(toks, p, TokenType::Identifier) {
            Err(e) => Err(e),
            Ok(q) => {
                let method_name = toks[p];
                let ft = if is_init_name(method_name.lexeme@) {
                    FunctionType::INIT
                } else {
                    FunctionType::METHOD
                };
                match function(toks, q, method_name, ft) {
                    Err(e) => Err(e),
                    Ok((m, q1)) => if moved(toks, q, q1) {
                        class_rest(toks, q1, name, methods.push(m), superclass)
                    } else {
                        Err(stalled(toks, p))
                    },
                }
            },
        }
    } else {
        match expect(toks, p, TokenType::RightBrace) {
            Err(e) => Err(e),
            Ok(q) => Ok((StmtModel::Class(name, methods, superclass), q)),
        }
    }
}

/// The parameter names after the first: each preceded by a comma.
pub open spec fn params_rest(toks: Seq<Token>, p: int, params: Seq<Token>) -> Result<
    (Seq<Token>, int),
    SyntaxError,
>
    decreases toks.len() - p,
{
    if check(toks, p, TokenType::Comma) {
        match expect(toks, p + 1, TokenType::Identifier) {
            Err(e) => Err(e),
            Ok(q) => params_rest(toks, q, params.push(toks[p + 1])),
        }
    } else {
        Ok((params, p))
    }
}

pub open spec fn parameters(toks: Seq<Token>, p: int) -> Result<(Seq<Token>, int), SyntaxError> {
    if !check(toks, p, TokenType::RightParen) {
        match expect(toks, p, TokenType::Identifier) {
            Err(e) => Err(e),
            Ok(q) => params_rest(toks, q, seq![toks[p]]),
        }
    } else {
        Ok((seq![], p))
    }
}

/// A function's parameter list and body, after its name.
pub open spec fn function(toks: Seq<Token>, p: int, name: Token, ft: FunctionType) -> StmtResult
    decreases toks.len() - p, 21int,
{
    match expect(toks, p, TokenType::LeftParen) {
        Err(e) => Err(e),
        Ok(q) => match parameters(toks, q) {
            Err(e) => Err(e),
            Ok((params, q1)) => match expect(toks, q1, TokenType::RightParen) {
                Err(e) => Err(e),
                Ok(q2) => match expect(toks, q2, TokenType::LeftBrace) {
                    Err(e) => Err(e),
                    Ok(q3) => if !moved(toks, q, q3) {
                        Err(stalled(toks, p))
                    } else {
                        match block_statement(toks, q3) {
                            Err(e) => Err(e),
                            Ok((body, q4)) => Ok(
                                (StmtModel::Function(name, params, Box::new(body), ft), q4),
                            ),
                        }
                    },
                },
            },
        },
    }
}

pub open spec fn var_declaration(toks: Seq<Token>, p: int) -> StmtResult
    decreases toks.len() - p, 17int,
{
    match expect(toks, p, TokenType::Identifier) {
        Err(e) => Err(e),
        Ok(q) => {
            let name = toks[p];
            if check(toks, q, TokenType::Equal) {
                match expression(toks, q + 1) {
                    Err(e) => Err(e),
                    Ok((e, q1)) => match expect(toks, q1, TokenType::Semicolon) {
                        Err(err) => Err(err),
                        Ok(q2) => Ok((StmtModel::Var(name, Some(e)), q2)),
                    },
                }
            } else {
                match expect(toks, q, TokenType::Semicolon) {
                    Err(err) => Err(err),
                    Ok(q2) => Ok((StmtModel::Var(name, None), q2)),
                }
            }
        },
    }
}

/// The declarations from `p` to the end of input, after those in `acc`.
pub open spec fn program(toks: Seq<Token>, p: int, acc: Seq<StmtModel>) -> Result<
    Seq<StmtModel>,
    SyntaxError,
>
    decreases toks.len() - p,
{
    if !at_end(toks, p) {
        match declaration(toks, p) {
            Err(e) => Err(e),
            Ok((s, p1)) => if p < p1 <= toks.len() {
                program(toks, p1, acc.push(s))
            } else {
                Err(stalled(toks, p))
            },
        }
    } else {
        Ok(acc)
    }
}

// --- Laws -------------------------------------------------------------------

/// The function type the parser gives a method: `INIT` for `init`, else
/// `METHOD`.
pub open spec fn method_kind(name: Token) -> FunctionType {
    if is_init_name(name.lexeme@) {
        FunctionType::INIT
    } else {
        FunctionType::METHOD
    }
}

/// Every function in the statement carries a function type other than
/// `NONE`, and every method of a class the type [`method_kind`] gives it.
pub open spec fn tagged(s: StmtModel) -> bool
    decreases s,
{
    match s {
        StmtModel::Block(ss) => all_tagged(ss),
        StmtModel::If(_, t, e) => tagged(*t) && match e {
            Some(b) => tagged(*b),
            None => true,
        },
        StmtModel::While(_, b) => tagged(*b),
        StmtModel::Function(_, _, body, ft) => ft != FunctionType::NONE && tagged(*body),
        StmtModel::Class(_, ms, _) => all_methods_tagged(ms),
        _ => true,
    }
}

pub open spec fn all_tagged(ss: Seq<StmtModel>) -> bool
    decreases ss,
{
    if ss.len() == 0 {
        true
    } else {
        all_tagged(ss.drop_last()) && tagged(ss.last())
    }
}

pub open spec fn all_methods_tagged(ms: Seq<StmtModel>) -> bool
    decreases ms,
{
    if ms.len() == 0 {
        true
    } else {
        all_methods_tagged(ms.drop_last()) && match ms.last() {
            StmtModel::Function(name, _, body, ft) => ft == method_kind(name) && tagged(*body),
            _ => false,
        }
    }
}

proof fn lemma_push_tagged(ss: Seq<StmtModel>, s: StmtModel)
    ensures
        all_tagged(ss.push(s)) == (all_tagged(ss) && tagged(s)),
        all_methods_tagged(ss.push(s)) == (all_methods_tagged(ss) && match s {
            StmtModel::Function(name, _, body, ft) => ft == method_kind(name) && tagged(*body),
            _ => false,
        }),
{
    assert(ss.push(s).drop_last() =~= ss);
}

proof fn lemma_desugar_tagged(
    init: Option<StmtModel>,
    cond: Option<ExprModel>,
    incr: Option<ExprModel>,
    body: StmtModel,
)
    requires
        init matches Some(s) ==> tagged(s),
        tagged(body),
    ensures
        tagged(desugar_for(init, cond, incr, body)),
{
    lemma_push_tagged(seq![], body);
    assert(seq![body] =~= Seq::<StmtModel>::empty().push(body));
    match incr {
        Some(i) => {
            lemma_push_tagged(seq![body], StmtModel::Expression(i));
            assert(seq![body, StmtModel::Expression(i)] =~= seq![body].push(StmtModel::Expression(i)));
        },
        None => {},
    }
    let block_body = match incr {
        Some(i) => seq![body, StmtModel::Expression(i)],
        None => seq![body],
    };
    let c = match cond {
        Some(c) => c,
        None => ExprModel::Literal(crate::token::Literal::Boolean(true)),
    };
    let loop_body = StmtModel::While(c, Box::new(StmtModel::Block(block_body)));
    assert(all_tagged(block_body));
    assert(tagged(StmtModel::Block(block_body)));
    assert(tagged(loop_body));
    lemma_push_tagged(seq![], loop_body);
    assert(seq![loop_body] =~= Seq::<StmtModel>::empty().push(loop_body));
    match init {
        Some(s) => {
            lemma_push_tagged(seq![], s);
            assert(seq![s] =~= Seq::<StmtModel>::empty().push(s));
            lemma_push_tagged(seq![s], loop_body);
            assert(seq![s, loop_body] =~= seq![s].push(loop_body));
            assert(all_tagged(seq![s, loop_body]));
        },
        None => {},
    }
}

proof fn lemma_statement_tagged(toks: Seq<Token>, p: int)
    ensures
        statement(toks, p) matches Ok((s, _)) ==> tagged(s),
    decreases toks.len() - p, 18int,
{
    if check(toks, p, TokenType::If) {
        lemma_if_tagged(toks, p + 1);
    } else if check(toks, p, TokenType::While) {
        lemma_while_tagged(toks, p + 1);
    } else if check(toks, p, TokenType::For) {
        lemma_for_tagged(toks, p + 1);
    } else if check(toks, p, TokenType::Print) {
    } else if check(toks, p, TokenType::LeftBrace) {
        lemma_block_statement_tagged(toks, p + 1);
    }
}

proof fn lemma_if_tagged(toks: Seq<Token>, p: int)
    ensures
        if_statement(toks, p) matches Ok((s, _)) ==> tagged(s),
    decreases toks.len() - p, 18int,
{
    match condition(toks, p) {
        Err(_) => {},
        Ok((_, q)) => if moved(toks, p + 1, q) {
            lemma_statement_tagged(toks, q);
            match statement(toks, q) {
                Err(_) => {},
                Ok((_, q1)) => if moved(toks, q, q1) && check(toks, q1, TokenType::Else) {
                    lemma_statement_tagged(toks, q1 + 1);
                },
            }
        },
    }
}

proof fn lemma_while_tagged(toks: Seq<Token>, p: int)
    ensures
        while_statement(toks, p) matches Ok((s, _)) ==> tagged(s),
    decreases toks.len() - p, 18int,
{
    match condition(toks, p) {
        Err(_) => {},
        Ok((_, q)) => if moved(toks, p + 1, q) {
            lemma_statement_tagged(toks, q);
        },
    }
}

proof fn lemma_for_tagged(toks: Seq<Token>, p: int)
    ensures
        for_statement(toks, p) matches Ok((s, _)) ==> tagged(s),
    decreases toks.len() - p, 17int,
{
    match expect(toks, p, TokenType::LeftParen) {
        Err(_) => {},
        Ok(q) => match for_initializer(toks, q) {
            Err(_) => {},
            Ok((init, q1)) => if moved(toks, q, q1) {
                match optional_expression(toks, q1, TokenType::Semicolon) {
                    Err(_) => {},
                    Ok((cond, q2)) => match expect(toks, q2, TokenType::Semicolon) {
                        Err(_) => {},
                        Ok(q3) => if moved(toks, q1, q3) {
                            match optional_expression(toks, q3, TokenType::RightParen) {
                                Err(_) => {},
                                Ok((incr, q4)) => match expect(toks, q4, TokenType::RightParen) {
                                    Err(_) => {},
                                    Ok(q5) => if moved(toks, q3, q5) {
                                        lemma_statement_tagged(toks, q5);
                                        match statement(toks, q5) {
                                            Err(_) => {},
                                            Ok((body, _)) => {
                                                lemma_desugar_tagged(init, cond, incr, body);
                                            },
                                        }
                                    },
                                },
                            }
                        },
                    },
                }
            },
        },
    }
}

proof fn lemma_block_statement_tagged(toks: Seq<Token>, p: int)
    ensures
        block_statement(toks, p) matches Ok((s, _)) ==> tagged(s),
    decreases toks.len() - p, 21int,
{
    lemma_block_rest_tagged(toks, p, seq![]);
}

proof fn lemma_block_rest_tagged(toks: Seq<Token>, p: int, acc: Seq<StmtModel>)
    requires
        all_tagged(acc),
    ensures
        block_rest(toks, p, acc) matches Ok((s, _)) ==> tagged(s),
    decreases toks.len() - p, 20int,
{
    if !check(toks, p, TokenType::RightBrace) && !at_end(toks, p) {
        lemma_declaration_tagged(toks, p);
        match declaration(toks, p) {
            Err(_) => {},
            Ok((s, p1)) => if p < p1 <= toks.len() {
                lemma_push_tagged(acc, s);
                lemma_block_rest_tagged(toks, p1, acc.push(s));
            },
        }
    }
}

proof fn lemma_declaration_tagged(toks: Seq<Token>, p: int)
    ensures
        declaration(toks, p) matches Ok((s, _)) ==> tagged(s),
    decreases toks.len() - p, 19int,
{
    if check(toks, p, TokenType::Var) {
    } else if check(toks, p, TokenType::Fun) {
        match expect(toks, p + 1, TokenType::Identifier) {
            Err(_) => {},
            Ok(q) => {
                lemma_function_tagged(toks, q, toks[p + 1], FunctionType::FUNCTION);
            },
        }
    } else if check(toks, p, TokenType::Class) {
        lemma_class_declaration_tagged(toks, p + 1);
    } else {
        lemma_statement_tagged(toks, p);
    }
}

proof fn lemma_function_tagged(toks: Seq<Token>, p: int, name: Token, ft: FunctionType)
    ensures
        function(toks, p, name, ft) matches Ok((s, _)) ==> (s matches StmtModel::Function(
            n,
            _,
            body,
            f,
        ) && n == name && f == ft && tagged(*body)),
    decreases toks.len() - p, 21int,
{
    match expect(toks, p, TokenType::LeftParen) {
        Err(_) => {},
        Ok(q) => match parameters(toks, q) {
            Err(_) => {},
            Ok((_, q1)) => match expect(toks, q1, TokenType::RightParen) {
                Err(_) => {},
                Ok(q2) => match expect(toks, q2, TokenType::LeftBrace) {
                    Err(_) => {},
                    Ok(q3) => if moved(toks, q, q3) {
                        lemma_block_statement_tagged(toks, q3);
                    },
                },
            },
        },
    }
}

proof fn lemma_class_declaration_tagged(toks: Seq<Token>, p: int)
    ensures
        class_declaration(toks, p) matches Ok((s, _)) ==> tagged(s),
    decreases toks.len() - p, 21int,
{
    match expect(toks, p, TokenType::Identifier) {
        Err(_) => {},
        Ok(q) => {
            let name = toks[p];
            let sup: Result<(Option<ExprModel>, int), SyntaxError> = if check(
                toks,
                q,
                TokenType::Less,
            ) {
                match expect(toks, q + 1, TokenType::Identifier) {
                    Err(e) => Err(e),
                    Ok(q2) => Ok((Some(ExprModel::Variable(toks[q + 1], (q + 1) as usize)), q2)),
                }
            } else {
                Ok((None, q))
            };
            match sup {
                Err(_) => {},
                Ok((superclass, q3)) => {
                    let q4 = if check(toks, q3, TokenType::LeftBrace) {
                        q3 + 1
                    } else {
                        q3
                    };
                    if moved(toks, q, q4) {
                        lemma_class_rest_tagged(toks, q4, name, seq![], superclass);
                    }
                },
            }
        },
    }
}

proof fn lemma_class_rest_tagged(
    toks: Seq<Token>,
    p: int,
    name: Token,
    methods: Seq<StmtModel>,
    superclass: Option<ExprModel>,
)
    requires
        all_methods_tagged(methods),
    ensures
        class_rest(toks, p, name, methods, superclass) matches Ok((s, _)) ==> tagged(s),
    decreases toks.len() - p, 21int,
{
    if !check(toks, p, TokenType::RightBrace) && !at_end(toks, p) {
        match expect(toks, p, TokenType::Identifier) {
            Err(_) => {},
            Ok(q) => {
                let method_name = toks[p];
                let ft = method_kind(method_name);
                lemma_function_tagged(toks, q, method_name, ft);
                match function(toks, q, method_name, ft) {
                    Err(_) => {},
                    Ok((m, q1)) => if moved(toks, q, q1) {
                        lemma_push_tagged(methods, m);
                        lemma_class_rest_tagged(toks, q1, name, methods.push(m), superclass);
                    },
                }
            },
        }
    }
}

proof fn lemma_program_tagged(toks: Seq<Token>, p: int, acc: Seq<StmtModel>)
    requires
        all_tagged(acc),
    ensures
        program(toks, p, acc) matches Ok(ss) ==> all_tagged(ss),
    decreases toks.len() - p,
{
    if !at_end(toks, p) {
        lemma_declaration_tagged(toks, p);
        match declaration(toks, p) {
            Err(_) => {},
            Ok((s, p1)) => if p < p1 <= toks.len() {
                lemma_push_tagged(acc, s);
                lemma_program_tagged(toks, p1, acc.push(s));
            },
        }
    }
}

/// The parser tags every function it builds: a `fun` declaration, at any
/// depth, never carries `NONE`, and each method of a class carries
/// `METHOD`, or `INIT` when it is named `init`.
pub proof fn lemma_parsed_functions_are_tagged(toks: Seq<Token>, p: int)
    ensures
        program(toks, p, seq![]) matches Ok(ss) ==> all_tagged(ss),
{
    lemma_program_tagged(toks, p, seq![]);
}

/// An `if` statement's then-branch is the statement that follows the
/// parenthesized condition, and its else-branch, when there is one, is the
/// statement that follows the `else` after the then-branch; without an
/// `else` there, there is no else-branch.
pub proof fn lemma_if_branches(toks: Seq<Token>, p: int)
    ensures
        if_statement(toks, p) matches Ok((s, q)) ==> {
            &&& s matches StmtModel::If(c, t, e)
            &&& condition(toks, p) matches Ok((c0, q0))
            &&& c0 == c
            &&& statement(toks, q0) matches Ok((t0, q1))
            &&& t0 == *t
            &&& match e {
                Some(b) => check(toks, q1, TokenType::Else) && statement(toks, q1 + 1) == Ok::<
                    (StmtModel, int),
                    SyntaxError,
                >((*b, q)),
                None => !check(toks, q1, TokenType::Else) && q == q1,
            }
        },
{
}

/// A kind that no operator level and no call suffix takes: the end of an
/// operand.
pub open spec fn ends_operand(t: TokenType) -> bool {
    t == TokenType::Semicolon || t == TokenType::RightParen || t == TokenType::Comma
}

pub open spec fn is_comparison(t: TokenType) -> bool {
    t == TokenType::Greater || t == TokenType::GreaterEqual || t == TokenType::Less || t
        == TokenType::LessEqual
}

proof fn lemma_not_in_ops(t: TokenType)
    requires
        ends_operand(t) || is_comparison(t),
    ensures
        !level_ops(0).contains(t),
        !level_ops(1).contains(t),
        !seq![TokenType::Bang, TokenType::Minus].contains(t),
        is_comparison(t) ==> level_ops(2).contains(t),
        ends_operand(t) ==> !level_ops(2).contains(t),
        ends_operand(t) ==> !level_ops(3).contains(t),
        ends_operand(t) ==> !level_ops(4).contains(t),
        ends_operand(t) ==> !level_ops(5).contains(t),
{
    assert forall|i: int| 0 <= i < level_ops(0).len() implies level_ops(0)[i] != t by {}
    assert forall|i: int| 0 <= i < level_ops(1).len() implies level_ops(1)[i] != t by {}
    assert forall|i: int| 0 <= i < 2 implies seq![TokenType::Bang, TokenType::Minus][i] != t by {}
    if ends_operand(t) {
        assert forall|i: int| 0 <= i < level_ops(2).len() implies level_ops(2)[i] != t by {}
        assert forall|i: int| 0 <= i < level_ops(3).len() implies level_ops(3)[i] != t by {}
        assert forall|i: int| 0 <= i < level_ops(4).len() implies level_ops(4)[i] != t by {}
        assert forall|i: int| 0 <= i < level_ops(5).len() implies level_ops(5)[i] != t by {}
    }
    if t == TokenType::Greater {
        assert(level_ops(2)[0] == t);
    } else if t == TokenType::GreaterEqual {
        assert(level_ops(2)[1] == t);
    } else if t == TokenType::Less {
        assert(level_ops(2)[2] == t);
    } else if t == TokenType::LessEqual {
        assert(level_ops(2)[3] == t);
    }
}

/// An identifier followed by a comparison operator or the end of an operand
/// is a whole operand of the comparison level.
proof fn lemma_identifier_operand(toks: Seq<Token>, p: int)
    requires
        0 <= p,
        p + 1 < toks.len(),
        toks[p].token_type == TokenType::Identifier,
        ends_operand(toks[p + 1].token_type) || is_comparison(toks[p + 1].token_type),
    ensures
        binary(toks, p, 1) == Ok::<(ExprModel, int), SyntaxError>(
            (ExprModel::Variable(toks[p], p as usize), p + 1),
        ),
{
    let v = ExprModel::Variable(toks[p], p as usize);
    lemma_not_in_ops(toks[p + 1].token_type);
    lemma_not_in_ops(TokenType::Semicolon);
    assert(!seq![TokenType::Bang, TokenType::Minus].contains(TokenType::Identifier)) by {
        assert forall|i: int| 0 <= i < 2 implies seq![TokenType::Bang, TokenType::Minus][i]
            != TokenType::Identifier by {}
    }
    assert(!seq![TokenType::Number, TokenType::String].contains(TokenType::Identifier)) by {
        assert forall|i: int| 0 <= i < 2 implies seq![TokenType::Number, TokenType::String][i]
            != TokenType::Identifier by {}
    }
    assert(primary(toks, p) == Ok::<(ExprModel, int), SyntaxError>((v, p + 1)));
    assert(call_rest(toks, p + 1, v) == Ok::<(ExprModel, int), SyntaxError>((v, p + 1)));
    assert(call(toks, p) == Ok::<(ExprModel, int), SyntaxError>((v, p + 1)));
    assert(unary(toks, p) == Ok::<(ExprModel, int), SyntaxError>((v, p + 1)));
    assert(binary_rest(toks, p + 1, v, 0) == Ok::<(ExprModel, int), SyntaxError>((v, p + 1)));
    assert(binary(toks, p, 0) == Ok::<(ExprModel, int), SyntaxError>((v, p + 1)));
    assert(binary_rest(toks, p + 1, v, 1) == Ok::<(ExprModel, int), SyntaxError>((v, p + 1)));
}

/// Each of the four comparison operators `>`, `>=`, `<`, `<=` joins two
/// operands: `a OP b ;` is the expression statement holding the binary
/// expression of `a`, the operator token and `b`.
pub proof fn lemma_comparison_operators(toks: Seq<Token>, p: int)
    requires
        0 <= p,
        p + 3 < toks.len(),
        toks[p].token_type == TokenType::Identifier,
        is_comparison(toks[p + 1].token_type),
        toks[p + 2].token_type == TokenType::Identifier,
        toks[p + 3].token_type == TokenType::Semicolon,
    ensures
        expression(toks, p) == Ok::<(ExprModel, int), SyntaxError>(
            (
                ExprModel::Binary {
                    left: Box::new(ExprModel::Variable(toks[p], p as usize)),
                    operator: toks[p + 1],
                    right: Box::new(ExprModel::Variable(toks[p + 2], (p + 2) as usize)),
                },
                p + 3,
            ),
        ),
        expression_statement(toks, p) == Ok::<(StmtModel, int), SyntaxError>(
            (
                StmtModel::Expression(
                    ExprModel::Binary {
                        left: Box::new(ExprModel::Variable(toks[p], p as usize)),
                        operator: toks[p + 1],
                        right: Box::new(ExprModel::Variable(toks[p + 2], (p + 2) as usize)),
                    },
                ),
                p + 4,
            ),
        ),
{
    let v = ExprModel::Variable(toks[p], p as usize);
    let w = ExprModel::Variable(toks[p + 2], (p + 2) as usize);
    let b = ExprModel::Binary { left: Box::new(v), operator: toks[p + 1], right: Box::new(w) };
    lemma_identifier_operand(toks, p);
    lemma_identifier_operand(toks, p + 2);
    lemma_not_in_ops(toks[p + 1].token_type);
    lemma_not_in_ops(TokenType::Semicolon);
    assert(join(2, v, toks[p + 1], w) == b);
    assert(binary_rest(toks, p + 3, b, 2) == Ok::<(ExprModel, int), SyntaxError>((b, p + 3)));
    assert(binary_rest(toks, p + 1, v, 2) == Ok::<(ExprModel, int), SyntaxError>((b, p + 3)));
    assert(binary(toks, p, 2) == Ok::<(ExprModel, int), SyntaxError>((b, p + 3)));
    assert(binary_rest(toks, p + 3, b, 3) == Ok::<(ExprModel, int), SyntaxError>((b, p + 3)));
    assert(binary(toks, p, 3) == Ok::<(ExprModel, int), SyntaxError>((b, p + 3)));
    assert(binary_rest(toks, p + 3, b, 4) == Ok::<(ExprModel, int), SyntaxError>((b, p + 3)));
    assert(binary(toks, p, 4) == Ok::<(ExprModel, int), SyntaxError>((b, p + 3)));
    assert(binary_rest(toks, p + 3, b, 5) == Ok::<(ExprModel, int), SyntaxError>((b, p + 3)));
    assert(binary(toks, p, 5) == Ok::<(ExprModel, int), SyntaxError>((b, p + 3)));
    assert(assignment(toks, p) == Ok::<(ExprModel, int), SyntaxError>((b, p + 3)));
}

/// A `while` loop's condition is the parenthesized expression after the
/// keyword and its body the statement that follows it.
pub proof fn lemma_while_parts(toks: Seq<Token>, p: int)
    ensures
        while_statement(toks, p) matches Ok((s, q)) ==> {
            &&& s matches StmtModel::While(c, b)
            &&& condition(toks, p) matches Ok((c0, q0))
            &&& c0 == c
            &&& statement(toks, q0) == Ok::<(StmtModel, int), SyntaxError>((*b, q))
        },
{
}

} // verus!
