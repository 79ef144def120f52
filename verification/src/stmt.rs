use vstd::prelude::*;
use std::rc::Rc;

use crate::expr::{Expr, ExprModel};
use crate::token::Token;

verus! {

/// The kind of function a body belongs to; `NONE` stands for top-level code.
#[derive(Clone, Copy, Debug, PartialEq, Eq, Structural)]
pub enum FunctionType {
    NONE,
    FUNCTION,
    METHOD,
    INIT,
}

/// The kind of class a body belongs to; `NONE` stands for code outside any class.
#[derive(Clone, Copy, Debug, PartialEq, Eq, Structural)]
pub enum ClassType {
    NONE,
    CLASS,
    SUBCLASS,
}

/// A statement of the language. A `for` loop has no statement of its own: the
/// parser turns it into a block holding a `while` loop.
#[derive(Debug)]
pub enum Statement {
    ExpressionStmt(Expr),
    PrintStmt(Expr),
    VarStmt(Token, Option<Expr>),
    BlockStmt(Vec<Statement>),
    IfStmt(Expr, Box<Statement>, Option<Box<Statement>>),
    WhileStmt(Expr, Box<Statement>),
    FunctionStmt(Token, Vec<Token>, Rc<Box<Statement>>, FunctionType),
    ReturnStmt(Token, Option<Expr>),
    ClassStmt(Token, Vec<Statement>, Option<Expr>),
}

/// The mathematical model of a [`Statement`].
pub enum StmtModel {
    Expression(ExprModel),
    Print(ExprModel),
    Var(Token, Option<ExprModel>),
    Block(Seq<StmtModel>),
    If(ExprModel, Box<StmtModel>, Option<Box<StmtModel>>),
    While(ExprModel, Box<StmtModel>),
    Function(Token, Seq<Token>, Box<StmtModel>, FunctionType),
    Return(Token, Option<ExprModel>),
    Class(Token, Seq<StmtModel>, Option<ExprModel>),
}

pub open spec fn opt_expr_model(e: Option<Expr>) -> Option<ExprModel> {
    match e {
        Some(e) => Some(e@),
        None => None,
    }
}

pub open spec fn stmt_model(s: Statement) -> StmtModel
    decreases s,
{
    match s {
        Statement::ExpressionStmt(e) => StmtModel::Expression(e@),
        Statement::PrintStmt(e) => StmtModel::Print(e@),
        Statement::VarStmt(t, e) => StmtModel::Var(t, opt_expr_model(e)),
        Statement::BlockStmt(ss) => StmtModel::Block(stmt_models(ss@)),
        Statement::IfStmt(c, t, e) => StmtModel::If(
            c@,
            Box::new(stmt_model(*t)),
            match e {
                Some(e) => Some(Box::new(stmt_model(*e))),
                None => None,
            },
        ),
        Statement::WhileStmt(c, b) => StmtModel::While(c@, Box::new(stmt_model(*b))),
        Statement::FunctionStmt(name, params, body, ft) => StmtModel::Function(
            name,
            params@,
            Box::new(stmt_model(**body)),
            ft,
        ),
        Statement::ReturnStmt(t, e) => StmtModel::Return(t, opt_expr_model(e)),
        Statement::ClassStmt(name, methods, sup) => StmtModel::Class(
            name,
            stmt_models(methods@),
            opt_expr_model(sup),
        ),
    }
}

pub open spec fn stmt_models(ss: Seq<Statement>) -> Seq<StmtModel>
    decreases ss,
{
    if ss.len() == 0 {
        seq![]
    } else {
        stmt_models(ss.drop_last()).push(stmt_model(ss.last()))
    }
}

impl View for Statement {
    type V = StmtModel;

    open spec fn view(&self) -> StmtModel {
        stmt_model(*self)
    }
}

} // verus!
