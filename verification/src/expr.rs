use vstd::prelude::*;

use crate::token::{Literal, Token};

verus! {

/// An expression of the language.
///
/// `Variable`, `Assignment`, `This` and `Super` carry the position of their
/// name token in the token stream: it identifies the node for the resolver.
#[derive(Debug)]
pub enum Expr {
    Literal(Literal),
    Unary { operator: Token, right: Box<Expr> },
    Binary { left: Box<Expr>, operator: Token, right: Box<Expr> },
    Grouping { expr: Box<Expr> },
    Variable(Token, usize),
    Assignment { name: Token, id: usize, value: Box<Expr> },
    Logical { left: Box<Expr>, operator: Token, right: Box<Expr> },
    Call { callee: Box<Expr>, token: Token, args: Vec<Expr> },
    Get { object: Box<Expr>, name: Token },
    SetProperty { object: Box<Expr>, name: Token, value: Box<Expr> },
    This { token: Token, id: usize },
    Super { keyword: Token, method: Token, id: usize },
}

/// The mathematical model of an [`Expr`]: the same tree, with sequences in
/// place of vectors.
pub enum ExprModel {
    Literal(Literal),
    Unary { operator: Token, right: Box<ExprModel> },
    Binary { left: Box<ExprModel>, operator: Token, right: Box<ExprModel> },
    Grouping { expr: Box<ExprModel> },
    Variable(Token, usize),
    Assignment { name: Token, id: usize, value: Box<ExprModel> },
    Logical { left: Box<ExprModel>, operator: Token, right: Box<ExprModel> },
    Call { callee: Box<ExprModel>, token: Token, args: Seq<ExprModel> },
    Get { object: Box<ExprModel>, name: Token },
    SetProperty { object: Box<ExprModel>, name: Token, value: Box<ExprModel> },
    This { token: Token, id: usize },
    Super { keyword: Token, method: Token, id: usize },
}

pub open spec fn expr_model(e: Expr) -> ExprModel
    decreases e,
{
    match e {
        Expr::Literal(l) => ExprModel::Literal(l),
        Expr::Unary { operator, right } => ExprModel::Unary {
            operator,
            right: Box::new(expr_model(*right)),
        },
        Expr::Binary { left, operator, right } => ExprModel::Binary {
            left: Box::new(expr_model(*left)),
            operator,
            right: Box::new(expr_model(*right)),
        },
        Expr::Grouping { expr } => ExprModel::Grouping { expr: Box::new(expr_model(*expr)) },
        Expr::Variable(t, id) => ExprModel::Variable(t, id),
        Expr::Assignment { name, id, value } => ExprModel::Assignment {
            name,
            id,
            value: Box::new(expr_model(*value)),
        },
        Expr::Logical { left, operator, right } => ExprModel::Logical {
            left: Box::new(expr_model(*left)),
            operator,
            right: Box::new(expr_model(*right)),
        },
        Expr::Call { callee, token, args } => ExprModel::Call {
            callee: Box::new(expr_model(*callee)),
            token,
            args: expr_models(args@),
        },
        Expr::Get { object, name } => ExprModel::Get { object: Box::new(expr_model(*object)), name },
        Expr::SetProperty { object, name, value } => ExprModel::SetProperty {
            object: Box::new(expr_model(*object)),
            name,
            value: Box::new(expr_model(*value)),
        },
        Expr::This { token, id } => ExprModel::This { token, id },
        Expr::Super { keyword, method, id } => ExprModel::Super { keyword, method, id },
    }
}

pub open spec fn expr_models(es: Seq<Expr>) -> Seq<ExprModel>
    decreases es,
{
    if es.len() == 0 {
        seq![]
    } else {
        expr_models(es.drop_last()).push(expr_model(es.last()))
    }
}

impl View for Expr {
    type V = ExprModel;

    open spec fn view(&self) -> ExprModel {
        expr_model(*self)
    }
}


pub proof fn lemma_expr_models_len(es: Seq<Expr>)
    ensures
        expr_models(es).len() == es.len(),
    decreases es.len(),
{
    if es.len() > 0 {
        lemma_expr_models_len(es.drop_last());
    }
}

/// How a literal is written: numbers and strings as their text, booleans as
/// `true` or `false`, and `nil`.
pub open spec fn literal_text(l: Literal) -> Seq<char> {
    match l {
        Literal::Number(s) => s@,
        Literal::String(s) => s@,
        Literal::Boolean(b) => if b {
            "true"@
        } else {
            "false"@
        },
        Literal::Nil => "nil"@,
    }
}

/// The printed form of an expression tree.
pub open spec fn expr_text(m: ExprModel) -> Seq<char>
    decreases m,
{
    match m {
        ExprModel::Literal(l) => literal_text(l),
        ExprModel::Unary { operator, right } => "("@ + operator.lexeme@ + expr_text(*right) + ")"@,
        ExprModel::Binary { left, operator, right } => "("@ + operator.lexeme@ + " "@ + expr_text(
            *left,
        ) + " "@ + expr_text(*right) + ")"@,
        ExprModel::Grouping { expr } => "(group "@ + expr_text(*expr) + ")"@,
        ExprModel::Variable(name, _) => "$"@ + name.lexeme@,
        ExprModel::Assignment { name, value, .. } => "("@ + name.lexeme@ + " = "@ + expr_text(*value)
            + ")"@,
        ExprModel::Logical { left, operator, right } => "("@ + operator.lexeme@ + " "@ + expr_text(
            *left,
        ) + " "@ + expr_text(*right) + ")"@,
        ExprModel::Call { callee, token, args } => expr_text(*callee) + ","@ + token.lexeme@ + ","@
            + args_text(args),
        ExprModel::Get { object, name } => "("@ + expr_text(*object) + "."@ + name.lexeme@ + ")"@,
        ExprModel::SetProperty { object, name, value } => "("@ + expr_text(*object) + "."@
            + name.lexeme@ + " = "@ + expr_text(*value) + ")"@,
        ExprModel::This { token, .. } => token.lexeme@,
        ExprModel::Super { keyword, method, .. } => keyword.lexeme@ + "."@ + method.lexeme@,
    }
}

/// The printed forms of the arguments of a call, separated by commas.
pub open spec fn args_text(args: Seq<ExprModel>) -> Seq<char>
    decreases args,
{
    if args.len() == 0 {
        seq![]
    } else if args.len() == 1 {
        expr_text(args[0])
    } else {
        args_text(args.drop_last()) + ","@ + expr_text(args.last())
    }
}

/// The displayed form of an expression tree: it differs from the printed
/// form only at the root.
pub open spec fn display_text(m: ExprModel) -> Seq<char> {
    match m {
        ExprModel::Variable(name, _) => name.lexeme@,
        ExprModel::Assignment { name, value, .. } => "("@ + name.lexeme@ + " = "@ + expr_text(*value),
        ExprModel::Call { callee, token, args } => "("@ + expr_text(*callee) + " "@ + token.lexeme@
            + " "@ + args_text(args) + ")"@,
        _ => expr_text(m),
    }
}

fn literal_string(l: &Literal) -> (r: String)
    ensures
        r@ == literal_text(*l),
{
    match l {
        Literal::Number(s) => s.clone(),
        Literal::String(s) => s.clone(),
        Literal::Boolean(b) => if *b {
            String::from_str("true")
        } else {
            String::from_str("false")
        },
        Literal::Nil => String::from_str("nil"),
    }
}

impl Expr {
    /// The expression tree in a parenthesized prefix notation.
    pub fn print(&self) -> (r: String)
        ensures
            r@ == expr_text(self@),
        decreases self, 1int,
    {
        match self {
            Expr::Literal(lit) => literal_string(lit),
            Expr::Unary { operator, right } => {
                let mut s = String::from_str("(");
                s.append(operator.lexeme.as_str());
                s.append(right.print().as_str());
                s.append(")");
                s
            },
            Expr::Binary { left, operator, right } => {
                let mut s = String::from_str("(");
                s.append(operator.lexeme.as_str());
                s.append(" ");
                s.append(left.print().as_str());
                s.append(" ");
                s.append(right.print().as_str());
                s.append(")");
                s
            },
            Expr::Grouping { expr } => {
                let mut s = String::from_str("(group ");
                s.append(expr.print().as_str());
                s.append(")");
                s
            },
            Expr::Variable(name, _) => {
                let mut s = String::from_str("$");
                s.append(name.lexeme.as_str());
                s
            },
            Expr::Assignment { name, value, .. } => {
                let mut s = String::from_str("(");
                s.append(name.lexeme.as_str());
                s.append(" = ");
                s.append(value.print().as_str());
                s.append(")");
                s
            },
            Expr::Logical { left, operator, right } => {
                let mut s = String::from_str("(");
                s.append(operator.lexeme.as_str());
                s.append(" ");
                s.append(left.print().as_str());
                s.append(" ");
                s.append(right.print().as_str());
                s.append(")");
                s
            },
            Expr::Call { callee, token, .. } => {
                let mut s = callee.print();
                s.append(",");
                s.append(token.lexeme.as_str());
                s.append(",");
                s.append(self.call_args_text().as_str());
                s
            },
            Expr::Get { object, name } => {
                let mut s = String::from_str("(");
                s.append(object.print().as_str());
                s.append(".");
                s.append(name.lexeme.as_str());
                s.append(")");
                s
            },
            Expr::SetProperty { object, name, value } => {
                let mut s = String::from_str("(");
                s.append(object.print().as_str());
                s.append(".");
                s.append(name.lexeme.as_str());
                s.append(" = ");
                s.append(value.print().as_str());
                s.append(")");
                s
            },
            Expr::This { token, .. } => token.lexeme.clone(),
            Expr::Super { keyword, method, .. } => {
                let mut s = keyword.lexeme.clone();
                s.append(".");
                s.append(method.lexeme.as_str());
                s
            },
        }
    }

    /// The printed forms of a call's arguments, separated by commas.
    fn call_args_text(&self) -> (r: String)
        requires
            self is Call,
        ensures
            r@ == args_text(self@->Call_args),
        decreases self, 0int,
    {
        match self {
            Expr::Call { args, .. } => {
                let mut s = String::new();
                let mut i: usize = 0;
                proof {
                    lemma_expr_models_len(args@);
                    assert(args@.take(0) =~= Seq::<Expr>::empty());
                    assert forall|j: int| 0 <= j < args@.len() implies decreases_to!(self => args@[j]) by {
                        assert(decreases_to!(self => *args));
                        assert(decreases_to!(*args => args@));
                        assert(decreases_to!(args@ => args@[j]));
                    }
                }
                while i < args.len()
                    invariant
                        i <= args@.len(),
                        s@ == args_text(expr_models(args@.take(i as int))),
                        expr_models(args@) == self@->Call_args,
                        forall|j: int| 0 <= j < args@.len() ==> decreases_to!(self => args@[j]),
                    decreases args@.len() - i,
                {
                    let text = args[i].print();
                    let ghost before = expr_models(args@.take(i as int));
                    if i > 0 {
                        s.append(",");
                    }
                    s.append(text.as_str());
                    proof {
                        assert(args@.take(i + 1).drop_last() =~= args@.take(i as int));
                        lemma_expr_models_len(args@.take(i as int));
                        assert(expr_models(args@.take(i + 1)) == before.push(args@[i as int]@));
                        if i > 0 {
                            assert(before.push(args@[i as int]@).drop_last() =~= before);
                        } else {
                            assert(before.push(args@[i as int]@) =~= seq![args@[i as int]@]);
                        }
                    }
                    i = i + 1;
                }
                assert(args@.take(args@.len() as int) =~= args@);
                s
            },
            _ => String::new(),
        }
    }

    /// The expression written for display: like [`Expr::print`] one level
    /// down, with a variable shown by its name, an assignment left without
    /// its closing parenthesis, and a call written `(callee token args)`.
    pub fn display(&self) -> (r: String)
        ensures
            r@ == display_text(self@),
    {
        match self {
            Expr::Variable(name, _) => name.lexeme.clone(),
            Expr::Assignment { name, value, .. } => {
                let mut s = String::from_str("(");
                s.append(name.lexeme.as_str());
                s.append(" = ");
                s.append(value.print().as_str());
                s
            },
            Expr::Call { callee, token, .. } => {
                let mut s = String::from_str("(");
                s.append(callee.print().as_str());
                s.append(" ");
                s.append(token.lexeme.as_str());
                s.append(" ");
                s.append(self.call_args_text().as_str());
                s.append(")");
                s
            },
            _ => self.print(),
        }
    }
}

} // verus!
