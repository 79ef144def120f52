use vstd::prelude::*;

use crate::expr::ExprModel;
use crate::stmt::{ClassType, FunctionType, StmtModel};
use crate::token::Token;

verus! {

// What the resolver computes, stated over the models of the syntax tree.
//
// The resolver walks the tree once, keeping a stack of scopes. Each scope is
// the ordered list of the names declared in it, each with a flag that turns
// true once the name's initializer has been resolved. The position of a name
// in its scope is the slot that the evaluator's environment gives it, because
// both only ever append.

/// A static error, with the line of the token it concerns.
pub enum StaticError {
    ReturnOutsideFunction,
    ReturnValueFromInit { line: usize },
    ThisOutsideClass { line: usize },
    SuperOutsideClass { line: usize },
    SuperWithoutSuperclass { line: usize },
    InheritsFromItself { line: usize },
    OwnInitializer { line: usize },
    Redeclared { name: Seq<char>, line: usize },
}

pub type Scope = Seq<(Seq<char>, bool)>;

/// The resolver's state.
pub struct ResolverState {
    pub scopes: Seq<Scope>,
    pub locals: Map<usize, (usize, usize)>,
    pub function: FunctionType,
    pub class: ClassType,
    pub had_error: bool,
    pub errors: Seq<StaticError>,
}

pub open spec fn with_scopes(st: ResolverState, scopes: Seq<Scope>) -> ResolverState {
    ResolverState { scopes, ..st }
}

pub open spec fn with_function(st: ResolverState, function: FunctionType) -> ResolverState {
    ResolverState { function, ..st }
}

pub open spec fn with_class(st: ResolverState, class: ClassType) -> ResolverState {
    ResolverState { class, ..st }
}

pub open spec fn report(st: ResolverState, e: StaticError) -> ResolverState {
    ResolverState { had_error: true, errors: st.errors.push(e), ..st }
}

/// Whether the scope holds the name.
pub open spec fn holds(scope: Scope, name: Seq<char>) -> bool {
    exists|i: int| 0 <= i < scope.len() && #[trigger] scope[i].0 == name
}

/// The last position of the name in the scope.
pub open spec fn last_index(scope: Scope, name: Seq<char>) -> Option<int>
    decreases scope.len(),
{
    if scope.len() == 0 {
        None
    } else if scope.last().0 == name {
        Some(scope.len() - 1)
    } else {
        last_index(scope.drop_last(), name)
    }
}

/// Where a name resolves: how many scopes out from the innermost, and its
/// slot there. Names declared in no scope are global.
pub open spec fn lookup(scopes: Seq<Scope>, name: Seq<char>) -> Option<(int, int)>
    decreases scopes.len(),
{
    if scopes.len() == 0 {
        None
    } else {
        match last_index(scopes.last(), name) {
            Some(i) => Some((0, i)),
            None => match lookup(scopes.drop_last(), name) {
                Some((d, i)) => Some((d + 1, i)),
                None => None,
            },
        }
    }
}

pub open spec fn begin_scope(st: ResolverState) -> ResolverState {
    with_scopes(st, st.scopes.push(seq![]))
}

pub open spec fn end_scope(st: ResolverState) -> ResolverState {
    if st.scopes.len() == 0 {
        st
    } else {
        with_scopes(st, st.scopes.drop_last())
    }
}

/// Adds a name, already usable, to the innermost scope.
pub open spec fn push_ready(st: ResolverState, name: Seq<char>) -> ResolverState {
    if st.scopes.len() == 0 {
        st
    } else {
        with_scopes(st, st.scopes.update(st.scopes.len() - 1, st.scopes.last().push((name, true))))
    }
}

/// Declares a name in the innermost scope, not yet usable; a name declared
/// twice in one local scope is an error. Globals are not tracked.
pub open spec fn declare(st: ResolverState, name: Token) -> ResolverState {
    if st.scopes.len() == 0 {
        st
    } else if holds(st.scopes.last(), name.lexeme@) {
        report(st, StaticError::Redeclared { name: name.lexeme@, line: name.line })
    } else {
        with_scopes(
            st,
            st.scopes.update(st.scopes.len() - 1, st.scopes.last().push((name.lexeme@, false))),
        )
    }
}

/// Marks the name in the innermost scope as usable.
pub open spec fn define(st: ResolverState, name: Token) -> ResolverState {
    if st.scopes.len() == 0 {
        st
    } else {
        match last_index(st.scopes.last(), name.lexeme@) {
            Some(i) => with_scopes(
                st,
                st.scopes.update(
                    st.scopes.len() - 1,
                    st.scopes.last().update(i, (name.lexeme@, true)),
                ),
            ),
            None => st,
        }
    }
}

/// Records where the expression with the given id resolves, if it is local.
pub open spec fn resolve_local(st: ResolverState, id: usize, name: Token) -> ResolverState {
    match lookup(st.scopes, name.lexeme@) {
        Some((d, i)) => ResolverState { locals: st.locals.insert(id, (d as usize, i as usize)), ..st },
        None => st,
    }
}

/// Whether the name is declared in the scope but its initializer is still
/// being resolved.
pub open spec fn in_own_initializer(scope: Scope, name: Seq<char>) -> bool {
    match last_index(scope, name) {
        Some(i) => !scope[i].1,
        None => false,
    }
}

pub open spec fn resolve_expr(st: ResolverState, e: ExprModel) -> ResolverState
    decreases e,
{
    match e {
        ExprModel::Variable(t, id) => if st.scopes.len() > 0 && in_own_initializer(
            st.scopes.last(),
            t.lexeme@,
        ) {
            report(st, StaticError::OwnInitializer { line: t.line })
        } else {
            resolve_local(st, id, t)
        },
        ExprModel::Assignment { name, id, value } => resolve_local(
            resolve_expr(st, *value),
            id,
            name,
        ),
        ExprModel::Binary { left, right, .. } => resolve_expr(resolve_expr(st, *left), *right),
        ExprModel::Call { callee, args, .. } => resolve_exprs(resolve_expr(st, *callee), args),
        ExprModel::Grouping { expr } => resolve_expr(st, *expr),
        ExprModel::Literal(_) => st,
        ExprModel::Logical { left, right, .. } => resolve_expr(resolve_expr(st, *left), *right),
        ExprModel::Unary { right, .. } => resolve_expr(st, *right),
        ExprModel::Get { object, .. } => resolve_expr(st, *object),
        ExprModel::SetProperty { object, value, .. } => resolve_expr(
            resolve_expr(st, *object),
            *value,
        ),
        ExprModel::This { token, id } => if st.class == ClassType::NONE {
            report(st, StaticError::ThisOutsideClass { line: token.line })
        } else {
            resolve_local(st, id, token)
        },
        ExprModel::Super { keyword, id, .. } => if st.class == ClassType::NONE {
            report(st, StaticError::SuperOutsideClass { line: keyword.line })
        } else if st.class != ClassType::SUBCLASS {
            report(st, StaticError::SuperWithoutSuperclass { line: keyword.line })
        } else {
            resolve_local(st, id, keyword)
        },
    }
}

pub open spec fn resolve_exprs(st: ResolverState, es: Seq<ExprModel>) -> ResolverState
    decreases es,
{
    if es.len() == 0 {
        st
    } else {
        resolve_expr(resolve_exprs(st, es.drop_last()), es.last())
    }
}

/// Declares and defines each parameter in turn.
pub open spec fn declare_params(st: ResolverState, params: Seq<Token>) -> ResolverState
    decreases params.len(),
{
    if params.len() == 0 {
        st
    } else {
        let s = declare_params(st, params.drop_last());
        define(declare(s, params.last()), params.last())
    }
}

pub open spec fn resolve_stmt(st: ResolverState, s: StmtModel) -> ResolverState
    decreases s,
{
    match s {
        StmtModel::Expression(e) => resolve_expr(st, e),
        StmtModel::Print(e) => resolve_expr(st, e),
        StmtModel::Var(name, init) => {
            let s1 = declare(st, name);
            let s2 = match init {
                Some(e) => resolve_expr(s1, e),
                None => s1,
            };
            define(s2, name)
        },
        StmtModel::Block(ss) => end_scope(resolve_stmts(begin_scope(st), ss)),
        StmtModel::If(c, t, e) => {
            let s1 = resolve_stmt(resolve_expr(st, c), *t);
            match e {
                Some(e) => resolve_stmt(s1, *e),
                None => s1,
            }
        },
        StmtModel::While(c, b) => resolve_stmt(resolve_expr(st, c), *b),
        StmtModel::Function(name, params, body, ft) => resolve_function(
            define(declare(st, name), name),
            params,
            *body,
            ft,
        ),
        StmtModel::Return(keyword, e) => if st.function == FunctionType::NONE {
            report(st, StaticError::ReturnOutsideFunction)
        } else {
            match e {
                Some(v) => if st.function == FunctionType::INIT {
                    resolve_expr(report(st, StaticError::ReturnValueFromInit { line: keyword.line }), v)
                } else {
                    resolve_expr(st, v)
                },
                None => st,
            }
        },
        StmtModel::Class(name, methods, sup) => {
            let enclosing = st.class;
            let s0 = define(declare(with_class(st, ClassType::CLASS), name), name);
            let s1 = if inherits_from_itself(name, sup) {
                report(s0, StaticError::InheritsFromItself { line: name.line })
            } else {
                s0
            };
            let s2 = match sup {
                Some(e) => resolve_expr(with_class(s1, ClassType::SUBCLASS), e),
                None => s1,
            };
            let s3 = match sup {
                Some(_) => push_ready(begin_scope(s2), "super"@),
                None => s2,
            };
            let s4 = push_ready(begin_scope(s3), "this"@);
            let s5 = end_scope(resolve_methods(s4, methods));
            let s6 = match sup {
                Some(_) => end_scope(s5),
                None => s5,
            };
            with_class(s6, enclosing)
        },
    }
}

/// Whether the class names itself as its superclass.
pub open spec fn inherits_from_itself(name: Token, sup: Option<ExprModel>) -> bool {
    match sup {
        Some(ExprModel::Variable(t, _)) => t.lexeme@ == name.lexeme@,
        _ => false,
    }
}

pub open spec fn resolve_stmts(st: ResolverState, ss: Seq<StmtModel>) -> ResolverState
    decreases ss,
{
    if ss.len() == 0 {
        st
    } else {
        resolve_stmt(resolve_stmts(st, ss.drop_last()), ss.last())
    }
}

/// Resolves the bodies of a class's methods, each as a function of its kind.
pub open spec fn resolve_methods(st: ResolverState, ms: Seq<StmtModel>) -> ResolverState
    decreases ms,
{
    if ms.len() == 0 {
        st
    } else {
        let s1 = resolve_methods(st, ms.drop_last());
        match ms.last() {
            StmtModel::Function(_, params, body, ft) => resolve_function(s1, params, *body, ft),
            _ => s1,
        }
    }
}

/// Resolves a function body in a scope of its own that holds its parameters.
pub open spec fn resolve_function(
    st: ResolverState,
    params: Seq<Token>,
    body: StmtModel,
    ft: FunctionType,
) -> ResolverState
    decreases body,
{
    let s1 = declare_params(begin_scope(with_function(st, ft)), params);
    let s2 = match body {
        StmtModel::Block(ss) => resolve_stmts(s1, ss),
        _ => s1,
    };
    with_function(end_scope(s2), st.function)
}

// ---------------------------------------------------------------------------
// Laws of the resolution pass.
// ---------------------------------------------------------------------------

/// The errors of `b` extend those of `a`, and an error once flagged stays
/// flagged.
pub open spec fn errors_kept(a: ResolverState, b: ResolverState) -> bool {
    &&& a.errors.len() <= b.errors.len()
    &&& b.errors.subrange(0, a.errors.len() as int) == a.errors
    &&& a.had_error ==> b.had_error
}

/// `b` has the scopes of `a` except perhaps the innermost one, and the same
/// function and class context.
pub open spec fn context_kept(a: ResolverState, b: ResolverState) -> bool {
    &&& b.scopes.len() == a.scopes.len()
    &&& a.scopes.len() > 0 ==> b.scopes.drop_last() == a.scopes.drop_last()
    &&& b.function == a.function
    &&& b.class == a.class
}

/// Opening a scope and closing it again leaves the resolver as it was.
pub proof fn lemma_end_scope_undoes_begin_scope(st: ResolverState)
    ensures
        end_scope(begin_scope(st)) == st,
{
    assert(st.scopes.push(seq![]).drop_last() =~= st.scopes);
}

/// A name declared and defined in a local scope where it was not yet declared
/// resolves in that scope, to the next free slot, and is usable.
pub proof fn lemma_declared_name_takes_next_slot(st: ResolverState, name: Token)
    requires
        st.scopes.len() > 0,
        !holds(st.scopes.last(), name.lexeme@),
    ensures
        lookup(declare(st, name).scopes, name.lexeme@) == Some((0int, st.scopes.last().len() as int)),
        lookup(define(declare(st, name), name).scopes, name.lexeme@) == Some(
            (0int, st.scopes.last().len() as int),
        ),
        define(declare(st, name), name).scopes.last()[st.scopes.last().len() as int] == (
            name.lexeme@,
            true,
        ),
        define(declare(st, name), name).had_error == st.had_error,
{
    let n = st.scopes.len() - 1;
    let inner = st.scopes.last().push((name.lexeme@, false));
    let s1 = declare(st, name);
    assert(s1.scopes.last() == inner);
    assert(inner.drop_last() =~= st.scopes.last());
    assert(last_index(inner, name.lexeme@) == Some(st.scopes.last().len() as int));
    let inner2 = inner.update(st.scopes.last().len() as int, (name.lexeme@, true));
    assert(define(s1, name).scopes.last() == inner2);
    assert(last_index(inner2, name.lexeme@) == Some(st.scopes.last().len() as int));
}

proof fn lemma_small_steps(st: ResolverState, name: Token, id: usize, word: Seq<char>)
    ensures
        context_kept(st, declare(st, name)),
        errors_kept(st, declare(st, name)),
        context_kept(st, define(st, name)),
        errors_kept(st, define(st, name)),
        context_kept(st, push_ready(st, word)),
        errors_kept(st, push_ready(st, word)),
        resolve_local(st, id, name).scopes == st.scopes,
        context_kept(st, resolve_local(st, id, name)),
        errors_kept(st, resolve_local(st, id, name)),
{
    assert(st.errors.subrange(0, st.errors.len() as int) =~= st.errors);
    let e = StaticError::Redeclared { name: name.lexeme@, line: name.line };
    assert(st.errors.push(e).subrange(0, st.errors.len() as int) =~= st.errors);
    if st.scopes.len() > 0 {
        let n = st.scopes.len() - 1;
        assert forall|sc: Scope| #![auto] st.scopes.update(n, sc).drop_last() =~= st.scopes.drop_last() by {}
        assert(st.scopes.update(n, st.scopes.last().push((name.lexeme@, false))).drop_last()
            =~= st.scopes.drop_last());
        assert(st.scopes.update(n, st.scopes.last().push((word, true))).drop_last()
            =~= st.scopes.drop_last());
        match last_index(st.scopes.last(), name.lexeme@) {
            Some(i) => {
                assert(st.scopes.update(n, st.scopes.last().update(i, (name.lexeme@, true))).drop_last()
                    =~= st.scopes.drop_last());
            },
            None => {},
        }
    }
}

proof fn lemma_report(st: ResolverState, e: StaticError)
    ensures
        report(st, e).scopes == st.scopes,
        context_kept(st, report(st, e)),
        errors_kept(st, report(st, e)),
{
    assert(st.errors.push(e).subrange(0, st.errors.len() as int) =~= st.errors);
}

proof fn lemma_kept_trans(a: ResolverState, b: ResolverState, c: ResolverState)
    requires
        errors_kept(a, b),
        errors_kept(b, c),
    ensures
        errors_kept(a, c),
{
    assert(c.errors.subrange(0, a.errors.len() as int) =~= c.errors.subrange(
        0,
        b.errors.len() as int,
    ).subrange(0, a.errors.len() as int));
}

proof fn lemma_context_trans(a: ResolverState, b: ResolverState, c: ResolverState)
    requires
        context_kept(a, b),
        context_kept(b, c),
    ensures
        context_kept(a, c),
{
}

proof fn lemma_declare_params(st: ResolverState, params: Seq<Token>)
    ensures
        context_kept(st, declare_params(st, params)),
        errors_kept(st, declare_params(st, params)),
    decreases params.len(),
{
    if params.len() == 0 {
        assert(st.errors.subrange(0, st.errors.len() as int) =~= st.errors);
    } else {
        let s = declare_params(st, params.drop_last());
        lemma_declare_params(st, params.drop_last());
        let t = params.last();
        lemma_small_steps(s, t, 0, seq![]);
        lemma_small_steps(declare(s, t), t, 0, seq![]);
        lemma_kept_trans(st, s, declare(s, t));
        lemma_kept_trans(st, declare(s, t), define(declare(s, t), t));
        lemma_context_trans(st, s, declare(s, t));
        lemma_context_trans(st, declare(s, t), define(declare(s, t), t));
    }
}

proof fn lemma_same_errors(a: ResolverState, b: ResolverState)
    requires
        b.errors == a.errors,
        b.had_error == a.had_error,
    ensures
        errors_kept(a, b),
{
    assert(a.errors.subrange(0, a.errors.len() as int) =~= a.errors);
}

proof fn lemma_expr_frame(st: ResolverState, e: ExprModel)
    ensures
        resolve_expr(st, e).scopes == st.scopes,
        context_kept(st, resolve_expr(st, e)),
        errors_kept(st, resolve_expr(st, e)),
    decreases e,
{
    lemma_same_errors(st, st);
    match e {
        ExprModel::Variable(t, id) => {
            lemma_small_steps(st, t, id, seq![]);
            lemma_report(st, StaticError::OwnInitializer { line: t.line });
        },
        ExprModel::Assignment { name, id, value } => {
            lemma_expr_frame(st, *value);
            let s1 = resolve_expr(st, *value);
            lemma_small_steps(s1, name, id, seq![]);
            lemma_kept_trans(st, s1, resolve_local(s1, id, name));
        },
        ExprModel::Binary { left, right, .. } => {
            lemma_expr_frame(st, *left);
            lemma_expr_frame(resolve_expr(st, *left), *right);
            lemma_kept_trans(st, resolve_expr(st, *left), resolve_expr(resolve_expr(st, *left), *right));
        },
        ExprModel::Logical { left, right, .. } => {
            lemma_expr_frame(st, *left);
            lemma_expr_frame(resolve_expr(st, *left), *right);
            lemma_kept_trans(st, resolve_expr(st, *left), resolve_expr(resolve_expr(st, *left), *right));
        },
        ExprModel::SetProperty { object, value, .. } => {
            lemma_expr_frame(st, *object);
            lemma_expr_frame(resolve_expr(st, *object), *value);
            lemma_kept_trans(
                st,
                resolve_expr(st, *object),
                resolve_expr(resolve_expr(st, *object), *value),
            );
        },
        ExprModel::Call { callee, args, .. } => {
            lemma_expr_frame(st, *callee);
            lemma_exprs_frame(resolve_expr(st, *callee), args);
            lemma_kept_trans(st, resolve_expr(st, *callee), resolve_exprs(resolve_expr(st, *callee), args));
        },
        ExprModel::Grouping { expr } => {
            lemma_expr_frame(st, *expr);
        },
        ExprModel::Unary { right, .. } => {
            lemma_expr_frame(st, *right);
        },
        ExprModel::Get { object, .. } => {
            lemma_expr_frame(st, *object);
        },
        ExprModel::Literal(_) => {},
        ExprModel::This { token, id } => {
            lemma_small_steps(st, token, id, seq![]);
            lemma_report(st, StaticError::ThisOutsideClass { line: token.line });
        },
        ExprModel::Super { keyword, id, .. } => {
            lemma_small_steps(st, keyword, id, seq![]);
            lemma_report(st, StaticError::SuperOutsideClass { line: keyword.line });
            lemma_report(st, StaticError::SuperWithoutSuperclass { line: keyword.line });
        },
    }
}

proof fn lemma_exprs_frame(st: ResolverState, es: Seq<ExprModel>)
    ensures
        resolve_exprs(st, es).scopes == st.scopes,
        context_kept(st, resolve_exprs(st, es)),
        errors_kept(st, resolve_exprs(st, es)),
    decreases es,
{
    if es.len() == 0 {
        lemma_same_errors(st, st);
    } else {
        assert(decreases_to!(es => es[es.len() - 1]));
        lemma_exprs_frame(st, es.drop_last());
        let s1 = resolve_exprs(st, es.drop_last());
        lemma_expr_frame(s1, es.last());
        lemma_kept_trans(st, s1, resolve_expr(s1, es.last()));
    }
}

proof fn lemma_scope_frame(st: ResolverState)
    ensures
        begin_scope(st).scopes.len() == st.scopes.len() + 1,
        begin_scope(st).scopes.drop_last() == st.scopes,
        begin_scope(st).function == st.function,
        begin_scope(st).class == st.class,
        errors_kept(st, begin_scope(st)),
{
    assert(st.scopes.push(seq![]).drop_last() =~= st.scopes);
    lemma_same_errors(st, begin_scope(st));
}

/// Closing a scope whose outer scopes are those of `st` gives back the
/// scopes of `st`.
proof fn lemma_close_frame(st: ResolverState, inner: ResolverState)
    requires
        inner.scopes.len() == st.scopes.len() + 1,
        inner.scopes.drop_last() == st.scopes,
    ensures
        end_scope(inner).scopes == st.scopes,
        end_scope(inner).function == inner.function,
        end_scope(inner).class == inner.class,
        errors_kept(inner, end_scope(inner)),
{
    lemma_same_errors(inner, end_scope(inner));
}

#[verifier::spinoff_prover]
#[verifier::rlimit(60)]
proof fn lemma_stmt_frame(st: ResolverState, s: StmtModel)
    ensures
        context_kept(st, resolve_stmt(st, s)),
        errors_kept(st, resolve_stmt(st, s)),
    decreases s, 1int,
{
    lemma_same_errors(st, st);
    match s {
        StmtModel::Expression(e) => {
            lemma_expr_frame(st, e);
        },
        StmtModel::Print(e) => {
            lemma_expr_frame(st, e);
        },
        StmtModel::Var(name, init) => {
            lemma_small_steps(st, name, 0, seq![]);
            let s1 = declare(st, name);
            let s2 = match init {
                Some(e) => resolve_expr(s1, e),
                None => s1,
            };
            match init {
                Some(e) => {
                    lemma_expr_frame(s1, e);
                },
                None => {
                    lemma_same_errors(s1, s1);
                },
            }
            lemma_small_steps(s2, name, 0, seq![]);
            lemma_kept_trans(st, s1, s2);
            lemma_kept_trans(st, s2, define(s2, name));
            lemma_context_trans(st, s1, s2);
            lemma_context_trans(st, s2, define(s2, name));
        },
        StmtModel::Block(ss) => {
            let b = begin_scope(st);
            lemma_scope_frame(st);
            lemma_stmts_frame(b, ss);
            let r = resolve_stmts(b, ss);
            assert(r.scopes.drop_last() == st.scopes);
            lemma_close_frame(st, r);
            lemma_kept_trans(st, b, r);
            lemma_kept_trans(st, r, end_scope(r));
        },
        StmtModel::If(c, t, e) => {
            lemma_expr_frame(st, c);
            let s0 = resolve_expr(st, c);
            lemma_stmt_frame(s0, *t);
            let s1 = resolve_stmt(s0, *t);
            lemma_kept_trans(st, s0, s1);
            lemma_context_trans(st, s0, s1);
            match e {
                Some(b) => {
                    lemma_stmt_frame(s1, *b);
                    lemma_kept_trans(st, s1, resolve_stmt(s1, *b));
                    lemma_context_trans(st, s1, resolve_stmt(s1, *b));
                },
                None => {},
            }
        },
        StmtModel::While(c, b) => {
            lemma_expr_frame(st, c);
            let s0 = resolve_expr(st, c);
            lemma_stmt_frame(s0, *b);
            lemma_kept_trans(st, s0, resolve_stmt(s0, *b));
            lemma_context_trans(st, s0, resolve_stmt(s0, *b));
        },
        StmtModel::Function(name, params, body, ft) => {
            lemma_small_steps(st, name, 0, seq![]);
            let s1 = declare(st, name);
            lemma_small_steps(s1, name, 0, seq![]);
            let s2 = define(s1, name);
            lemma_function_frame(s2, params, *body, ft);
            lemma_kept_trans(st, s1, s2);
            lemma_kept_trans(st, s2, resolve_function(s2, params, *body, ft));
            lemma_context_trans(st, s1, s2);
        },
        StmtModel::Return(keyword, e) => {
            lemma_report(st, StaticError::ReturnOutsideFunction);
            let r = report(st, StaticError::ReturnValueFromInit { line: keyword.line });
            lemma_report(st, StaticError::ReturnValueFromInit { line: keyword.line });
            match e {
                Some(v) => {
                    lemma_expr_frame(st, v);
                    lemma_expr_frame(r, v);
                    lemma_kept_trans(st, r, resolve_expr(r, v));
                },
                None => {},
            }
        },
        StmtModel::Class(..) => {
            lemma_class_frame(st, s);
        },
    }
}

#[verifier::spinoff_prover]
#[verifier::rlimit(40)]
proof fn lemma_class_frame(st: ResolverState, s: StmtModel)
    requires
        s is Class,
    ensures
        context_kept(st, resolve_stmt(st, s)),
        errors_kept(st, resolve_stmt(st, s)),
        resolve_stmt(st, s).scopes == define(declare(st, s->Class_0), s->Class_0).scopes,
    decreases s, 0int,
{
    match s {
    StmtModel::Class(name, methods, sup) => {
        let enclosing = st.class;
        let s00 = with_class(st, ClassType::CLASS);
        lemma_same_errors(st, s00);
        lemma_small_steps(s00, name, 0, seq![]);
        let sa = declare(s00, name);
        lemma_small_steps(sa, name, 0, seq![]);
        let s0 = define(sa, name);
        lemma_kept_trans(st, s00, sa);
        lemma_kept_trans(st, sa, s0);
        assert(s0.scopes == define(declare(st, name), name).scopes);
        let s1 = if inherits_from_itself(name, sup) {
            report(s0, StaticError::InheritsFromItself { line: name.line })
        } else {
            s0
        };
        lemma_report(s0, StaticError::InheritsFromItself { line: name.line });
        lemma_same_errors(s0, s0);
        lemma_kept_trans(st, s0, s1);
        assert(s1.scopes == s0.scopes);
        assert(s1.scopes.len() == st.scopes.len());
        assert(st.scopes.len() > 0 ==> s1.scopes.drop_last() == st.scopes.drop_last());
        let s2 = match sup {
            Some(e) => resolve_expr(with_class(s1, ClassType::SUBCLASS), e),
            None => s1,
        };
        match sup {
            Some(e) => {
                lemma_same_errors(s1, with_class(s1, ClassType::SUBCLASS));
                lemma_expr_frame(with_class(s1, ClassType::SUBCLASS), e);
                lemma_kept_trans(s1, with_class(s1, ClassType::SUBCLASS), s2);
            },
            None => {
                lemma_same_errors(s1, s2);
            },
        }
        assert(s2.scopes == s1.scopes);
        assert(s2.function == st.function);
        let s3 = match sup {
            Some(_) => push_ready(begin_scope(s2), "super"@),
            None => s2,
        };
        match sup {
            Some(_) => {
                lemma_scope_frame(s2);
                lemma_small_steps(begin_scope(s2), name, 0, "super"@);
                lemma_kept_trans(s2, begin_scope(s2), s3);
                assert(s3.scopes.drop_last() == s2.scopes);
            },
            None => {
                lemma_same_errors(s2, s3);
            },
        }
        lemma_scope_frame(s3);
        lemma_small_steps(begin_scope(s3), name, 0, "this"@);
        let s4 = push_ready(begin_scope(s3), "this"@);
        lemma_kept_trans(s3, begin_scope(s3), s4);
        assert(s4.scopes.drop_last() == s3.scopes);
        lemma_methods_frame(s4, methods);
        let m = resolve_methods(s4, methods);
        lemma_close_frame(s3, m);
        let s5 = end_scope(m);
        lemma_kept_trans(s4, m, s5);
        let s6 = match sup {
            Some(_) => end_scope(s5),
            None => s5,
        };
        match sup {
            Some(_) => {
                lemma_close_frame(s2, s5);
                assert(s6.scopes == s2.scopes);
            },
            None => {
                lemma_same_errors(s5, s6);
            },
        }
        let w = with_class(s6, enclosing);
        lemma_same_errors(s6, w);
        lemma_kept_trans(s1, s2, s3);
        lemma_kept_trans(s1, s3, s4);
        lemma_kept_trans(s1, s4, s5);
        lemma_kept_trans(s1, s5, s6);
        lemma_kept_trans(s1, s6, w);
        lemma_kept_trans(st, s1, w);
    },
    _ => {},
    }
}

proof fn lemma_stmts_frame(st: ResolverState, ss: Seq<StmtModel>)
    ensures
        context_kept(st, resolve_stmts(st, ss)),
        errors_kept(st, resolve_stmts(st, ss)),
    decreases ss, 0int,
{
    if ss.len() == 0 {
        lemma_same_errors(st, st);
    } else {
        assert(decreases_to!(ss => ss[ss.len() - 1]));
        lemma_stmts_frame(st, ss.drop_last());
        let s1 = resolve_stmts(st, ss.drop_last());
        lemma_stmt_frame(s1, ss.last());
        lemma_kept_trans(st, s1, resolve_stmt(s1, ss.last()));
        lemma_context_trans(st, s1, resolve_stmt(s1, ss.last()));
    }
}

proof fn lemma_methods_frame(st: ResolverState, ms: Seq<StmtModel>)
    ensures
        resolve_methods(st, ms).scopes == st.scopes,
        resolve_methods(st, ms).function == st.function,
        resolve_methods(st, ms).class == st.class,
        errors_kept(st, resolve_methods(st, ms)),
    decreases ms, 0int,
{
    if ms.len() == 0 {
        lemma_same_errors(st, st);
    } else {
        lemma_methods_frame(st, ms.drop_last());
        let s1 = resolve_methods(st, ms.drop_last());
        match ms.last() {
            StmtModel::Function(_, params, body, ft) => {
                assert(decreases_to!(ms => ms[ms.len() - 1]));
                lemma_function_frame(s1, params, *body, ft);
                lemma_kept_trans(st, s1, resolve_function(s1, params, *body, ft));
            },
            _ => {},
        }
    }
}

proof fn lemma_function_frame(st: ResolverState, params: Seq<Token>, body: StmtModel, ft: FunctionType)
    ensures
        resolve_function(st, params, body, ft).scopes == st.scopes,
        resolve_function(st, params, body, ft).function == st.function,
        resolve_function(st, params, body, ft).class == st.class,
        errors_kept(st, resolve_function(st, params, body, ft)),
    decreases body, 0int,
{
    let w = with_function(st, ft);
    lemma_same_errors(st, w);
    let b = begin_scope(w);
    lemma_scope_frame(w);
    lemma_declare_params(b, params);
    let s1 = declare_params(b, params);
    let s2 = match body {
        StmtModel::Block(ss) => resolve_stmts(s1, ss),
        _ => s1,
    };
    match body {
        StmtModel::Block(ss) => {
            lemma_stmts_frame(s1, ss);
            lemma_context_trans(b, s1, s2);
        },
        _ => {
            lemma_same_errors(s1, s2);
        },
    }
    assert(s2.scopes.drop_last() == st.scopes);
    lemma_close_frame(st, s2);
    let e = end_scope(s2);
    lemma_same_errors(e, with_function(e, st.function));
    lemma_kept_trans(st, w, b);
    lemma_kept_trans(st, b, s1);
    lemma_kept_trans(st, s1, s2);
    lemma_kept_trans(st, s2, e);
    lemma_kept_trans(st, e, with_function(e, st.function));
}

/// A static error, once reported, is never withdrawn: resolving a statement
/// only appends to the errors found so far, and leaves the error flag set.
pub proof fn lemma_errors_are_never_withdrawn(st: ResolverState, s: StmtModel)
    ensures
        errors_kept(st, resolve_stmt(st, s)),
{
    lemma_stmt_frame(st, s);
}

/// Resolving a statement restores the function and class context around
/// every nested body and closes every scope it opens: afterwards the same
/// number of scopes is open, all but the innermost unchanged.
pub proof fn lemma_context_is_restored(st: ResolverState, s: StmtModel)
    ensures
        context_kept(st, resolve_stmt(st, s)),
{
    lemma_stmt_frame(st, s);
}

/// A block leaves the scopes exactly as they were before it: what it
/// declares is local to it.
pub proof fn lemma_block_is_local(st: ResolverState, ss: Seq<StmtModel>)
    ensures
        resolve_stmt(st, StmtModel::Block(ss)).scopes == st.scopes,
{
    lemma_scope_frame(st);
    lemma_stmts_frame(begin_scope(st), ss);
    lemma_close_frame(st, resolve_stmts(begin_scope(st), ss));
}

/// Resolving an expression never changes the scopes or the context; it only
/// records where names resolve and reports errors.
pub proof fn lemma_expressions_declare_nothing(st: ResolverState, e: ExprModel)
    ensures
        resolve_expr(st, e).scopes == st.scopes,
        resolve_expr(st, e).function == st.function,
        resolve_expr(st, e).class == st.class,
        errors_kept(st, resolve_expr(st, e)),
{
    lemma_expr_frame(st, e);
}

/// The innermost scope after a name is declared and defined in it: the
/// name's last entry marked usable, or a new usable entry at the end.
pub open spec fn mark_declared(scope: Scope, name: Seq<char>) -> Scope {
    match last_index(scope, name) {
        Some(i) => scope.update(i, (name, true)),
        None => scope.push((name, true)),
    }
}

/// The innermost scope after the statement: only the names the statement
/// itself declares (directly, or in the branches of an `if` or the body of a
/// `while`) are marked in it; blocks, functions and classes keep their own
/// declarations to themselves.
pub open spec fn declared_scope(scope: Scope, s: StmtModel) -> Scope
    decreases s,
{
    match s {
        StmtModel::Var(name, _) => mark_declared(scope, name.lexeme@),
        StmtModel::Function(name, _, _, _) => mark_declared(scope, name.lexeme@),
        StmtModel::Class(name, _, _) => mark_declared(scope, name.lexeme@),
        StmtModel::If(_, t, e) => {
            let a = declared_scope(scope, *t);
            match e {
                Some(b) => declared_scope(a, *b),
                None => a,
            }
        },
        StmtModel::While(_, b) => declared_scope(scope, *b),
        _ => scope,
    }
}

/// The scopes after the statement: the outer ones unchanged, the innermost
/// as [`declared_scope`] gives it. With no scope open, nothing changes.
pub open spec fn scopes_after(scopes: Seq<Scope>, s: StmtModel) -> Seq<Scope> {
    if scopes.len() == 0 {
        scopes
    } else {
        scopes.drop_last().push(declared_scope(scopes.last(), s))
    }
}

proof fn lemma_holds_iff_last_index(scope: Scope, name: Seq<char>)
    ensures
        holds(scope, name) <==> last_index(scope, name) is Some,
        last_index(scope, name) matches Some(i) ==> 0 <= i < scope.len() && scope[i].0 == name,
    decreases scope.len(),
{
    if scope.len() > 0 {
        lemma_holds_iff_last_index(scope.drop_last(), name);
        if scope.last().0 != name {
            if holds(scope, name) {
                let i = choose|i: int| 0 <= i < scope.len() && #[trigger] scope[i].0 == name;
                assert(scope.drop_last()[i].0 == name);
            }
            if holds(scope.drop_last(), name) {
                let i = choose|i: int| 0 <= i < scope.len() - 1 && #[trigger] scope.drop_last()[i].0 == name;
                assert(scope[i].0 == name);
            }
        } else {
            assert(scope[scope.len() - 1].0 == name);
        }
    }
}

proof fn lemma_declare_define_scopes(st: ResolverState, name: Token)
    ensures
        define(declare(st, name), name).scopes == scopes_after(st.scopes, StmtModel::Var(name, None)),
{
    if st.scopes.len() > 0 {
        let n = st.scopes.len() - 1;
        let sc = st.scopes.last();
        let w = name.lexeme@;
        lemma_holds_iff_last_index(sc, w);
        if holds(sc, w) {
            let i = last_index(sc, w)->0;
            assert(st.scopes.update(n, sc.update(i, (w, true))) =~= st.scopes.drop_last().push(
                mark_declared(sc, w),
            ));
        } else {
            let pushed = sc.push((w, false));
            assert(pushed.drop_last() =~= sc);
            assert(last_index(pushed, w) == Some(sc.len() as int));
            let s1 = declare(st, name);
            assert(s1.scopes.last() == pushed);
            assert(pushed.update(sc.len() as int, (w, true)) =~= sc.push((w, true)));
            assert(s1.scopes.update(n, pushed.update(sc.len() as int, (w, true))) =~= st.scopes.drop_last().push(
                mark_declared(sc, w),
            ));
        }
    }
}

proof fn lemma_scopes_after_unchanged(scopes: Seq<Scope>, s: StmtModel)
    requires
        scopes.len() > 0 ==> declared_scope(scopes.last(), s) == scopes.last(),
    ensures
        scopes_after(scopes, s) == scopes,
{
    if scopes.len() > 0 {
        assert(scopes.drop_last().push(scopes.last()) =~= scopes);
    }
}

proof fn lemma_scopes_after_compose(scopes: Seq<Scope>, a: StmtModel, b: StmtModel, s: StmtModel)
    requires
        scopes.len() > 0 ==> declared_scope(scopes.last(), s) == declared_scope(
            declared_scope(scopes.last(), a),
            b,
        ),
    ensures
        scopes_after(scopes_after(scopes, a), b) == scopes_after(scopes, s),
{
    if scopes.len() > 0 {
        let x = declared_scope(scopes.last(), a);
        assert(scopes.drop_last().push(x).drop_last() =~= scopes.drop_last());
    }
}

#[verifier::spinoff_prover]
#[verifier::rlimit(40)]
proof fn lemma_stmt_scopes(st: ResolverState, s: StmtModel)
    ensures
        resolve_stmt(st, s).scopes == scopes_after(st.scopes, s),
    decreases s,
{
    match s {
        StmtModel::Expression(e) => {
            lemma_expr_frame(st, e);
            lemma_scopes_after_unchanged(st.scopes, s);
        },
        StmtModel::Print(e) => {
            lemma_expr_frame(st, e);
            lemma_scopes_after_unchanged(st.scopes, s);
        },
        StmtModel::Var(name, init) => {
            lemma_declare_define_scopes(st, name);
            match init {
                Some(e) => {
                    lemma_expr_frame(declare(st, name), e);
                },
                None => {},
            }
        },
        StmtModel::Block(ss) => {
            lemma_block_is_local(st, ss);
            lemma_scopes_after_unchanged(st.scopes, s);
        },
        StmtModel::If(c, t, e) => {
            lemma_expr_frame(st, c);
            let s0 = resolve_expr(st, c);
            lemma_stmt_scopes(s0, *t);
            let s1 = resolve_stmt(s0, *t);
            match e {
                Some(b) => {
                    lemma_stmt_scopes(s1, *b);
                    lemma_scopes_after_compose(st.scopes, *t, *b, s);
                },
                None => {},
            }
        },
        StmtModel::While(c, b) => {
            lemma_expr_frame(st, c);
            lemma_stmt_scopes(resolve_expr(st, c), *b);
        },
        StmtModel::Function(name, params, body, ft) => {
            lemma_declare_define_scopes(st, name);
            lemma_function_frame(define(declare(st, name), name), params, *body, ft);
        },
        StmtModel::Return(keyword, e) => {
            let r = report(st, StaticError::ReturnValueFromInit { line: keyword.line });
            match e {
                Some(v) => {
                    lemma_expr_frame(st, v);
                    lemma_expr_frame(r, v);
                },
                None => {},
            }
            lemma_scopes_after_unchanged(st.scopes, s);
        },
        StmtModel::Class(name, _, _) => {
            lemma_class_frame(st, s);
            lemma_declare_define_scopes(st, name);
        },
    }
}

/// Resolving a statement changes only the innermost scope, and there only
/// by the names the statement itself declares: each is appended ready for
/// use or, if the scope already holds it, marked ready. The outer scopes,
/// and everything a block, function or class declares inside itself, are
/// left as they were.
pub proof fn lemma_statement_declares_only_its_names(st: ResolverState, s: StmtModel)
    ensures
        resolve_stmt(st, s).scopes == scopes_after(st.scopes, s),
{
    lemma_stmt_scopes(st, s);
}

// --- Where the uses in an expression resolve --------------------------------

/// The name references inside an expression, in order: the node id, the
/// name, and the kind of reference (0 a variable read, 1 an assignment
/// target, 2 `this` or `super`).
pub open spec fn expr_refs(e: ExprModel) -> Seq<(usize, Seq<char>, int)>
    decreases e,
{
    match e {
        ExprModel::Literal(_) => seq![],
        ExprModel::Unary { right, .. } => expr_refs(*right),
        ExprModel::Binary { left, right, .. } => expr_refs(*left) + expr_refs(*right),
        ExprModel::Grouping { expr } => expr_refs(*expr),
        ExprModel::Variable(t, id) => seq![(id, t.lexeme@, 0int)],
        ExprModel::Assignment { name, id, value } => expr_refs(*value) + seq![(id, name.lexeme@, 1int)],
        ExprModel::Logical { left, right, .. } => expr_refs(*left) + expr_refs(*right),
        ExprModel::Call { callee, args, .. } => expr_refs(*callee) + args_refs(args),
        ExprModel::Get { object, .. } => expr_refs(*object),
        ExprModel::SetProperty { object, value, .. } => expr_refs(*object) + expr_refs(*value),
        ExprModel::This { token, id } => seq![(id, token.lexeme@, 2int)],
        ExprModel::Super { keyword, id, .. } => seq![(id, keyword.lexeme@, 2int)],
    }
}

/// The name references inside a list of expressions, in order.
pub open spec fn args_refs(args: Seq<ExprModel>) -> Seq<(usize, Seq<char>, int)>
    decreases args,
{
    if args.len() == 0 {
        seq![]
    } else {
        args_refs(args.drop_last()) + expr_refs(args.last())
    }
}

/// No two references share a node id (as in any tree the parser builds,
/// whose ids are token positions).
pub open spec fn ids_unique(rs: Seq<(usize, Seq<char>, int)>) -> bool {
    forall|i: int, j: int| 0 <= i < j < rs.len() ==> #[trigger] rs[i].0 != #[trigger] rs[j].0
}

/// No reference in `rs` has the node id `id`.
pub open spec fn untouched(rs: Seq<(usize, Seq<char>, int)>, id: usize) -> bool {
    forall|k: int| 0 <= k < rs.len() ==> #[trigger] rs[k].0 != id
}

/// A variable read or assignment whose name is declared in the open scopes;
/// a read of a name inside its own initializer does not count.
pub open spec fn local_use(st: ResolverState, r: (usize, Seq<char>, int)) -> bool {
    &&& r.2 < 2
    &&& lookup(st.scopes, r.1) is Some
    &&& !(r.2 == 0 && st.scopes.len() > 0 && in_own_initializer(st.scopes.last(), r.1))
}

/// The depth and slot a name resolves to in the open scopes.
pub open spec fn slot_of(st: ResolverState, name: Seq<char>) -> (usize, usize) {
    let (d, i) = lookup(st.scopes, name)->Some_0;
    (d as usize, i as usize)
}

/// From `a` to `b`, every local use in `rs` is recorded at the slot its
/// name resolves to in `a`, and entries of other nodes are left alone.
pub open spec fn records(a: ResolverState, b: ResolverState, rs: Seq<(usize, Seq<char>, int)>) -> bool {
    &&& forall|id: usize| #[trigger] untouched(rs, id) ==> {
        &&& b.locals.dom().contains(id) == a.locals.dom().contains(id)
        &&& a.locals.dom().contains(id) ==> b.locals[id] == a.locals[id]
    }
    &&& forall|k: int| 0 <= k < rs.len() && local_use(a, #[trigger] rs[k]) ==> {
        &&& b.locals.dom().contains(rs[k].0)
        &&& b.locals[rs[k].0] == slot_of(a, rs[k].1)
    }
}

proof fn lemma_records_none(st: ResolverState)
    ensures
        records(st, st, seq![]),
{
}

proof fn lemma_records_report(st: ResolverState, e: StaticError, r: (usize, Seq<char>, int))
    requires
        !local_use(st, r),
    ensures
        records(st, report(st, e), seq![r]),
{
    assert forall|k: int| 0 <= k < 1 && local_use(st, #[trigger] seq![r][k]) implies false by {
        assert(seq![r][k] == r);
    }
}

proof fn lemma_records_local(st: ResolverState, id: usize, t: Token, kind: int)
    ensures
        records(st, resolve_local(st, id, t), seq![(id, t.lexeme@, kind)]),
{
    let rs = seq![(id, t.lexeme@, kind)];
    let r = resolve_local(st, id, t);
    assert forall|x: usize| #[trigger] untouched(rs, x) implies {
        &&& r.locals.dom().contains(x) == st.locals.dom().contains(x)
        &&& st.locals.dom().contains(x) ==> r.locals[x] == st.locals[x]
    } by {
        assert(rs[0].0 != x);
    }
}

proof fn lemma_records_compose(
    a: ResolverState,
    b: ResolverState,
    c: ResolverState,
    ra: Seq<(usize, Seq<char>, int)>,
    rb: Seq<(usize, Seq<char>, int)>,
)
    requires
        records(a, b, ra),
        records(b, c, rb),
        b.scopes == a.scopes,
        ids_unique(ra + rb),
    ensures
        records(a, c, ra + rb),
{
    let rs = ra + rb;
    assert forall|id: usize| #[trigger] untouched(rs, id) implies {
        &&& c.locals.dom().contains(id) == a.locals.dom().contains(id)
        &&& a.locals.dom().contains(id) ==> c.locals[id] == a.locals[id]
    } by {
        assert forall|k: int| 0 <= k < ra.len() implies #[trigger] ra[k].0 != id by {
            assert(rs[k] == ra[k]);
        }
        assert forall|k: int| 0 <= k < rb.len() implies #[trigger] rb[k].0 != id by {
            assert(rs[ra.len() + k] == rb[k]);
        }
        assert(untouched(ra, id));
        assert(untouched(rb, id));
    }
    assert forall|k: int| 0 <= k < rs.len() && local_use(a, #[trigger] rs[k]) implies {
        &&& c.locals.dom().contains(rs[k].0)
        &&& c.locals[rs[k].0] == slot_of(a, rs[k].1)
    } by {
        if k < ra.len() {
            assert(rs[k] == ra[k]);
            let id = ra[k].0;
            assert forall|j: int| 0 <= j < rb.len() implies #[trigger] rb[j].0 != id by {
                assert(rs[ra.len() + j] == rb[j]);
                assert(rs[k].0 != rs[ra.len() + j].0);
            }
            assert(untouched(rb, id));
        } else {
            let j = k - ra.len();
            assert(rs[k] == rb[j]);
            assert(local_use(b, rb[j]));
        }
    }
}

proof fn lemma_unique_parts(ra: Seq<(usize, Seq<char>, int)>, rb: Seq<(usize, Seq<char>, int)>)
    requires
        ids_unique(ra + rb),
    ensures
        ids_unique(ra),
        ids_unique(rb),
{
    let rs = ra + rb;
    assert forall|i: int, j: int| 0 <= i < j < ra.len() implies #[trigger] ra[i].0 != #[trigger] ra[j].0 by {
        assert(rs[i] == ra[i] && rs[j] == ra[j]);
    }
    assert forall|i: int, j: int| 0 <= i < j < rb.len() implies #[trigger] rb[i].0 != #[trigger] rb[j].0 by {
        assert(rs[ra.len() + i] == rb[i] && rs[ra.len() + j] == rb[j]);
    }
}

proof fn lemma_expr_records(st: ResolverState, e: ExprModel)
    requires
        ids_unique(expr_refs(e)),
    ensures
        records(st, resolve_expr(st, e), expr_refs(e)),
    decreases e,
{
    match e {
        ExprModel::Literal(_) => {
            lemma_records_none(st);
        },
        ExprModel::Unary { right, .. } => {
            lemma_expr_records(st, *right);
        },
        ExprModel::Grouping { expr } => {
            lemma_expr_records(st, *expr);
        },
        ExprModel::Get { object, .. } => {
            lemma_expr_records(st, *object);
        },
        ExprModel::Binary { left, right, .. } => {
            lemma_unique_parts(expr_refs(*left), expr_refs(*right));
            lemma_expr_records(st, *left);
            let s1 = resolve_expr(st, *left);
            lemma_expr_frame(st, *left);
            lemma_expr_records(s1, *right);
            lemma_records_compose(st, s1, resolve_expr(s1, *right), expr_refs(*left), expr_refs(*right));
        },
        ExprModel::Logical { left, right, .. } => {
            lemma_unique_parts(expr_refs(*left), expr_refs(*right));
            lemma_expr_records(st, *left);
            let s1 = resolve_expr(st, *left);
            lemma_expr_frame(st, *left);
            lemma_expr_records(s1, *right);
            lemma_records_compose(st, s1, resolve_expr(s1, *right), expr_refs(*left), expr_refs(*right));
        },
        ExprModel::SetProperty { object, value, .. } => {
            lemma_unique_parts(expr_refs(*object), expr_refs(*value));
            lemma_expr_records(st, *object);
            let s1 = resolve_expr(st, *object);
            lemma_expr_frame(st, *object);
            lemma_expr_records(s1, *value);
            lemma_records_compose(st, s1, resolve_expr(s1, *value), expr_refs(*object), expr_refs(*value));
        },
        ExprModel::Assignment { name, id, value } => {
            let tail = seq![(id, name.lexeme@, 1int)];
            lemma_unique_parts(expr_refs(*value), tail);
            lemma_expr_records(st, *value);
            let s1 = resolve_expr(st, *value);
            lemma_expr_frame(st, *value);
            lemma_records_local(s1, id, name, 1);
            lemma_records_compose(st, s1, resolve_local(s1, id, name), expr_refs(*value), tail);
        },
        ExprModel::Call { callee, args, .. } => {
            lemma_unique_parts(expr_refs(*callee), args_refs(args));
            lemma_expr_records(st, *callee);
            let s1 = resolve_expr(st, *callee);
            lemma_expr_frame(st, *callee);
            lemma_args_records(s1, args);
            lemma_records_compose(st, s1, resolve_exprs(s1, args), expr_refs(*callee), args_refs(args));
        },
        ExprModel::Variable(t, id) => {
            let r = (id, t.lexeme@, 0int);
            if st.scopes.len() > 0 && in_own_initializer(st.scopes.last(), t.lexeme@) {
                lemma_records_report(st, StaticError::OwnInitializer { line: t.line }, r);
            } else {
                lemma_records_local(st, id, t, 0);
            }
        },
        ExprModel::This { token, id } => {
            let r = (id, token.lexeme@, 2int);
            lemma_records_report(st, StaticError::ThisOutsideClass { line: token.line }, r);
            lemma_records_local(st, id, token, 2);
        },
        ExprModel::Super { keyword, id, .. } => {
            let r = (id, keyword.lexeme@, 2int);
            lemma_records_report(st, StaticError::SuperOutsideClass { line: keyword.line }, r);
            lemma_records_report(st, StaticError::SuperWithoutSuperclass { line: keyword.line }, r);
            lemma_records_local(st, id, keyword, 2);
        },
    }
}

proof fn lemma_args_records(st: ResolverState, args: Seq<ExprModel>)
    requires
        ids_unique(args_refs(args)),
    ensures
        records(st, resolve_exprs(st, args), args_refs(args)),
    decreases args,
{
    if args.len() == 0 {
        lemma_records_none(st);
    } else {
        assert(decreases_to!(args => args[args.len() - 1]));
        let init = args.drop_last();
        lemma_unique_parts(args_refs(init), expr_refs(args.last()));
        lemma_args_records(st, init);
        let s1 = resolve_exprs(st, init);
        lemma_exprs_frame(st, init);
        lemma_expr_records(s1, args.last());
        lemma_records_compose(st, s1, resolve_expr(s1, args.last()), args_refs(init), expr_refs(args.last()));
    }
}

/// Every use of a local name anywhere in an expression (both operands of a
/// binary or logical operator, the callee and every argument of a call, an
/// assignment's target and value, ...) is recorded at the depth and slot
/// its name resolves to in the open scopes; a read of a name inside its
/// own initializer is the one exception. Entries of nodes outside the
/// expression are left alone.
pub proof fn lemma_every_local_use_is_recorded(st: ResolverState, e: ExprModel)
    requires
        ids_unique(expr_refs(e)),
    ensures
        forall|k: int|
            0 <= k < expr_refs(e).len() && local_use(st, #[trigger] expr_refs(e)[k]) ==> {
                &&& resolve_expr(st, e).locals.dom().contains(expr_refs(e)[k].0)
                &&& resolve_expr(st, e).locals[expr_refs(e)[k].0] == slot_of(st, expr_refs(e)[k].1)
            },
        forall|id: usize|
            #[trigger] untouched(expr_refs(e), id) ==> resolve_expr(st, e).locals.dom().contains(id)
                == st.locals.dom().contains(id),
{
    lemma_expr_records(st, e);
}

} // verus!
