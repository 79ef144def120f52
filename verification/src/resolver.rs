use vstd::prelude::*;
use std::collections::HashMap;
use std::rc::Rc;

use crate::expr::{expr_models, Expr};
use crate::resolution::{self, last_index, lookup, ResolverState, Scope, StaticError};
use crate::stmt::{stmt_models, ClassType, FunctionType, Statement};
use crate::text::{decimal, decimal_string};
use crate::token::Token;

verus! {

broadcast use vstd::std_specs::hash::group_hash_axioms;

/// A static error found by the resolver.
#[derive(Debug)]
pub enum ResolveError {
    ReturnOutsideFunction,
    ReturnValueFromInit { line: usize },
    ThisOutsideClass { line: usize },
    SuperOutsideClass { line: usize },
    SuperWithoutSuperclass { line: usize },
    InheritsFromItself { line: usize },
    OwnInitializer { line: usize },
    Redeclared { name: String, line: usize },
}

impl View for ResolveError {
    type V = StaticError;

    open spec fn view(&self) -> StaticError {
        match self {
            ResolveError::ReturnOutsideFunction => StaticError::ReturnOutsideFunction,
            ResolveError::ReturnValueFromInit { line } => StaticError::ReturnValueFromInit {
                line: *line,
            },
            ResolveError::ThisOutsideClass { line } => StaticError::ThisOutsideClass { line: *line },
            ResolveError::SuperOutsideClass { line } => StaticError::SuperOutsideClass {
                line: *line,
            },
            ResolveError::SuperWithoutSuperclass { line } => StaticError::SuperWithoutSuperclass {
                line: *line,
            },
            ResolveError::InheritsFromItself { line } => StaticError::InheritsFromItself {
                line: *line,
            },
            ResolveError::OwnInitializer { line } => StaticError::OwnInitializer { line: *line },
            ResolveError::Redeclared { name, line } => StaticError::Redeclared {
                name: name@,
                line: *line,
            },
        }
    }
}

/// The message that describes a static error.
pub open spec fn static_error_message(e: StaticError) -> Seq<char> {
    match e {
        StaticError::ReturnOutsideFunction => "return used without function"@,
        StaticError::ReturnValueFromInit { line } => "Can't return a value from an initializer at line "@
            + decimal(line as nat),
        StaticError::ThisOutsideClass { line } => "Can't use 'this' outside of a class at line "@
            + decimal(line as nat),
        StaticError::SuperOutsideClass { line } => "Can't use 'super' outside of a class at line "@
            + decimal(line as nat),
        StaticError::SuperWithoutSuperclass { line } =>
            "Can't use 'super' in a class with no superclass at line "@ + decimal(line as nat),
        StaticError::InheritsFromItself { line } => "A class can't inherit from itself at line "@
            + decimal(line as nat),
        StaticError::OwnInitializer { line } =>
            "Can't read local variable in its own initializer at line "@ + decimal(line as nat),
        StaticError::Redeclared { name, line } => "Variable '"@ + name + "' was redefined in line "@
            + decimal(line as nat),
    }
}

fn with_line(text: &str, line: usize) -> (r: String)
    ensures
        r@ == text@ + decimal(line as nat),
{
    let mut s = String::from_str(text);
    s.append(decimal_string(line).as_str());
    s
}

impl ResolveError {
    /// The message that describes the error.
    pub fn message(&self) -> (r: String)
        ensures
            r@ == static_error_message(self@),
    {
        match self {
            ResolveError::ReturnOutsideFunction => String::from_str("return used without function"),
            ResolveError::ReturnValueFromInit { line } => with_line(
                "Can't return a value from an initializer at line ",
                *line,
            ),
            ResolveError::ThisOutsideClass { line } => with_line(
                "Can't use 'this' outside of a class at line ",
                *line,
            ),
            ResolveError::SuperOutsideClass { line } => with_line(
                "Can't use 'super' outside of a class at line ",
                *line,
            ),
            ResolveError::SuperWithoutSuperclass { line } => with_line(
                "Can't use 'super' in a class with no superclass at line ",
                *line,
            ),
            ResolveError::InheritsFromItself { line } => with_line(
                "A class can't inherit from itself at line ",
                *line,
            ),
            ResolveError::OwnInitializer { line } => with_line(
                "Can't read local variable in its own initializer at line ",
                *line,
            ),
            ResolveError::Redeclared { name, line } => {
                let mut s = String::from_str("Variable '");
                s.append(name.as_str());
                s.append("' was redefined in line ");
                s.append(decimal_string(*line).as_str());
                s
            },
        }
    }
}

pub open spec fn scope_model(s: Seq<(String, bool)>) -> Scope {
    s.map_values(|p: (String, bool)| (p.0@, p.1))
}

pub open spec fn scopes_model(s: Seq<Vec<(String, bool)>>) -> Seq<Scope> {
    s.map_values(|v: Vec<(String, bool)>| scope_model(v@))
}

pub open spec fn error_models(s: Seq<ResolveError>) -> Seq<StaticError> {
    s.map_values(|e: ResolveError| e@)
}

pub proof fn lemma_last_index_suffix(scope: Scope, name: Seq<char>, k: int)
    requires
        0 <= k <= scope.len(),
        forall|j: int| k <= j < scope.len() ==> scope[j].0 != name,
    ensures
        last_index(scope, name) == last_index(scope.take(k), name),
    decreases scope.len() - k,
{
    if k < scope.len() {
        assert(scope.drop_last() =~= scope.take(scope.len() - 1));
        lemma_last_index_suffix(scope.drop_last(), name, k);
        assert(scope.drop_last().take(k) =~= scope.take(k));
    } else {
        assert(scope.take(k) =~= scope);
    }
}

pub proof fn lemma_last_index_facts(scope: Scope, name: Seq<char>)
    ensures
        match last_index(scope, name) {
            Some(i) => 0 <= i < scope.len() && scope[i].0 == name && forall|j: int|
                i < j < scope.len() ==> scope[j].0 != name,
            None => forall|j: int| 0 <= j < scope.len() ==> scope[j].0 != name,
        },
    decreases scope.len(),
{
    if scope.len() > 0 {
        lemma_last_index_facts(scope.drop_last(), name);
        if scope.last().0 != name {
            assert forall|j: int| 0 <= j < scope.len() - 1 implies scope[j] == scope.drop_last()[j] by {}
        }
    }
}

pub proof fn lemma_lookup_outer(scopes: Seq<Scope>, name: Seq<char>, d: int)
    requires
        0 <= d <= scopes.len(),
        forall|k: int| 0 <= k < d ==> last_index(#[trigger] scopes[scopes.len() - 1 - k], name) is None,
    ensures
        lookup(scopes, name) == match lookup(scopes.take(scopes.len() - d), name) {
            Some((dd, i)) => Some((dd + d, i)),
            None => None::<(int, int)>,
        },
    decreases d,
{
    if d == 0 {
        assert(scopes.take(scopes.len() as int) =~= scopes);
        match lookup(scopes, name) {
            Some((dd, i)) => {},
            None => {},
        }
    } else {
        let inner = scopes.drop_last();
        assert(last_index(scopes[scopes.len() - 1 - 0], name) is None);
        assert forall|k: int| 0 <= k < d - 1 implies last_index(
            #[trigger] inner[inner.len() - 1 - k],
            name,
        ) is None by {
            assert(inner[inner.len() - 1 - k] == scopes[scopes.len() - 1 - (k + 1)]);
        }
        lemma_lookup_outer(inner, name, d - 1);
        assert(inner.take(inner.len() - (d - 1)) =~= scopes.take(scopes.len() - d));
    }
}

/// The last position of `name` in `scope`.
fn last_index_of(scope: &Vec<(String, bool)>, name: &String) -> (r: Option<usize>)
    ensures
        match r {
            Some(i) => last_index(scope_model(scope@), name@) == Some(i as int),
            None => last_index(scope_model(scope@), name@) is None,
        },
{
    let ghost m = scope_model(scope@);
    let mut i = scope.len();
    while i > 0
        invariant
            i <= scope@.len(),
            m == scope_model(scope@),
            forall|j: int| i <= j < m.len() ==> m[j].0 != name@,
        decreases i,
    {
        i = i - 1;
        if scope[i].0 == *name {
            proof {
                lemma_last_index_suffix(m, name@, i + 1);
                assert(m.take(i + 1).last() == m[i as int]);
                assert(m.take(i + 1).len() == i + 1);
            }
            return Some(i);
        }
    }
    proof {
        lemma_last_index_suffix(m, name@, 0);
    }
    None
}

/// Resolves each use of a local variable to the scope and slot that hold it,
/// and reports static errors.
pub struct Resolver {
    scopes: Vec<Vec<(String, bool)>>,
    pub locals: HashMap<usize, (usize, usize)>,
    current_function: FunctionType,
    current_class: ClassType,
    pub had_error: bool,
    errors: Vec<ResolveError>,
}

impl View for Resolver {
    type V = ResolverState;

    closed spec fn view(&self) -> ResolverState {
        ResolverState {
            scopes: scopes_model(self.scopes@),
            locals: self.locals@,
            function: self.current_function,
            class: self.current_class,
            had_error: self.had_error,
            errors: error_models(self.errors@),
        }
    }
}

impl Resolver {
    pub fn new() -> (r: Self)
        ensures
            r@.scopes == Seq::<Scope>::empty(),
            r@.locals == Map::<usize, (usize, usize)>::empty(),
            r@.function == FunctionType::NONE,
            r@.class == ClassType::NONE,
            !r@.had_error,
            r@.errors == Seq::<StaticError>::empty(),
    {
        let r = Self {
            scopes: Vec::new(),
            locals: HashMap::new(),
            current_function: FunctionType::NONE,
            current_class: ClassType::NONE,
            had_error: false,
            errors: Vec::new(),
        };
        assert(r@.scopes =~= Seq::<Scope>::empty());
        assert(r@.errors =~= Seq::<StaticError>::empty());
        r
    }

    /// The static errors reported so far, in order.
    pub fn errors(&self) -> (r: &Vec<ResolveError>)
        ensures
            error_models(r@) == self@.errors,
    {
        &self.errors
    }

    fn report(&mut self, e: ResolveError)
        ensures
            final(self)@ == resolution::report(old(self)@, e@),
    {
        let ghost old_errors = self.errors@;
        self.errors.push(e);
        self.had_error = true;
        assert(error_models(self.errors@) =~= error_models(old_errors).push(e@));
    }

    pub fn begin_scope(&mut self)
        ensures
            final(self)@ == resolution::begin_scope(old(self)@),
    {
        self.scopes.push(vec![]);
        assert(scope_model(Seq::<(String, bool)>::empty()) =~= Seq::<(Seq<char>, bool)>::empty());
        assert(self@.scopes =~= old(self)@.scopes.push(seq![]));
    }

    pub fn end_scope(&mut self)
        ensures
            final(self)@ == resolution::end_scope(old(self)@),
    {
        self.scopes.pop();
        assert(self@.scopes =~= resolution::end_scope(old(self)@).scopes);
    }

    /// Replaces the innermost scope.
    fn set_innermost(&mut self, scope: Vec<(String, bool)>)
        requires
            old(self).scopes@.len() > 0,
        ensures
            final(self)@ == resolution::with_scopes(
                old(self)@,
                old(self)@.scopes.update(old(self)@.scopes.len() - 1, scope_model(scope@)),
            ),
    {
        self.scopes.pop();
        self.scopes.push(scope);
        assert(self@.scopes =~= old(self)@.scopes.update(
            old(self)@.scopes.len() - 1,
            scope_model(scope@),
        ));
    }

    /// The innermost scope, copied.
    fn innermost(&self) -> (r: Vec<(String, bool)>)
        requires
            self.scopes@.len() > 0,
        ensures
            scope_model(r@) == self@.scopes.last(),
    {
        let last = &self.scopes[self.scopes.len() - 1];
        let mut r: Vec<(String, bool)> = Vec::new();
        let mut i: usize = 0;
        while i < last.len()
            invariant
                i <= last@.len(),
                last == self.scopes@[self.scopes@.len() - 1],
                scope_model(r@) == scope_model(last@).take(i as int),
            decreases last@.len() - i,
        {
            let entry = (last[i].0.clone(), last[i].1);
            let ghost before = r@;
            r.push(entry);
            assert(scope_model(r@) =~= scope_model(before).push((entry.0@, entry.1)));
            assert(scope_model(last@).take(i + 1) =~= scope_model(last@).take(i as int).push(
                scope_model(last@)[i as int],
            ));
            i = i + 1;
        }
        assert(scope_model(last@).take(last@.len() as int) =~= scope_model(last@));
        r
    }

    fn push_ready(&mut self, name: &str)
        ensures
            final(self)@ == resolution::push_ready(old(self)@, name@),
    {
        if self.scopes.len() == 0 {
            return;
        }
        let mut scope = self.innermost();
        let ghost before = scope@;
        scope.push((String::from_str(name), true));
        assert(scope_model(scope@) =~= scope_model(before).push((name@, true)));
        self.set_innermost(scope);
    }

    pub fn declare(&mut self, name: &Token)
        ensures
            final(self)@ == resolution::declare(old(self)@, *name),
    {
        if self.scopes.len() == 0 {
            return;
        }
        let mut scope = self.innermost();
        match last_index_of(&scope, &name.lexeme) {
            Some(i) => {
                proof {
                    lemma_last_index_facts(scope_model(scope@), name.lexeme@);
                    assert(resolution::holds(scope_model(scope@), name.lexeme@));
                }
                self.report(ResolveError::Redeclared { name: name.lexeme.clone(), line: name.line });
            },
            None => {
                proof {
                    lemma_last_index_facts(scope_model(scope@), name.lexeme@);
                }
                let ghost before = scope@;
                scope.push((name.lexeme.clone(), false));
                assert(scope_model(scope@) =~= scope_model(before).push((name.lexeme@, false)));
                self.set_innermost(scope);
            },
        }
    }

    pub fn define(&mut self, name: &Token)
        ensures
            final(self)@ == resolution::define(old(self)@, *name),
    {
        if self.scopes.len() == 0 {
            return;
        }
        let mut scope = self.innermost();
        if let Some(i) = last_index_of(&scope, &name.lexeme) {
            proof {
                lemma_last_index_facts(scope_model(scope@), name.lexeme@);
            }
            let ghost before = scope@;
            scope.set(i, (name.lexeme.clone(), true));
            assert(scope_model(scope@) =~= scope_model(before).update(i as int, (name.lexeme@, true)));
            self.set_innermost(scope);
        }
    }

    fn resolve_local(&mut self, id: usize, token: &Token)
        ensures
            final(self)@ == resolution::resolve_local(old(self)@, id, *token),
    {
        let ghost sm = self@.scopes;
        let n = self.scopes.len();
        let mut depth: usize = 0;
        while depth < n
            invariant
                n == self.scopes@.len(),
                sm == self@.scopes,
                self@ == old(self)@,
                depth <= n,
                forall|k: int| 0 <= k < depth ==> last_index(#[trigger] sm[sm.len() - 1 - k], token.lexeme@) is None,
            decreases n - depth,
        {
            let found = last_index_of(&self.scopes[n - 1 - depth], &token.lexeme);
            if let Some(index) = found {
                proof {
                    lemma_lookup_outer(sm, token.lexeme@, depth as int);
                    let inner = sm.take(sm.len() - depth);
                    assert(inner.last() == sm[sm.len() - 1 - depth]);
                }
                self.locals.insert(id, (depth, index));
                return;
            }
            depth = depth + 1;
        }
        proof {
            lemma_lookup_outer(sm, token.lexeme@, n as int);
            assert(sm.take(0) =~= Seq::<Scope>::empty());
        }
    }
}


impl Resolver {
    #[verifier::spinoff_prover]
    #[verifier::rlimit(50)]
    pub fn resolve_expr(&mut self, expr: &Expr)
        ensures
            final(self)@ == resolution::resolve_expr(old(self)@, expr@),
        decreases expr,
    {
        match expr {
            Expr::Variable(token, id) => {
                if self.scopes.len() > 0 {
                    let scope = &self.scopes[self.scopes.len() - 1];
                    proof {
                        lemma_last_index_facts(scope_model(scope@), token.lexeme@);
                    }
                    if let Some(i) = last_index_of(scope, &token.lexeme) {
                        if !scope[i].1 {
                            self.report(ResolveError::OwnInitializer { line: token.line });
                            return;
                        }
                    }
                }
                self.resolve_local(*id, token);
            },
            Expr::Assignment { name, id, value } => {
                self.resolve_expr(value);
                self.resolve_local(*id, name);
            },
            Expr::Binary { left, right, .. } => {
                self.resolve_expr(left);
                self.resolve_expr(right);
            },
            Expr::Call { callee, args, .. } => {
                self.resolve_expr(callee);
                let ghost st1 = self@;
                let mut i: usize = 0;
                proof {
                    assert(args@.take(0) =~= Seq::<Expr>::empty());
                    assert forall|j: int| 0 <= j < args@.len() implies decreases_to!(expr => args@[j]) by {
                        assert(decreases_to!(expr => *args));
                        assert(decreases_to!(*args => args@));
                        assert(decreases_to!(args@ => args@[j]));
                    }
                }
                while i < args.len()
                    invariant
                        i <= args@.len(),
                        self@ == resolution::resolve_exprs(st1, expr_models(args@.take(i as int))),
                        forall|j: int| 0 <= j < args@.len() ==> decreases_to!(expr => args@[j]),
                    decreases args@.len() - i,
                {
                    let ghost prev = expr_models(args@.take(i as int));
                    self.resolve_expr(&args[i]);
                    proof {
                        assert(args@.take(i + 1).drop_last() =~= args@.take(i as int));
                        assert(expr_models(args@.take(i + 1)) == prev.push(args@[i as int]@));
                        assert(prev.push(args@[i as int]@).drop_last() =~= prev);
                    }
                    i = i + 1;
                }
                assert(args@.take(args@.len() as int) =~= args@);
            },
            Expr::Grouping { expr } => {
                self.resolve_expr(expr);
            },
            Expr::Literal(_) => {},
            Expr::Logical { left, right, .. } => {
                self.resolve_expr(left);
                self.resolve_expr(right);
            },
            Expr::Unary { right, .. } => {
                self.resolve_expr(right);
            },
            Expr::Get { object, .. } => {
                self.resolve_expr(object);
            },
            Expr::SetProperty { object, value, .. } => {
                self.resolve_expr(object);
                self.resolve_expr(value);
            },
            Expr::This { token, id } => {
                if self.current_class == ClassType::NONE {
                    self.report(ResolveError::ThisOutsideClass { line: token.line });
                    return;
                }
                self.resolve_local(*id, token);
            },
            Expr::Super { keyword, id, .. } => {
                if self.current_class == ClassType::NONE {
                    self.report(ResolveError::SuperOutsideClass { line: keyword.line });
                    return;
                }
                if self.current_class != ClassType::SUBCLASS {
                    self.report(ResolveError::SuperWithoutSuperclass { line: keyword.line });
                    return;
                }
                self.resolve_local(*id, keyword);
            },
        }
    }

    #[verifier::spinoff_prover]
    #[verifier::rlimit(50)]
    pub fn resolve_statement(&mut self, statement: &Statement)
        ensures
            final(self)@ == resolution::resolve_stmt(old(self)@, statement@),
        decreases statement,
    {
        match statement {
            Statement::BlockStmt(stmts) => {
                self.resolve_block(statement, stmts);
            },
            Statement::VarStmt(name, expr) => {
                self.declare(name);
                if let Some(expr) = expr {
                    self.resolve_expr(expr);
                }
                self.define(name);
            },
            Statement::FunctionStmt(identifier, params, body, function_type) => {
                self.declare(identifier);
                self.define(identifier);
                self.resolve_function(params, body, *function_type);
            },
            Statement::ExpressionStmt(expr) => {
                self.resolve_expr(expr);
            },
            Statement::IfStmt(condition, then_branch, else_branch) => {
                self.resolve_expr(condition);
                self.resolve_statement(then_branch);
                if let Some(else_branch) = else_branch {
                    self.resolve_statement(else_branch);
                }
            },
            Statement::PrintStmt(expr) => {
                self.resolve_expr(expr);
            },
            Statement::ReturnStmt(keyword, expr) => {
                if self.current_function == FunctionType::NONE {
                    self.report(ResolveError::ReturnOutsideFunction);
                    return;
                }
                if let Some(e) = expr {
                    if self.current_function == FunctionType::INIT {
                        self.report(ResolveError::ReturnValueFromInit { line: keyword.line });
                    }
                    self.resolve_expr(e);
                }
            },
            Statement::WhileStmt(condition, body) => {
                self.resolve_expr(condition);
                self.resolve_statement(body);
            },
            Statement::ClassStmt(name, methods, superclass) => {
                self.resolve_class(statement, name, methods, superclass);
            },
        }
    }

    /// Resolves the statements of a block in a scope of their own.
    fn resolve_block(&mut self, statement: &Statement, stmts: &Vec<Statement>)
        requires
            *statement == Statement::BlockStmt(*stmts),
        ensures
            final(self)@ == resolution::resolve_stmt(old(self)@, statement@),
        decreases statement, 0int,
    {
        self.begin_scope();
        let ghost st1 = self@;
        let mut i: usize = 0;
        proof {
            assert(stmts@.take(0) =~= Seq::<Statement>::empty());
            assert forall|j: int| 0 <= j < stmts@.len() implies decreases_to!(statement => stmts@[j]) by {
                assert(decreases_to!(statement => *stmts));
                assert(decreases_to!(*stmts => stmts@));
                assert(decreases_to!(stmts@ => stmts@[j]));
            }
        }
        while i < stmts.len()
            invariant
                i <= stmts@.len(),
                self@ == resolution::resolve_stmts(st1, stmt_models(stmts@.take(i as int))),
                forall|j: int| 0 <= j < stmts@.len() ==> decreases_to!(statement => stmts@[j]),
            decreases stmts@.len() - i,
        {
            let ghost prev = stmt_models(stmts@.take(i as int));
            self.resolve_statement(&stmts[i]);
            proof {
                assert(stmts@.take(i + 1).drop_last() =~= stmts@.take(i as int));
                assert(stmt_models(stmts@.take(i + 1)) == prev.push(stmts@[i as int]@));
                assert(prev.push(stmts@[i as int]@).drop_last() =~= prev);
            }
            i = i + 1;
        }
        assert(stmts@.take(stmts@.len() as int) =~= stmts@);
        self.end_scope();
    }

    /// Resolves a class declaration: its name, its superclass, and its
    /// methods inside a scope that holds `this` (within one that holds
    /// `super`, for a subclass).
    fn resolve_class(
        &mut self,
        statement: &Statement,
        name: &Token,
        methods: &Vec<Statement>,
        superclass: &Option<Expr>,
    )
        requires
            *statement == Statement::ClassStmt(*name, *methods, *superclass),
        ensures
            final(self)@ == resolution::resolve_stmt(old(self)@, statement@),
        decreases statement, 0int,
    {
        let enclosing = self.current_class;
        self.current_class = ClassType::CLASS;
        self.declare(name);
        self.define(name);
        if let Some(Expr::Variable(t, _)) = superclass {
            if t.lexeme == name.lexeme {
                self.report(ResolveError::InheritsFromItself { line: name.line });
            }
        }
        if let Some(sup) = superclass {
            self.current_class = ClassType::SUBCLASS;
            self.resolve_expr(sup);
        }
        if superclass.is_some() {
            self.begin_scope();
            self.push_ready("super");
        }
        self.begin_scope();
        self.push_ready("this");
        let ghost st1 = self@;
        let mut i: usize = 0;
        proof {
            assert(methods@.take(0) =~= Seq::<Statement>::empty());
            assert forall|j: int| 0 <= j < methods@.len() implies decreases_to!(statement => methods@[j]) by {
                assert(decreases_to!(statement => *methods));
                assert(decreases_to!(*methods => methods@));
                assert(decreases_to!(methods@ => methods@[j]));
            }
        }
        while i < methods.len()
            invariant
                i <= methods@.len(),
                self@ == resolution::resolve_methods(st1, stmt_models(methods@.take(i as int))),
                forall|j: int| 0 <= j < methods@.len() ==> decreases_to!(statement => methods@[j]),
            decreases methods@.len() - i,
        {
            let ghost prev = stmt_models(methods@.take(i as int));
            if let Statement::FunctionStmt(_, params, body, function_type) = &methods[i] {
                proof {
                    assert(decreases_to!(methods@[i as int] => *body));
                }
                self.resolve_function(params, body, *function_type);
            }
            proof {
                assert(methods@.take(i + 1).drop_last() =~= methods@.take(i as int));
                assert(stmt_models(methods@.take(i + 1)) == prev.push(methods@[i as int]@));
                assert(prev.push(methods@[i as int]@).drop_last() =~= prev);
            }
            i = i + 1;
        }
        assert(methods@.take(methods@.len() as int) =~= methods@);
        self.end_scope();
        if superclass.is_some() {
            self.end_scope();
        }
        self.current_class = enclosing;
    }

    fn resolve_function(
        &mut self,
        params: &Vec<Token>,
        body: &Rc<Box<Statement>>,
        function_type: FunctionType,
    )
        ensures
            final(self)@ == resolution::resolve_function(
                old(self)@,
                params@,
                (**body)@,
                function_type,
            ),
        decreases body,
    {
        let enclosing_function = self.current_function;
        self.current_function = function_type;
        self.begin_scope();
        let ghost st1 = self@;
        let mut i: usize = 0;
        assert(params@.take(0) =~= Seq::<Token>::empty());
        while i < params.len()
            invariant
                i <= params@.len(),
                self@ == resolution::declare_params(st1, params@.take(i as int)),
            decreases params@.len() - i,
        {
            self.declare(&params[i]);
            self.define(&params[i]);
            assert(params@.take(i + 1).drop_last() =~= params@.take(i as int));
            i = i + 1;
        }
        assert(params@.take(params@.len() as int) =~= params@);
        let inner: &Statement = &**body;
        if let Statement::BlockStmt(stmts) = inner {
            let ghost st2 = self@;
            let mut j: usize = 0;
            proof {
                assert(stmts@.take(0) =~= Seq::<Statement>::empty());
                assert forall|k: int| 0 <= k < stmts@.len() implies decreases_to!(body => stmts@[k]) by {
                    assert(decreases_to!(body => *stmts));
                    assert(decreases_to!(*stmts => stmts@));
                    assert(decreases_to!(stmts@ => stmts@[k]));
                }
            }
            while j < stmts.len()
                invariant
                    j <= stmts@.len(),
                    self@ == resolution::resolve_stmts(st2, stmt_models(stmts@.take(j as int))),
                    forall|k: int| 0 <= k < stmts@.len() ==> decreases_to!(body => stmts@[k]),
                decreases stmts@.len() - j,
            {
                let ghost prev = stmt_models(stmts@.take(j as int));
                self.resolve_statement(&stmts[j]);
                proof {
                    assert(stmts@.take(j + 1).drop_last() =~= stmts@.take(j as int));
                    assert(stmt_models(stmts@.take(j + 1)) == prev.push(stmts@[j as int]@));
                    assert(prev.push(stmts@[j as int]@).drop_last() =~= prev);
                }
                j = j + 1;
            }
            assert(stmts@.take(stmts@.len() as int) =~= stmts@);
        }
        self.end_scope();
        self.current_function = enclosing_function;
    }
}

} // verus!
