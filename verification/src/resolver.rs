//! The resolver: a pass over the syntax tree that finds, for each
//! expression naming a local variable, how many scopes out it is declared,
//! and reports variables that are never used or read in their own
//! initializer. `resolver_spec` says what it computes.

use std::collections::HashMap;

use vstd::prelude::*;

use crate::ast::{exprs_model, stmts_model, tokens_model, Expr, Stmt};
use crate::parser::{lemma_exprs_model_push, lemma_stmts_model_push, lemma_strings_model_push, strings_model};
use crate::resolver_spec::{initial_state, after_expr, after_exprs, after_function, after_method, after_methods, after_params, after_stmt, after_stmts, begun, declared, defined, ended, local_resolved, resolution, scope_index, unused_errors, unused_message, var_index, variable_read, RState, SVar};
use crate::text::push_str;
use crate::token::{SToken, Token};
use crate::utility::{error, error_string};

verus! {

broadcast use vstd::std_specs::hash::group_hash_axioms;

/// A variable of a block scope.
struct VariableState {
    name: Token,
    defined: bool,
    used: bool,
}

impl View for VariableState {
    type V = SVar;

    closed spec fn view(&self) -> SVar {
        SVar { name: self.name@, defined: self.defined, used: self.used }
    }
}

spec fn scope_model(scope: Seq<VariableState>) -> Seq<SVar> {
    scope.map_values(|v: VariableState| v@)
}

spec fn scopes_model(scopes: Seq<Vec<VariableState>>) -> Seq<Seq<SVar>> {
    scopes.map_values(|s: Vec<VariableState>| scope_model(s@))
}

/// The semantic analysis pass.
pub struct Resolver {
    scopes: Vec<Vec<VariableState>>,
    locals: HashMap<usize, usize>,
    errors: Vec<String>,
}

impl View for Resolver {
    type V = RState;

    closed spec fn view(&self) -> RState {
        RState { scopes: scopes_model(self.scopes@), locals: self.locals@, errors: strings_model(self.errors@) }
    }
}

/// The index of the variable called `name` in `scope`, searching from the
/// most recently declared.
fn find_var(scope: &Vec<VariableState>, name: &String) -> (r: Option<usize>)
    ensures
        match r {
            Some(j) => j as int == var_index(scope_model(scope@), name@) && j < scope@.len(),
            None => var_index(scope_model(scope@), name@) == -1,
        },
{
    let ghost m = scope_model(scope@);
    let mut k = scope.len();
    assert(m.take(k as int) =~= m);
    while k > 0
        invariant
            k <= scope@.len(),
            m == scope_model(scope@),
            var_index(m, name@) == var_index(m.take(k as int), name@),
        decreases k,
    {
        proof {
            assert(m.take(k as int).drop_last() =~= m.take(k - 1));
        }
        if scope[k - 1].name.lexeme == *name {
            return Some(k - 1);
        }
        k = k - 1;
    }
    proof {
        assert(m.take(0) =~= Seq::<SVar>::empty());
    }
    None
}

impl Resolver {
    /// A resolver with no scope, nothing resolved and no error.
    pub fn new() -> (r: Self)
        ensures
            r@ == initial_state(),
    {
        let r = Resolver { scopes: Vec::new(), locals: HashMap::new(), errors: Vec::new() };
        proof {
            assert(r@.scopes =~= Seq::<Seq<SVar>>::empty());
            assert(r@.errors =~= Seq::<Seq<char>>::empty());
        }
        r
    }


    fn begin_scope(&mut self)
        ensures
            final(self)@ == begun(old(self)@),
    {
        self.scopes.push(Vec::new());
        proof {
            assert(scope_model(Seq::<VariableState>::empty()) =~= Seq::<SVar>::empty());
            assert(scopes_model(self.scopes@) =~= scopes_model(old(self).scopes@).push(Seq::empty()));
        }
    }

    fn end_scope(&mut self)
        ensures
            final(self)@ == ended(old(self)@),
    {
        match self.scopes.pop() {
            None => {},
            Some(scope) => {
                proof {
                    assert(scopes_model(self.scopes@) =~= scopes_model(old(self).scopes@).drop_last());
                }
                let ghost sm = scope_model(scope@);
                let ghost e0 = self.errors@;
                let mut i: usize = 0;
                assert(sm.take(0) =~= Seq::<SVar>::empty());
                assert(strings_model(e0) + unused_errors(sm.take(0)) =~= strings_model(e0));
                while i < scope.len()
                    invariant
                        i <= scope@.len(),
                        sm == scope_model(scope@),
                        e0 == old(self).errors@,
                        scopes_model(self.scopes@) == scopes_model(old(self).scopes@).drop_last(),
                        self.locals@ == old(self).locals@,
                        strings_model(self.errors@) == strings_model(e0) + unused_errors(sm.take(i as int)),
                    decreases scope@.len() - i,
                {
                    proof {
                        assert(sm.take(i + 1).drop_last() =~= sm.take(i as int));
                    }
                    if !scope[i].used {
                        let mut message = String::from_str("Local variable '");
                        push_str(&mut message, scope[i].name.lexeme.as_str());
                        push_str(&mut message, "' is not used");
                        let e = error_string(&message, &scope[i].name);
                        proof {
                            lemma_strings_model_push(self.errors@, e);
                            assert(e@ == unused_message(sm[i as int]));
                            assert(strings_model(e0) + unused_errors(sm.take(i + 1)) =~= (strings_model(e0) + unused_errors(sm.take(i as int))).push(e@));
                        }
                        self.errors.push(e);
                    } else {
                        assert(strings_model(e0) + unused_errors(sm.take(i + 1)) =~= strings_model(e0) + unused_errors(sm.take(i as int)));
                    }
                    i += 1;
                }
                proof {
                    assert(sm.take(scope@.len() as int) =~= sm);
                }
            },
        }
    }

    fn declare(&mut self, name: &Token)
        ensures
            final(self)@ == declared(old(self)@, name@),
    {
        let n = self.scopes.len();
        if n > 0 {
            let j = find_var(&self.scopes[n - 1], &name.lexeme);
            let v = VariableState { name: name.clone(), defined: false, used: false };
            let ghost old_scope = self.scopes@[n - 1]@;
            match j {
                Some(j) => {
                    self.scopes[n - 1].set(j, v);
                    proof {
                        assert(scope_model(self.scopes@[n - 1]@) =~= scope_model(old_scope).update(j as int, v@));
                    }
                },
                None => {
                    self.scopes[n - 1].push(v);
                    proof {
                        assert(scope_model(self.scopes@[n - 1]@) =~= scope_model(old_scope).push(v@));
                    }
                },
            }
            proof {
                assert(scopes_model(self.scopes@) =~= declared(old(self)@, name@).scopes);
            }
        }
    }

    fn define(&mut self, name: &Token)
        ensures
            final(self)@ == defined(old(self)@, name@),
    {
        let n = self.scopes.len();
        if n > 0 {
            match find_var(&self.scopes[n - 1], &name.lexeme) {
                Some(j) => {
                    let ghost old_scope = self.scopes@[n - 1]@;
                    self.scopes[n - 1][j].defined = true;
                    proof {
                        assert(scope_model(self.scopes@[n - 1]@) =~= scope_model(old_scope).update(
                            j as int,
                            SVar { defined: true, ..scope_model(old_scope)[j as int] },
                        ));
                        assert(scopes_model(self.scopes@) =~= defined(old(self)@, name@).scopes);
                    }
                },
                None => {},
            }
        }
    }

    fn resolve_local(&mut self, id: usize, name: &Token)
        ensures
            final(self)@ == local_resolved(old(self)@, id as nat, name@),
    {
        let ghost sm = scopes_model(self.scopes@);
        let n = self.scopes.len();
        let mut i = n;
        assert(sm.take(n as int) =~= sm);
        while i > 0
            invariant
                i <= n,
                n == self.scopes@.len(),
                sm == scopes_model(self.scopes@),
                self.scopes@ == old(self).scopes@,
                self.locals@ == old(self).locals@,
                self.errors@ == old(self).errors@,
                scope_index(sm, name.lexeme@) == scope_index(sm.take(i as int), name.lexeme@),
            decreases i,
        {
            proof {
                assert(sm.take(i as int).drop_last() =~= sm.take(i - 1));
            }
            match find_var(&self.scopes[i - 1], &name.lexeme) {
                Some(j) => {
                    let ghost old_scope = self.scopes@[i - 1]@;
                    self.scopes[i - 1][j].used = true;
                    self.locals.insert(id, n - i);
                    proof {
                        assert(scope_model(self.scopes@[i - 1]@) =~= scope_model(old_scope).update(
                            j as int,
                            SVar { used: true, ..scope_model(old_scope)[j as int] },
                        ));
                        assert(scopes_model(self.scopes@) =~= local_resolved(old(self)@, id as nat, name@).scopes);
                    }
                    return;
                },
                None => {},
            }
            i = i - 1;
        }
        proof {
            assert(sm.take(0) =~= Seq::<Seq<SVar>>::empty());
        }
    }

    fn resolve_var_expr(&mut self, id: usize, name: &Token)
        ensures
            final(self)@ == variable_read(old(self)@, id as nat, name@),
    {
        let n = self.scopes.len();
        if n > 0 {
            match find_var(&self.scopes[n - 1], &name.lexeme) {
                Some(j) => {
                    if !self.scopes[n - 1][j].defined {
                        let e = error("Cannot read local variable in its own initializer.", name);
                        proof {
                            lemma_strings_model_push(self.errors@, e);
                        }
                        self.errors.push(e);
                    }
                },
                None => {},
            }
        }
        self.resolve_local(id, name);
    }

    fn resolve_expr(&mut self, expr: &Expr)
        ensures
            final(self)@ == after_expr(old(self)@, expr@),
        decreases expr, 0nat,
    {
        match expr {
            Expr::Assign { id, name, value } => {
                self.resolve_expr(value);
                self.resolve_local(*id, name);
            },
            Expr::Binary { left, right, .. } => {
                self.resolve_expr(left);
                self.resolve_expr(right);
            },
            Expr::Call { callee, arguments, .. } => {
                self.resolve_expr(callee);
                self.resolve_exprs(arguments);
            },
            Expr::Get { object, .. } => self.resolve_expr(object),
            Expr::Grouping { expression } => self.resolve_expr(expression),
            Expr::Literal { .. } => {},
            Expr::Logical { left, right, .. } => {
                self.resolve_expr(left);
                self.resolve_expr(right);
            },
            Expr::SetField { object, value, .. } => {
                self.resolve_expr(value);
                self.resolve_expr(object);
            },
            Expr::Super { .. } => {},
            Expr::This { .. } => {},
            Expr::Unary { right, .. } => self.resolve_expr(right),
            Expr::Variable { id, name } => self.resolve_var_expr(*id, name),
        }
    }

    fn resolve_exprs(&mut self, exprs: &Vec<Expr>)
        ensures
            final(self)@ == after_exprs(old(self)@, exprs_model(exprs@)),
        decreases exprs, 0nat,
    {
        let mut i: usize = 0;
        assert(exprs@.take(0) =~= Seq::<Expr>::empty());
        while i < exprs.len()
            invariant
                i <= exprs@.len(),
                self@ == after_exprs(old(self)@, exprs_model(exprs@.take(i as int))),
            decreases exprs@.len() - i,
        {
            proof {
                assert(exprs@.take(i + 1) =~= exprs@.take(i as int).push(exprs@[i as int]));
                lemma_exprs_model_push(exprs@.take(i as int), exprs@[i as int]);
                assert(exprs_model(exprs@.take(i + 1)).drop_last() =~= exprs_model(exprs@.take(i as int)));
                assert(decreases_to!(exprs => exprs@[i as int]));
            }
            self.resolve_expr(&exprs[i]);
            i += 1;
        }
        assert(exprs@.take(exprs@.len() as int) =~= exprs@);
    }

    fn resolve_function(&mut self, parameters: &Vec<Token>, body: &Vec<Stmt>)
        ensures
            final(self)@ == after_function(old(self)@, tokens_model(parameters@), stmts_model(body@)),
        decreases body, 1nat,
    {
        self.begin_scope();
        let ghost st0 = self@;
        let mut i: usize = 0;
        assert(tokens_model(parameters@.take(0)) =~= Seq::<SToken>::empty());
        while i < parameters.len()
            invariant
                i <= parameters@.len(),
                self@ == after_params(st0, tokens_model(parameters@.take(i as int))),
            decreases parameters@.len() - i,
        {
            proof {
                assert(tokens_model(parameters@.take(i + 1)).drop_last() =~= tokens_model(parameters@.take(i as int)));
            }
            self.declare(&parameters[i]);
            self.define(&parameters[i]);
            i += 1;
        }
        assert(parameters@.take(parameters@.len() as int) =~= parameters@);
        self.resolve_stmts(body);
        self.end_scope();
    }

    fn resolve_method(&mut self, method: &Stmt)
        ensures
            final(self)@ == after_method(old(self)@, method@),
        decreases method, 2nat,
    {
        match method {
            Stmt::Function { parameters, body, .. } => self.resolve_function(parameters, body),
            _ => {},
        }
    }

    fn resolve_methods(&mut self, methods: &Vec<Stmt>)
        ensures
            final(self)@ == after_methods(old(self)@, stmts_model(methods@)),
        decreases methods, 3nat,
    {
        let mut i: usize = 0;
        assert(methods@.take(0) =~= Seq::<Stmt>::empty());
        while i < methods.len()
            invariant
                i <= methods@.len(),
                self@ == after_methods(old(self)@, stmts_model(methods@.take(i as int))),
            decreases methods@.len() - i,
        {
            proof {
                assert(methods@.take(i + 1) =~= methods@.take(i as int).push(methods@[i as int]));
                lemma_stmts_model_push(methods@.take(i as int), methods@[i as int]);
                assert(stmts_model(methods@.take(i + 1)).drop_last() =~= stmts_model(methods@.take(i as int)));
                assert(decreases_to!(methods => methods@[i as int]));
            }
            self.resolve_method(&methods[i]);
            i += 1;
        }
        assert(methods@.take(methods@.len() as int) =~= methods@);
    }

    fn resolve_stmt(&mut self, stmt: &Stmt)
        ensures
            final(self)@ == after_stmt(old(self)@, stmt@),
        decreases stmt, 0nat,
    {
        match stmt {
            Stmt::Block { statements } => {
                self.begin_scope();
                self.resolve_stmts(statements);
                self.end_scope();
            },
            Stmt::Break => {},
            Stmt::Class { name, superclass, methods } => {
                self.declare(name);
                self.define(name);
                match superclass {
                    Some(e) => self.resolve_expr(e),
                    None => {},
                }
                self.resolve_methods(methods);
            },
            Stmt::Continue => {},
            Stmt::Expression { expression } => self.resolve_expr(expression),
            Stmt::Function { name, parameters, body } => {
                self.declare(name);
                self.define(name);
                self.resolve_function(parameters, body);
            },
            Stmt::If { condition, then_branch, else_branch } => {
                self.resolve_expr(condition);
                self.resolve_stmt(then_branch);
                match else_branch {
                    Some(b) => self.resolve_stmt(b),
                    None => {},
                }
            },
            Stmt::Print { expression } => self.resolve_expr(expression),
            Stmt::Return { value, .. } => self.resolve_expr(value),
            Stmt::Var { name, initializer } => {
                self.declare(name);
                match initializer {
                    Some(e) => self.resolve_expr(e),
                    None => {},
                }
                self.define(name);
            },
            Stmt::While { condition, body, increment } => {
                self.resolve_expr(condition);
                self.resolve_stmt(body);
                match increment {
                    Some(e) => self.resolve_expr(e),
                    None => {},
                }
            },
        }
    }

    fn resolve_stmts(&mut self, statements: &Vec<Stmt>)
        ensures
            final(self)@ == after_stmts(old(self)@, stmts_model(statements@)),
        decreases statements, 0nat,
    {
        let mut i: usize = 0;
        assert(statements@.take(0) =~= Seq::<Stmt>::empty());
        while i < statements.len()
            invariant
                i <= statements@.len(),
                self@ == after_stmts(old(self)@, stmts_model(statements@.take(i as int))),
            decreases statements@.len() - i,
        {
            proof {
                assert(statements@.take(i + 1) =~= statements@.take(i as int).push(statements@[i as int]));
                lemma_stmts_model_push(statements@.take(i as int), statements@[i as int]);
                assert(stmts_model(statements@.take(i + 1)).drop_last() =~= stmts_model(statements@.take(i as int)));
                assert(decreases_to!(statements => statements@[i as int]));
            }
            self.resolve_stmt(&statements[i]);
            i += 1;
        }
        assert(statements@.take(statements@.len() as int) =~= statements@);
    }

    /// Resolves a program. Returns the depth found for each expression that
    /// names a local variable if no error was found, else every error, in
    /// the order found.
    pub fn resolve(self, statements: &Vec<Stmt>) -> (r: Result<HashMap<usize, usize>, Vec<String>>)
        ensures
            match r {
                Ok(m) => resolution(after_stmts(self@, stmts_model(statements@))) == Ok::<Map<usize, usize>, Seq<Seq<char>>>(m@),
                Err(e) => resolution(after_stmts(self@, stmts_model(statements@))) == Err::<Map<usize, usize>, Seq<Seq<char>>>(strings_model(e@)),
            },
    {
        let mut this = self;
        this.resolve_stmts(statements);
        if this.errors.len() == 0 {
            Ok(this.locals)
        } else {
            Err(this.errors)
        }
    }
}

} // verus!
