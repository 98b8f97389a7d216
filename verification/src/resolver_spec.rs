//! What the resolver computes, as functions on the syntax tree's model.
//!
//! The resolver walks the program once. It keeps a stack of block scopes,
//! each a sequence of the variables declared in it, records for each
//! expression that names a local variable how many scopes out that variable
//! was found, and collects error messages.

use vstd::prelude::*;

use crate::ast::{SExpr, SStmt};
use crate::parser_ids::{expr_ids, exprs_ids, opt_expr_ids, stmt_ids, stmts_ids};
use crate::token::SToken;
use crate::utility::error_text;

verus! {

/// A variable of a block scope: the token that declared it, whether its
/// initializer has been resolved, and whether it has been read or assigned.
pub struct SVar {
    pub name: SToken,
    pub defined: bool,
    pub used: bool,
}

/// The resolver's state: the scope stack (innermost last), the depth found
/// for each resolved expression id, and the error messages so far.
pub struct RState {
    pub scopes: Seq<Seq<SVar>>,
    pub locals: Map<usize, usize>,
    pub errors: Seq<Seq<char>>,
}

/// The state of a fresh resolver: no scope, nothing resolved, no error.
pub open spec fn initial_state() -> RState {
    RState { scopes: Seq::empty(), locals: Map::empty(), errors: Seq::empty() }
}

/// The index of the variable called `name` in `scope`, or -1.
pub open spec fn var_index(scope: Seq<SVar>, name: Seq<char>) -> int
    decreases scope.len(),
{
    if scope.len() == 0 {
        -1
    } else if scope.last().name.lexeme == name {
        scope.len() - 1
    } else {
        var_index(scope.drop_last(), name)
    }
}

/// The index of the innermost scope that declares `name`, or -1.
pub open spec fn scope_index(scopes: Seq<Seq<SVar>>, name: Seq<char>) -> int
    decreases scopes.len(),
{
    if scopes.len() == 0 {
        -1
    } else if var_index(scopes.last(), name) >= 0 {
        scopes.len() - 1
    } else {
        scope_index(scopes.drop_last(), name)
    }
}

/// No two variables of a scope share a name.
pub open spec fn distinct_names(scope: Seq<SVar>) -> bool {
    forall|i: int, j: int|
        0 <= i < scope.len() && 0 <= j < scope.len() && i != j ==> scope[i].name.lexeme != scope[j].name.lexeme
}

/// Every scope of the state has distinct names.
pub open spec fn scopes_distinct(st: RState) -> bool {
    forall|k: int| 0 <= k < st.scopes.len() ==> #[trigger] distinct_names(st.scopes[k])
}

/// The state with the innermost scope replaced by `scope`.
pub open spec fn with_innermost(st: RState, scope: Seq<SVar>) -> RState {
    RState { scopes: st.scopes.update(st.scopes.len() - 1, scope), ..st }
}

/// A new, empty scope is entered.
pub open spec fn begun(st: RState) -> RState {
    RState { scopes: st.scopes.push(Seq::empty()), ..st }
}

/// The message for a local variable that is never read or assigned.
pub open spec fn unused_message(v: SVar) -> Seq<char> {
    error_text("Local variable '"@ + v.name.lexeme + "' is not used"@, v.name)
}

/// The messages for the variables of `scope` that were never used, in the
/// order they were declared.
pub open spec fn unused_errors(scope: Seq<SVar>) -> Seq<Seq<char>>
    decreases scope.len(),
{
    if scope.len() == 0 {
        Seq::empty()
    } else if scope.last().used {
        unused_errors(scope.drop_last())
    } else {
        unused_errors(scope.drop_last()).push(unused_message(scope.last()))
    }
}

/// The innermost scope is left, with an error for each of its unused
/// variables.
pub open spec fn ended(st: RState) -> RState {
    if st.scopes.len() == 0 {
        st
    } else {
        RState { scopes: st.scopes.drop_last(), errors: st.errors + unused_errors(st.scopes.last()), ..st }
    }
}

/// `name` is declared in the innermost scope, not yet defined and not used;
/// a variable of the same name there is replaced. Outside any scope (at the
/// top level) nothing is recorded.
pub open spec fn declared(st: RState, name: SToken) -> RState {
    if st.scopes.len() == 0 {
        st
    } else {
        let scope = st.scopes.last();
        let j = var_index(scope, name.lexeme);
        let v = SVar { name, defined: false, used: false };
        with_innermost(st, if j >= 0 { scope.update(j, v) } else { scope.push(v) })
    }
}

/// `name`, if the innermost scope declares it, is marked defined there.
pub open spec fn defined(st: RState, name: SToken) -> RState {
    if st.scopes.len() == 0 {
        st
    } else {
        let scope = st.scopes.last();
        let j = var_index(scope, name.lexeme);
        if j >= 0 {
            with_innermost(st, scope.update(j, SVar { defined: true, ..scope[j] }))
        } else {
            st
        }
    }
}

/// The expression `id` names `name`: if some scope declares it, the
/// innermost such variable is marked used and `id` is recorded with the
/// number of scopes between it and the innermost scope.
pub open spec fn local_resolved(st: RState, id: nat, name: SToken) -> RState {
    let i = scope_index(st.scopes, name.lexeme);
    if i < 0 {
        st
    } else {
        let scope = st.scopes[i];
        let j = var_index(scope, name.lexeme);
        RState {
            scopes: st.scopes.update(i, scope.update(j, SVar { used: true, ..scope[j] })),
            locals: st.locals.insert(id as usize, (st.scopes.len() - 1 - i) as usize),
            errors: st.errors,
        }
    }
}

/// The message for a variable read in its own initializer.
pub open spec fn own_initializer_message(name: SToken) -> Seq<char> {
    error_text("Cannot read local variable in its own initializer."@, name)
}

/// The variable expression `id` reads `name`: an error if the innermost
/// scope declares `name` but has not defined it yet, then resolved.
pub open spec fn variable_read(st: RState, id: nat, name: SToken) -> RState {
    let st1 = if st.scopes.len() > 0 && var_index(st.scopes.last(), name.lexeme) >= 0
        && !st.scopes.last()[var_index(st.scopes.last(), name.lexeme)].defined {
        RState { errors: st.errors.push(own_initializer_message(name)), ..st }
    } else {
        st
    };
    local_resolved(st1, id, name)
}

/// Each parameter is declared and defined, in order.
pub open spec fn after_params(st: RState, params: Seq<SToken>) -> RState
    decreases params.len(),
{
    if params.len() == 0 {
        st
    } else {
        let st1 = after_params(st, params.drop_last());
        defined(declared(st1, params.last()), params.last())
    }
}

/// The state after resolving expression `e`.
pub open spec fn after_expr(st: RState, e: SExpr) -> RState
    decreases e, 0nat,
{
    match e {
        SExpr::Assign { id, name, value } => local_resolved(after_expr(st, *value), id, name),
        SExpr::Binary { left, right, .. } => after_expr(after_expr(st, *left), *right),
        SExpr::Call { callee, arguments, .. } => after_exprs(after_expr(st, *callee), arguments),
        SExpr::Get { object, .. } => after_expr(st, *object),
        SExpr::Grouping { expression } => after_expr(st, *expression),
        SExpr::Literal { .. } => st,
        SExpr::Logical { left, right, .. } => after_expr(after_expr(st, *left), *right),
        SExpr::SetField { object, value, .. } => after_expr(after_expr(st, *value), *object),
        SExpr::Super { .. } => st,
        SExpr::This { .. } => st,
        SExpr::Unary { right, .. } => after_expr(st, *right),
        SExpr::Variable { id, name } => variable_read(st, id, name),
    }
}

/// The state after resolving each expression of `es`, in order.
pub open spec fn after_exprs(st: RState, es: Seq<SExpr>) -> RState
    decreases es, 0nat,
{
    if es.len() == 0 {
        st
    } else {
        after_expr(after_exprs(st, es.drop_last()), es.last())
    }
}

/// The state after resolving a function's parameters and body in a scope
/// of their own.
pub open spec fn after_function(st: RState, params: Seq<SToken>, body: Seq<SStmt>) -> RState
    decreases body, 1nat,
{
    ended(after_stmts(after_params(begun(st), params), body))
}

/// The state after resolving a method of a class.
pub open spec fn after_method(st: RState, m: SStmt) -> RState
    decreases m, 2nat,
{
    match m {
        SStmt::Function { parameters, body, .. } => after_function(st, parameters, body),
        _ => st,
    }
}

/// The state after resolving each method of `ms`, in order.
pub open spec fn after_methods(st: RState, ms: Seq<SStmt>) -> RState
    decreases ms, 3nat,
{
    if ms.len() == 0 {
        st
    } else {
        after_method(after_methods(st, ms.drop_last()), ms.last())
    }
}

/// The state after resolving statement `s`.
pub open spec fn after_stmt(st: RState, s: SStmt) -> RState
    decreases s, 0nat,
{
    match s {
        SStmt::Block { statements } => ended(after_stmts(begun(st), statements)),
        SStmt::Break => st,
        SStmt::Class { name, superclass, methods } => {
            let st1 = defined(declared(st, name), name);
            let st2 = match superclass {
                Some(e) => after_expr(st1, e),
                None => st1,
            };
            after_methods(st2, methods)
        },
        SStmt::Continue => st,
        SStmt::Expression { expression } => after_expr(st, expression),
        SStmt::Function { name, parameters, body } => after_function(
            defined(declared(st, name), name),
            parameters,
            body,
        ),
        SStmt::If { condition, then_branch, else_branch } => {
            let st1 = after_stmt(after_expr(st, condition), *then_branch);
            match else_branch {
                Some(b) => after_stmt(st1, *b),
                None => st1,
            }
        },
        SStmt::Print { expression } => after_expr(st, expression),
        SStmt::Return { value, .. } => after_expr(st, value),
        SStmt::Var { name, initializer } => {
            let st1 = declared(st, name);
            let st2 = match initializer {
                Some(e) => after_expr(st1, e),
                None => st1,
            };
            defined(st2, name)
        },
        SStmt::While { condition, body, increment } => {
            let st1 = after_stmt(after_expr(st, condition), *body);
            match increment {
                Some(e) => after_expr(st1, e),
                None => st1,
            }
        },
    }
}

/// The state after resolving each statement of `ss`, in order.
pub open spec fn after_stmts(st: RState, ss: Seq<SStmt>) -> RState
    decreases ss, 0nat,
{
    if ss.len() == 0 {
        st
    } else {
        after_stmt(after_stmts(st, ss.drop_last()), ss.last())
    }
}

/// What resolving a whole program gives: the depths found if no error was
/// found, else the errors.
pub open spec fn resolution(st: RState) -> Result<Map<usize, usize>, Seq<Seq<char>>> {
    if st.errors.len() == 0 {
        Ok(st.locals)
    } else {
        Err(st.errors)
    }
}

} // verus!

verus! {

/// `a` is the start of `b`.
pub open spec fn extends(a: Seq<Seq<char>>, b: Seq<Seq<char>>) -> bool {
    a.len() <= b.len() && b.subrange(0, a.len() as int) == a
}

/// The resolver only ever adds to its errors, keeps the depth of its scope
/// stack across any expression or statement, and keeps the names of each
/// scope distinct.
pub open spec fn framed(st: RState, st2: RState) -> bool {
    &&& st2.scopes.len() == st.scopes.len()
    &&& extends(st.errors, st2.errors)
    &&& scopes_distinct(st) ==> scopes_distinct(st2)
}

proof fn lemma_extends_trans(a: Seq<Seq<char>>, b: Seq<Seq<char>>, c: Seq<Seq<char>>)
    requires
        extends(a, b),
        extends(b, c),
    ensures
        extends(a, c),
{
    assert(c.subrange(0, a.len() as int) =~= c.subrange(0, b.len() as int).subrange(0, a.len() as int));
}

proof fn lemma_framed_trans(a: RState, b: RState, c: RState)
    requires
        framed(a, b),
        framed(b, c),
    ensures
        framed(a, c),
{
    lemma_extends_trans(a.errors, b.errors, c.errors);
}

proof fn lemma_framed_refl(a: RState)
    ensures
        framed(a, a),
{
    assert(a.errors.subrange(0, a.errors.len() as int) =~= a.errors);
}

proof fn lemma_extends_push(a: Seq<Seq<char>>, m: Seq<char>)
    ensures
        extends(a, a.push(m)),
{
    assert(a.push(m).subrange(0, a.len() as int) =~= a);
}

/// What `var_index` finds is a variable of that name, and -1 means there
/// is none.
pub proof fn lemma_var_index(scope: Seq<SVar>, name: Seq<char>)
    ensures
        -1 <= var_index(scope, name) < scope.len(),
        var_index(scope, name) >= 0 ==> scope[var_index(scope, name)].name.lexeme == name,
        var_index(scope, name) == -1 ==> forall|i: int| 0 <= i < scope.len() ==> scope[i].name.lexeme != name,
    decreases scope.len(),
{
    if scope.len() > 0 {
        lemma_var_index(scope.drop_last(), name);
        if var_index(scope, name) == -1 {
            assert forall|i: int| 0 <= i < scope.len() implies scope[i].name.lexeme != name by {
                if i < scope.len() - 1 {
                    assert(scope.drop_last()[i] == scope[i]);
                }
            }
        }
    }
}

/// What `scope_index` finds is a scope that declares the name.
pub proof fn lemma_scope_index(scopes: Seq<Seq<SVar>>, name: Seq<char>)
    ensures
        -1 <= scope_index(scopes, name) < scopes.len(),
        scope_index(scopes, name) >= 0 ==> var_index(scopes[scope_index(scopes, name)], name) >= 0,
    decreases scopes.len(),
{
    if scopes.len() > 0 {
        lemma_scope_index(scopes.drop_last(), name);
    }
}

proof fn lemma_declared_framed(st: RState, name: SToken)
    ensures
        framed(st, declared(st, name)),
{
    lemma_framed_refl(st);
    if st.scopes.len() > 0 {
        let scope = st.scopes.last();
        lemma_var_index(scope, name.lexeme);
        let st2 = declared(st, name);
        if scopes_distinct(st) {
            assert forall|k: int| 0 <= k < st2.scopes.len() implies #[trigger] distinct_names(st2.scopes[k]) by {
                if k != st.scopes.len() - 1 {
                    assert(distinct_names(st.scopes[k]));
                } else {
                    assert(distinct_names(st.scopes[k]));
                }
            }
        }
    }
}

proof fn lemma_defined_framed(st: RState, name: SToken)
    ensures
        framed(st, defined(st, name)),
{
    lemma_framed_refl(st);
    if st.scopes.len() > 0 {
        let scope = st.scopes.last();
        lemma_var_index(scope, name.lexeme);
        let st2 = defined(st, name);
        if scopes_distinct(st) {
            assert forall|k: int| 0 <= k < st2.scopes.len() implies #[trigger] distinct_names(st2.scopes[k]) by {
                assert(distinct_names(st.scopes[k]));
            }
        }
    }
}

proof fn lemma_local_resolved_framed(st: RState, id: nat, name: SToken)
    ensures
        framed(st, local_resolved(st, id, name)),
{
    lemma_framed_refl(st);
    lemma_scope_index(st.scopes, name.lexeme);
    let i = scope_index(st.scopes, name.lexeme);
    if i >= 0 {
        lemma_var_index(st.scopes[i], name.lexeme);
        let st2 = local_resolved(st, id, name);
        if scopes_distinct(st) {
            assert forall|k: int| 0 <= k < st2.scopes.len() implies #[trigger] distinct_names(st2.scopes[k]) by {
                assert(distinct_names(st.scopes[k]));
            }
        }
    }
}

proof fn lemma_variable_read_framed(st: RState, id: nat, name: SToken)
    ensures
        framed(st, variable_read(st, id, name)),
{
    let st1 = if st.scopes.len() > 0 && var_index(st.scopes.last(), name.lexeme) >= 0
        && !st.scopes.last()[var_index(st.scopes.last(), name.lexeme)].defined {
        RState { errors: st.errors.push(own_initializer_message(name)), ..st }
    } else {
        st
    };
    lemma_extends_push(st.errors, own_initializer_message(name));
    lemma_framed_refl(st);
    assert(framed(st, st1));
    lemma_local_resolved_framed(st1, id, name);
    lemma_framed_trans(st, st1, local_resolved(st1, id, name));
}

proof fn lemma_after_params_framed(st: RState, params: Seq<SToken>)
    ensures
        framed(st, after_params(st, params)),
    decreases params.len(),
{
    if params.len() == 0 {
        lemma_framed_refl(st);
    } else {
        let st1 = after_params(st, params.drop_last());
        lemma_after_params_framed(st, params.drop_last());
        lemma_declared_framed(st1, params.last());
        lemma_defined_framed(declared(st1, params.last()), params.last());
        lemma_framed_trans(st, st1, declared(st1, params.last()));
        lemma_framed_trans(st, declared(st1, params.last()), after_params(st, params));
    }
}

/// Resolving an expression keeps the scope stack's depth and the
/// distinctness of names, and only adds errors.
pub proof fn lemma_after_expr_framed(st: RState, e: SExpr)
    ensures
        framed(st, after_expr(st, e)),
    decreases e, 0nat,
{
    match e {
        SExpr::Assign { id, name, value } => {
            lemma_after_expr_framed(st, *value);
            lemma_local_resolved_framed(after_expr(st, *value), id, name);
            lemma_framed_trans(st, after_expr(st, *value), after_expr(st, e));
        },
        SExpr::Binary { left, right, .. } => {
            lemma_after_expr_framed(st, *left);
            lemma_after_expr_framed(after_expr(st, *left), *right);
            lemma_framed_trans(st, after_expr(st, *left), after_expr(st, e));
        },
        SExpr::Call { callee, arguments, .. } => {
            lemma_after_expr_framed(st, *callee);
            lemma_after_exprs_framed(after_expr(st, *callee), arguments);
            lemma_framed_trans(st, after_expr(st, *callee), after_expr(st, e));
        },
        SExpr::Get { object, .. } => lemma_after_expr_framed(st, *object),
        SExpr::Grouping { expression } => lemma_after_expr_framed(st, *expression),
        SExpr::Logical { left, right, .. } => {
            lemma_after_expr_framed(st, *left);
            lemma_after_expr_framed(after_expr(st, *left), *right);
            lemma_framed_trans(st, after_expr(st, *left), after_expr(st, e));
        },
        SExpr::SetField { object, value, .. } => {
            lemma_after_expr_framed(st, *value);
            lemma_after_expr_framed(after_expr(st, *value), *object);
            lemma_framed_trans(st, after_expr(st, *value), after_expr(st, e));
        },
        SExpr::Unary { right, .. } => lemma_after_expr_framed(st, *right),
        SExpr::Variable { id, name } => lemma_variable_read_framed(st, id, name),
        _ => lemma_framed_refl(st),
    }
}

/// Resolving a sequence of expressions keeps what one does.
pub proof fn lemma_after_exprs_framed(st: RState, es: Seq<SExpr>)
    ensures
        framed(st, after_exprs(st, es)),
    decreases es, 0nat,
{
    if es.len() == 0 {
        lemma_framed_refl(st);
    } else {
        let st1 = after_exprs(st, es.drop_last());
        lemma_after_exprs_framed(st, es.drop_last());
        lemma_after_expr_framed(st1, es.last());
        lemma_framed_trans(st, st1, after_exprs(st, es));
    }
}

proof fn lemma_begun_ended_framed(st: RState, inner: RState)
    requires
        framed(begun(st), inner),
    ensures
        framed(st, ended(inner)),
{
    let b = begun(st);
    assert(inner.scopes.len() == st.scopes.len() + 1);
    let e = ended(inner);
    assert(extends(inner.errors, e.errors)) by {
        assert(e.errors.subrange(0, inner.errors.len() as int) =~= inner.errors);
    }
    lemma_extends_trans(st.errors, inner.errors, e.errors);
    if scopes_distinct(st) {
        assert(scopes_distinct(b)) by {
            assert forall|k: int| 0 <= k < b.scopes.len() implies #[trigger] distinct_names(b.scopes[k]) by {
                if k < st.scopes.len() {
                    assert(distinct_names(st.scopes[k]));
                }
            }
        }
        assert forall|k: int| 0 <= k < e.scopes.len() implies #[trigger] distinct_names(e.scopes[k]) by {
            assert(distinct_names(inner.scopes[k]));
        }
    }
}

/// Resolving a function keeps the scope stack's depth and the
/// distinctness of names, and only adds errors.
pub proof fn lemma_after_function_framed(st: RState, params: Seq<SToken>, body: Seq<SStmt>)
    ensures
        framed(st, after_function(st, params, body)),
    decreases body, 1nat,
{
    let b = begun(st);
    lemma_framed_refl(b);
    lemma_after_params_framed(b, params);
    let p = after_params(b, params);
    lemma_after_stmts_framed(p, body);
    lemma_framed_trans(b, p, after_stmts(p, body));
    lemma_begun_ended_framed(st, after_stmts(p, body));
}

pub proof fn lemma_after_method_framed(st: RState, m: SStmt)
    ensures
        framed(st, after_method(st, m)),
    decreases m, 2nat,
{
    match m {
        SStmt::Function { parameters, body, .. } => lemma_after_function_framed(st, parameters, body),
        _ => lemma_framed_refl(st),
    }
}

pub proof fn lemma_after_methods_framed(st: RState, ms: Seq<SStmt>)
    ensures
        framed(st, after_methods(st, ms)),
    decreases ms, 3nat,
{
    if ms.len() == 0 {
        lemma_framed_refl(st);
    } else {
        let st1 = after_methods(st, ms.drop_last());
        lemma_after_methods_framed(st, ms.drop_last());
        lemma_after_method_framed(st1, ms.last());
        lemma_framed_trans(st, st1, after_methods(st, ms));
    }
}

/// Resolving a statement keeps the scope stack's depth and the
/// distinctness of names, and only adds errors.
pub proof fn lemma_after_stmt_framed(st: RState, s: SStmt)
    ensures
        framed(st, after_stmt(st, s)),
    decreases s, 0nat,
{
    match s {
        SStmt::Block { statements } => {
            let b = begun(st);
            lemma_after_stmts_framed(b, statements);
            lemma_begun_ended_framed(st, after_stmts(b, statements));
        },
        SStmt::Class { name, superclass, methods } => {
            lemma_declared_framed(st, name);
            lemma_defined_framed(declared(st, name), name);
            let st1 = defined(declared(st, name), name);
            lemma_framed_trans(st, declared(st, name), st1);
            let st2 = match superclass {
                Some(e) => after_expr(st1, e),
                None => st1,
            };
            match superclass {
                Some(e) => lemma_after_expr_framed(st1, e),
                None => lemma_framed_refl(st1),
            }
            lemma_framed_trans(st, st1, st2);
            lemma_after_methods_framed(st2, methods);
            lemma_framed_trans(st, st2, after_methods(st2, methods));
        },
        SStmt::Expression { expression } => lemma_after_expr_framed(st, expression),
        SStmt::Function { name, parameters, body } => {
            lemma_declared_framed(st, name);
            lemma_defined_framed(declared(st, name), name);
            let st1 = defined(declared(st, name), name);
            lemma_framed_trans(st, declared(st, name), st1);
            lemma_after_function_framed(st1, parameters, body);
            lemma_framed_trans(st, st1, after_function(st1, parameters, body));
        },
        SStmt::If { condition, then_branch, else_branch } => {
            lemma_after_expr_framed(st, condition);
            let c = after_expr(st, condition);
            lemma_after_stmt_framed(c, *then_branch);
            lemma_framed_trans(st, c, after_stmt(c, *then_branch));
            let t = after_stmt(c, *then_branch);
            match else_branch {
                Some(b) => {
                    lemma_after_stmt_framed(t, *b);
                    lemma_framed_trans(st, t, after_stmt(t, *b));
                },
                None => {},
            }
        },
        SStmt::Print { expression } => lemma_after_expr_framed(st, expression),
        SStmt::Return { value, .. } => lemma_after_expr_framed(st, value),
        SStmt::Var { name, initializer } => {
            lemma_declared_framed(st, name);
            let st1 = declared(st, name);
            let st2 = match initializer {
                Some(e) => after_expr(st1, e),
                None => st1,
            };
            match initializer {
                Some(e) => lemma_after_expr_framed(st1, e),
                None => lemma_framed_refl(st1),
            }
            lemma_framed_trans(st, st1, st2);
            lemma_defined_framed(st2, name);
            lemma_framed_trans(st, st2, defined(st2, name));
        },
        SStmt::While { condition, body, increment } => {
            lemma_after_expr_framed(st, condition);
            let c = after_expr(st, condition);
            lemma_after_stmt_framed(c, *body);
            lemma_framed_trans(st, c, after_stmt(c, *body));
            let t = after_stmt(c, *body);
            match increment {
                Some(e) => {
                    lemma_after_expr_framed(t, e);
                    lemma_framed_trans(st, t, after_expr(t, e));
                },
                None => {},
            }
        },
        _ => lemma_framed_refl(st),
    }
}

/// Resolving a sequence of statements keeps the scope stack's depth and
/// the distinctness of names, and only adds errors.
pub proof fn lemma_after_stmts_framed(st: RState, ss: Seq<SStmt>)
    ensures
        framed(st, after_stmts(st, ss)),
    decreases ss, 0nat,
{
    if ss.len() == 0 {
        lemma_framed_refl(st);
    } else {
        let st1 = after_stmts(st, ss.drop_last());
        lemma_after_stmts_framed(st, ss.drop_last());
        lemma_after_stmt_framed(st1, ss.last());
        lemma_framed_trans(st, st1, after_stmts(st, ss));
    }
}

} // verus!

verus! {

/// Resolving any program with a fresh resolver leaves every scope it
/// opened: what it returns was found with no scope left open, and the names
/// of each scope stayed distinct all along.
pub proof fn law_resolution_balanced(ss: Seq<SStmt>)
    ensures
        after_stmts(initial_state(), ss).scopes.len() == 0,
        scopes_distinct(after_stmts(initial_state(), ss)),
{
    lemma_after_stmts_framed(initial_state(), ss);
}

} // verus!

verus! {

/// Every number that `st2` records and `st` did not is, as a `usize`, one
/// of `ids`.
pub open spec fn records_within(st: RState, st2: RState, ids: Seq<nat>) -> bool {
    forall|k: usize|
        #[trigger] st2.locals.dom().contains(k) ==> st.locals.dom().contains(k) || exists|j: int|
            0 <= j < ids.len() && ids[j] as usize == k
}

proof fn lemma_records_same(st: RState, st2: RState, ids: Seq<nat>)
    requires
        st2.locals == st.locals,
    ensures
        records_within(st, st2, ids),
{
}

proof fn lemma_records_trans(a: RState, b: RState, c: RState, i1: Seq<nat>, i2: Seq<nat>)
    requires
        records_within(a, b, i1),
        records_within(b, c, i2),
    ensures
        records_within(a, c, i1 + i2),
{
    assert forall|k: usize| #[trigger] c.locals.dom().contains(k) implies a.locals.dom().contains(k) || exists|j: int|
        0 <= j < (i1 + i2).len() && (i1 + i2)[j] as usize == k by {
        if !a.locals.dom().contains(k) {
            if b.locals.dom().contains(k) {
                let j = choose|j: int| 0 <= j < i1.len() && i1[j] as usize == k;
                assert((i1 + i2)[j] == i1[j]);
            } else {
                let j = choose|j: int| 0 <= j < i2.len() && i2[j] as usize == k;
                assert((i1 + i2)[i1.len() + j] == i2[j]);
            }
        }
    }
}

/// `a` holds every number of `b`.
pub open spec fn covers(a: Seq<nat>, b: Seq<nat>) -> bool {
    forall|j: int| 0 <= j < b.len() ==> a.contains(#[trigger] b[j])
}

proof fn lemma_records_weaken(st: RState, st2: RState, ids: Seq<nat>, more: Seq<nat>)
    requires
        records_within(st, st2, ids),
        covers(more, ids),
    ensures
        records_within(st, st2, more),
{
    assert forall|k: usize| #[trigger] st2.locals.dom().contains(k) implies st.locals.dom().contains(k) || exists|i: int|
        0 <= i < more.len() && more[i] as usize == k by {
        if !st.locals.dom().contains(k) {
            let j = choose|j: int| 0 <= j < ids.len() && ids[j] as usize == k;
            assert(more.contains(ids[j]));
            let i = choose|i: int| 0 <= i < more.len() && more[i] == ids[j];
            assert(more[i] as usize == k);
        }
    }
}

proof fn lemma_covers_swap(a: Seq<nat>, b: Seq<nat>, c: Seq<nat>)
    ensures
        covers(a + c + b, a + b + c),
{
    let x = a + b + c;
    let y = a + c + b;
    assert forall|j: int| 0 <= j < x.len() implies y.contains(#[trigger] x[j]) by {
        let w = if j < a.len() {
            j
        } else if j < a.len() + b.len() {
            j + c.len()
        } else {
            j - b.len()
        };
        assert(0 <= w < y.len() && y[w] == x[j]);
    }
    assert(covers(y, x));
}

proof fn lemma_records_local(st: RState, id: nat, name: SToken)
    ensures
        records_within(st, local_resolved(st, id, name), seq![id]),
{
    let st2 = local_resolved(st, id, name);
    assert forall|k: usize| #[trigger] st2.locals.dom().contains(k) implies st.locals.dom().contains(k) || exists|j: int|
        0 <= j < seq![id].len() && seq![id][j] as usize == k by {
        if !st.locals.dom().contains(k) {
            assert(seq![id][0] as usize == k);
        }
    }
}

proof fn lemma_records_variable(st: RState, id: nat, name: SToken)
    ensures
        records_within(st, variable_read(st, id, name), seq![id]),
{
    let st1 = if st.scopes.len() > 0 && var_index(st.scopes.last(), name.lexeme) >= 0
        && !st.scopes.last()[var_index(st.scopes.last(), name.lexeme)].defined {
        RState { errors: st.errors.push(own_initializer_message(name)), ..st }
    } else {
        st
    };
    lemma_records_local(st1, id, name);
}

/// Resolving an expression records only numbers of its own expressions.
pub proof fn lemma_after_expr_records(st: RState, e: SExpr)
    ensures
        records_within(st, after_expr(st, e), expr_ids(e)),
    decreases e, 0nat,
{
    match e {
        SExpr::Assign { id, name, value } => {
            lemma_after_expr_records(st, *value);
            lemma_records_local(after_expr(st, *value), id, name);
            lemma_records_trans(st, after_expr(st, *value), after_expr(st, e), expr_ids(*value), seq![id]);
            assert(expr_ids(*value) + seq![id] =~= expr_ids(*value).push(id));
        },
        SExpr::Binary { left, right, .. } => {
            lemma_after_expr_records(st, *left);
            lemma_after_expr_records(after_expr(st, *left), *right);
            lemma_records_trans(st, after_expr(st, *left), after_expr(st, e), expr_ids(*left), expr_ids(*right));
        },
        SExpr::Call { callee, arguments, .. } => {
            lemma_after_expr_records(st, *callee);
            lemma_after_exprs_records(after_expr(st, *callee), arguments);
            lemma_records_trans(st, after_expr(st, *callee), after_expr(st, e), expr_ids(*callee), exprs_ids(arguments));
        },
        SExpr::Get { object, .. } => lemma_after_expr_records(st, *object),
        SExpr::Grouping { expression } => lemma_after_expr_records(st, *expression),
        SExpr::Logical { left, right, .. } => {
            lemma_after_expr_records(st, *left);
            lemma_after_expr_records(after_expr(st, *left), *right);
            lemma_records_trans(st, after_expr(st, *left), after_expr(st, e), expr_ids(*left), expr_ids(*right));
        },
        SExpr::SetField { object, value, .. } => {
            lemma_after_expr_records(st, *value);
            lemma_after_expr_records(after_expr(st, *value), *object);
            lemma_records_trans(st, after_expr(st, *value), after_expr(st, e), expr_ids(*value), expr_ids(*object));
            lemma_covers_swap(Seq::empty(), expr_ids(*value), expr_ids(*object));
            assert(Seq::<nat>::empty() + expr_ids(*value) + expr_ids(*object) =~= expr_ids(*value) + expr_ids(*object));
            assert(Seq::<nat>::empty() + expr_ids(*object) + expr_ids(*value) =~= expr_ids(e));
            lemma_records_weaken(st, after_expr(st, e), expr_ids(*value) + expr_ids(*object), expr_ids(e));
        },
        SExpr::Unary { right, .. } => lemma_after_expr_records(st, *right),
        SExpr::Variable { id, name } => lemma_records_variable(st, id, name),
        _ => lemma_records_same(st, after_expr(st, e), expr_ids(e)),
    }
}

/// As `lemma_after_expr_records`, for a sequence of expressions.
pub proof fn lemma_after_exprs_records(st: RState, es: Seq<SExpr>)
    ensures
        records_within(st, after_exprs(st, es), exprs_ids(es)),
    decreases es, 0nat,
{
    if es.len() == 0 {
        lemma_records_same(st, st, Seq::empty());
    } else {
        let st1 = after_exprs(st, es.drop_last());
        lemma_after_exprs_records(st, es.drop_last());
        lemma_after_expr_records(st1, es.last());
        lemma_records_trans(st, st1, after_exprs(st, es), exprs_ids(es.drop_last()), expr_ids(es.last()));
    }
}

} // verus!

verus! {

proof fn lemma_records_function(st: RState, params: Seq<SToken>, body: Seq<SStmt>)
    ensures
        records_within(st, after_function(st, params, body), stmts_ids(body)),
    decreases body, 1nat,
{
    let b = begun(st);
    let p = after_params(b, params);
    lemma_after_params_keeps_locals(b, params);
    lemma_after_stmts_records(p, body);
    let e = ended(after_stmts(p, body));
    assert(e.locals == after_stmts(p, body).locals);
    assert(records_within(st, e, stmts_ids(body)));
}

proof fn lemma_after_params_keeps_locals(st: RState, params: Seq<SToken>)
    ensures
        after_params(st, params).locals == st.locals,
    decreases params.len(),
{
    if params.len() > 0 {
        lemma_after_params_keeps_locals(st, params.drop_last());
    }
}

proof fn lemma_records_method(st: RState, m: SStmt)
    ensures
        records_within(st, after_method(st, m), stmt_ids(m)),
    decreases m, 2nat,
{
    match m {
        SStmt::Function { parameters, body, .. } => lemma_records_function(st, parameters, body),
        _ => lemma_records_same(st, st, stmt_ids(m)),
    }
}

proof fn lemma_records_methods(st: RState, ms: Seq<SStmt>)
    ensures
        records_within(st, after_methods(st, ms), stmts_ids(ms)),
    decreases ms, 3nat,
{
    if ms.len() == 0 {
        lemma_records_same(st, st, Seq::empty());
    } else {
        let st1 = after_methods(st, ms.drop_last());
        lemma_records_methods(st, ms.drop_last());
        lemma_records_method(st1, ms.last());
        lemma_records_trans(st, st1, after_methods(st, ms), stmts_ids(ms.drop_last()), stmt_ids(ms.last()));
    }
}

/// Resolving a statement records only numbers of its own expressions.
pub proof fn lemma_after_stmt_records(st: RState, s: SStmt)
    ensures
        records_within(st, after_stmt(st, s), stmt_ids(s)),
    decreases s, 0nat,
{
    match s {
        SStmt::Block { statements } => {
            let b = begun(st);
            lemma_after_stmts_records(b, statements);
        },
        SStmt::Class { name, superclass, methods } => {
            let st1 = defined(declared(st, name), name);
            let st2 = match superclass {
                Some(e) => after_expr(st1, e),
                None => st1,
            };
            match superclass {
                Some(e) => lemma_after_expr_records(st1, e),
                None => lemma_records_same(st1, st1, Seq::empty()),
            }
            lemma_records_methods(st2, methods);
            lemma_records_trans(st1, st2, after_methods(st2, methods), opt_expr_ids(superclass), stmts_ids(methods));
        },
        SStmt::Expression { expression } => lemma_after_expr_records(st, expression),
        SStmt::Function { name, parameters, body } => {
            lemma_records_function(defined(declared(st, name), name), parameters, body);
        },
        SStmt::If { condition, then_branch, else_branch } => {
            let c = after_expr(st, condition);
            lemma_after_expr_records(st, condition);
            lemma_after_stmt_records(c, *then_branch);
            lemma_records_trans(st, c, after_stmt(c, *then_branch), expr_ids(condition), stmt_ids(*then_branch));
            let t = after_stmt(c, *then_branch);
            let rest = match else_branch {
                Some(b) => stmt_ids(*b),
                None => Seq::empty(),
            };
            match else_branch {
                Some(b) => lemma_after_stmt_records(t, *b),
                None => lemma_records_same(t, t, Seq::empty()),
            }
            lemma_records_trans(st, t, after_stmt(st, s), expr_ids(condition) + stmt_ids(*then_branch), rest);
        },
        SStmt::Print { expression } => lemma_after_expr_records(st, expression),
        SStmt::Return { value, .. } => lemma_after_expr_records(st, value),
        SStmt::Var { name, initializer } => {
            let st1 = declared(st, name);
            match initializer {
                Some(e) => lemma_after_expr_records(st1, e),
                None => lemma_records_same(st1, st1, Seq::empty()),
            }
        },
        SStmt::While { condition, body, increment } => {
            let c = after_expr(st, condition);
            lemma_after_expr_records(st, condition);
            lemma_after_stmt_records(c, *body);
            lemma_records_trans(st, c, after_stmt(c, *body), expr_ids(condition), stmt_ids(*body));
            let t = after_stmt(c, *body);
            match increment {
                Some(e) => lemma_after_expr_records(t, e),
                None => lemma_records_same(t, t, Seq::empty()),
            }
            lemma_records_trans(
                st,
                t,
                after_stmt(st, s),
                expr_ids(condition) + stmt_ids(*body),
                opt_expr_ids(increment),
            );
            lemma_covers_swap(expr_ids(condition), stmt_ids(*body), opt_expr_ids(increment));
            lemma_records_weaken(
                st,
                after_stmt(st, s),
                expr_ids(condition) + stmt_ids(*body) + opt_expr_ids(increment),
                stmt_ids(s),
            );
        },
        _ => lemma_records_same(st, st, stmt_ids(s)),
    }
}

/// Resolving a sequence of statements records only numbers of their own
/// expressions.
pub proof fn lemma_after_stmts_records(st: RState, ss: Seq<SStmt>)
    ensures
        records_within(st, after_stmts(st, ss), stmts_ids(ss)),
    decreases ss, 0nat,
{
    if ss.len() == 0 {
        lemma_records_same(st, st, Seq::empty());
    } else {
        let st1 = after_stmts(st, ss.drop_last());
        lemma_after_stmts_records(st, ss.drop_last());
        lemma_after_stmt_records(st1, ss.last());
        lemma_records_trans(st, st1, after_stmts(st, ss), stmts_ids(ss.drop_last()), stmt_ids(ss.last()));
    }
}

/// Every number that resolving a program records with a fresh resolver is
/// the number of one of the program's expressions; with the parser's
/// numbers all distinct, each names one expression.
pub proof fn law_resolution_records_own_expressions(ss: Seq<SStmt>, k: usize)
    requires
        after_stmts(initial_state(), ss).locals.dom().contains(k),
    ensures
        exists|j: int| 0 <= j < stmts_ids(ss).len() && stmts_ids(ss)[j] as usize == k,
{
    lemma_after_stmts_records(initial_state(), ss);
}

} // verus!

verus! {

/// A loop's increment is resolved after its body, as an expression
/// statement standing after the loop without it would be.
pub proof fn law_loop_increment_resolved(st: RState, condition: SExpr, body: SStmt, increment: SExpr)
    ensures
        after_stmt(st, SStmt::While { condition, body: Box::new(body), increment: Some(increment) }) == after_stmt(
            after_stmt(st, SStmt::While { condition, body: Box::new(body), increment: None }),
            SStmt::Expression { expression: increment },
        ),
{
}

/// An `else` branch is resolved after the rest of the `if`, as a statement
/// standing after it would be.
pub proof fn law_else_branch_resolved(st: RState, condition: SExpr, then_branch: SStmt, else_branch: SStmt)
    ensures
        after_stmt(
            st,
            SStmt::If {
                condition,
                then_branch: Box::new(then_branch),
                else_branch: Some(Box::new(else_branch)),
            },
        ) == after_stmt(
            after_stmt(st, SStmt::If { condition, then_branch: Box::new(then_branch), else_branch: None }),
            else_branch,
        ),
{
}

/// A call's last argument is resolved after the call without it.
pub proof fn law_call_argument_resolved(st: RState, callee: SExpr, paren: SToken, args: Seq<SExpr>, last: SExpr)
    ensures
        after_expr(st, SExpr::Call { callee: Box::new(callee), right_parenthesis: paren, arguments: args.push(last) })
            == after_expr(
            after_expr(st, SExpr::Call { callee: Box::new(callee), right_parenthesis: paren, arguments: args }),
            last,
        ),
{
    let c = after_expr(st, callee);
    assert(args.push(last).drop_last() =~= args);
    assert(args.push(last).last() == last);
    assert(after_exprs(c, args.push(last)) == after_expr(after_exprs(c, args), last));
}

proof fn lemma_scope_index_reaches(scopes: Seq<Seq<SVar>>, name: Seq<char>, k: int)
    requires
        0 <= k < scopes.len(),
        var_index(scopes[k], name) >= 0,
    ensures
        scope_index(scopes, name) >= k,
    decreases scopes.len(),
{
    if k < scopes.len() - 1 && var_index(scopes.last(), name) < 0 {
        assert(scopes.drop_last()[k] == scopes[k]);
        lemma_scope_index_reaches(scopes.drop_last(), name, k);
    }
}

/// Reading a variable that some open scope declares records the read, at a
/// depth no greater than the number of scopes between that one and the
/// innermost.
pub proof fn law_local_read_recorded(st: RState, id: usize, name: SToken, k: int, j: int)
    requires
        0 <= k < st.scopes.len(),
        0 <= j < st.scopes[k].len(),
        st.scopes[k][j].name.lexeme == name.lexeme,
    ensures
        after_expr(st, SExpr::Variable { id: id as nat, name }).locals.contains_key(id),
        after_expr(st, SExpr::Variable { id: id as nat, name }).locals[id] <= st.scopes.len() - 1 - k,
{
    lemma_var_index(st.scopes[k], name.lexeme);
    let st1 = if st.scopes.len() > 0 && var_index(st.scopes.last(), name.lexeme) >= 0
        && !st.scopes.last()[var_index(st.scopes.last(), name.lexeme)].defined {
        RState { errors: st.errors.push(own_initializer_message(name)), ..st }
    } else {
        st
    };
    assert(st1.scopes == st.scopes);
    lemma_scope_index_reaches(st.scopes, name.lexeme, k);
    lemma_scope_index(st.scopes, name.lexeme);
}

} // verus!
