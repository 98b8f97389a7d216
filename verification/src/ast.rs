//! The syntax tree of Lox programs, and its mathematical model.

use vstd::prelude::*;

use crate::token::{LiteralType, SLiteral, SToken, Token};

verus! {

/// Statements.
#[derive(Debug)]
pub enum Stmt {
    Block { statements: Vec<Stmt> },
    Break,
    Class { name: Token, superclass: Option<Box<Expr>>, methods: Vec<Stmt> },
    Continue,
    Expression { expression: Box<Expr> },
    Function { name: Token, parameters: Vec<Token>, body: Vec<Stmt> },
    If { condition: Box<Expr>, then_branch: Box<Stmt>, else_branch: Option<Box<Stmt>> },
    Print { expression: Box<Expr> },
    Return { keyword: Token, value: Box<Expr> },
    Var { name: Token, initializer: Option<Box<Expr>> },
    While { condition: Box<Expr>, body: Box<Stmt>, increment: Option<Expr> },
}

/// Expressions. `id` numbers the expressions that name a variable, so that
/// the resolver can record where each one is found.
#[derive(Debug)]
pub enum Expr {
    Assign { id: usize, name: Token, value: Box<Expr> },
    Binary { left: Box<Expr>, right: Box<Expr>, operator: Token },
    Call { callee: Box<Expr>, right_parenthesis: Token, arguments: Vec<Expr> },
    Get { name: Token, object: Box<Expr> },
    Grouping { expression: Box<Expr> },
    Literal { value: LiteralType },
    Logical { left: Box<Expr>, right: Box<Expr>, operator: Token },
    SetField { name: Token, object: Box<Expr>, value: Box<Expr> },
    Super { id: usize, keyword: Token, method: Token },
    This { id: usize, keyword: Token },
    Unary { right: Box<Expr>, operator: Token },
    Variable { id: usize, name: Token },
}

/// The mathematical model of a statement.
#[allow(inconsistent_fields)]
pub enum SStmt {
    Block { statements: Seq<SStmt> },
    Break,
    Class { name: SToken, superclass: Option<SExpr>, methods: Seq<SStmt> },
    Continue,
    Expression { expression: SExpr },
    Function { name: SToken, parameters: Seq<SToken>, body: Seq<SStmt> },
    If { condition: SExpr, then_branch: Box<SStmt>, else_branch: Option<Box<SStmt>> },
    Print { expression: SExpr },
    Return { keyword: SToken, value: SExpr },
    Var { name: SToken, initializer: Option<SExpr> },
    While { condition: SExpr, body: Box<SStmt>, increment: Option<SExpr> },
}

/// The mathematical model of an expression.
#[allow(inconsistent_fields)]
pub enum SExpr {
    Assign { id: nat, name: SToken, value: Box<SExpr> },
    Binary { left: Box<SExpr>, right: Box<SExpr>, operator: SToken },
    Call { callee: Box<SExpr>, right_parenthesis: SToken, arguments: Seq<SExpr> },
    Get { name: SToken, object: Box<SExpr> },
    Grouping { expression: Box<SExpr> },
    Literal { value: SLiteral },
    Logical { left: Box<SExpr>, right: Box<SExpr>, operator: SToken },
    SetField { name: SToken, object: Box<SExpr>, value: Box<SExpr> },
    Super { id: nat, keyword: SToken, method: SToken },
    This { id: nat, keyword: SToken },
    Unary { right: Box<SExpr>, operator: SToken },
    Variable { id: nat, name: SToken },
}

pub open spec fn tokens_model(s: Seq<Token>) -> Seq<SToken> {
    s.map_values(|t: Token| t@)
}

pub open spec fn expr_model(e: Expr) -> SExpr
    decreases e,
{
    match e {
        Expr::Assign { id, name, value } => SExpr::Assign {
            id: id as nat,
            name: name@,
            value: Box::new(expr_model(*value)),
        },
        Expr::Binary { left, right, operator } => SExpr::Binary {
            left: Box::new(expr_model(*left)),
            right: Box::new(expr_model(*right)),
            operator: operator@,
        },
        Expr::Call { callee, right_parenthesis, arguments } => SExpr::Call {
            callee: Box::new(expr_model(*callee)),
            right_parenthesis: right_parenthesis@,
            arguments: exprs_model(arguments@),
        },
        Expr::Get { name, object } => SExpr::Get { name: name@, object: Box::new(expr_model(*object)) },
        Expr::Grouping { expression } => SExpr::Grouping { expression: Box::new(expr_model(*expression)) },
        Expr::Literal { value } => SExpr::Literal { value: value@ },
        Expr::Logical { left, right, operator } => SExpr::Logical {
            left: Box::new(expr_model(*left)),
            right: Box::new(expr_model(*right)),
            operator: operator@,
        },
        Expr::SetField { name, object, value } => SExpr::SetField {
            name: name@,
            object: Box::new(expr_model(*object)),
            value: Box::new(expr_model(*value)),
        },
        Expr::Super { id, keyword, method } => SExpr::Super { id: id as nat, keyword: keyword@, method: method@ },
        Expr::This { id, keyword } => SExpr::This { id: id as nat, keyword: keyword@ },
        Expr::Unary { right, operator } => SExpr::Unary { right: Box::new(expr_model(*right)), operator: operator@ },
        Expr::Variable { id, name } => SExpr::Variable { id: id as nat, name: name@ },
    }
}

pub open spec fn exprs_model(s: Seq<Expr>) -> Seq<SExpr>
    decreases s,
{
    if s.len() == 0 {
        Seq::empty()
    } else {
        exprs_model(s.drop_last()).push(expr_model(s.last()))
    }
}

pub open spec fn stmt_model(s: Stmt) -> SStmt
    decreases s,
{
    match s {
        Stmt::Block { statements } => SStmt::Block { statements: stmts_model(statements@) },
        Stmt::Break => SStmt::Break,
        Stmt::Class { name, superclass, methods } => SStmt::Class {
            name: name@,
            superclass: match superclass {
                Some(e) => Some(expr_model(*e)),
                None => None,
            },
            methods: stmts_model(methods@),
        },
        Stmt::Continue => SStmt::Continue,
        Stmt::Expression { expression } => SStmt::Expression { expression: expr_model(*expression) },
        Stmt::Function { name, parameters, body } => SStmt::Function {
            name: name@,
            parameters: tokens_model(parameters@),
            body: stmts_model(body@),
        },
        Stmt::If { condition, then_branch, else_branch } => SStmt::If {
            condition: expr_model(*condition),
            then_branch: Box::new(stmt_model(*then_branch)),
            else_branch: match else_branch {
                Some(b) => Some(Box::new(stmt_model(*b))),
                None => None,
            },
        },
        Stmt::Print { expression } => SStmt::Print { expression: expr_model(*expression) },
        Stmt::Return { keyword, value } => SStmt::Return { keyword: keyword@, value: expr_model(*value) },
        Stmt::Var { name, initializer } => SStmt::Var {
            name: name@,
            initializer: match initializer {
                Some(e) => Some(expr_model(*e)),
                None => None,
            },
        },
        Stmt::While { condition, body, increment } => SStmt::While {
            condition: expr_model(*condition),
            body: Box::new(stmt_model(*body)),
            increment: match increment {
                Some(e) => Some(expr_model(e)),
                None => None,
            },
        },
    }
}

pub open spec fn stmts_model(s: Seq<Stmt>) -> Seq<SStmt>
    decreases s,
{
    if s.len() == 0 {
        Seq::empty()
    } else {
        stmts_model(s.drop_last()).push(stmt_model(s.last()))
    }
}

impl View for Expr {
    type V = SExpr;

    open spec fn view(&self) -> SExpr {
        expr_model(*self)
    }
}

impl View for Stmt {
    type V = SStmt;

    open spec fn view(&self) -> SStmt {
        stmt_model(*self)
    }
}


fn clone_tokens(v: &Vec<Token>) -> (r: Vec<Token>)
    ensures
        tokens_model(r@) == tokens_model(v@),
{
    let mut r: Vec<Token> = Vec::new();
    let mut i: usize = 0;
    assert(tokens_model(v@.take(0)) =~= tokens_model(r@));
    while i < v.len()
        invariant
            i <= v@.len(),
            tokens_model(r@) == tokens_model(v@.take(i as int)),
        decreases v@.len() - i,
    {
        let t = v[i].clone();
        proof {
            assert(tokens_model(r@.push(t)) =~= tokens_model(r@).push(t@));
            assert(tokens_model(v@.take(i + 1)) =~= tokens_model(v@.take(i as int)).push(v@[i as int]@));
        }
        r.push(t);
        i += 1;
    }
    assert(v@.take(v@.len() as int) =~= v@);
    r
}

fn clone_exprs(v: &Vec<Expr>) -> (r: Vec<Expr>)
    ensures
        exprs_model(r@) == exprs_model(v@),
    decreases v, 0nat,
{
    let mut r: Vec<Expr> = Vec::new();
    let mut i: usize = 0;
    assert(v@.take(0) =~= Seq::<Expr>::empty());
    while i < v.len()
        invariant
            i <= v@.len(),
            exprs_model(r@) == exprs_model(v@.take(i as int)),
        decreases v@.len() - i,
    {
        proof {
            assert(decreases_to!(v => v@[i as int]));
        }
        let e = clone_expr(&v[i]);
        proof {
            assert(r@.push(e).drop_last() =~= r@);
            assert(v@.take(i + 1).drop_last() =~= v@.take(i as int));
        }
        r.push(e);
        i += 1;
    }
    assert(v@.take(v@.len() as int) =~= v@);
    r
}

fn clone_expr(e: &Expr) -> (r: Expr)
    ensures
        r@ == e@,
    decreases e, 0nat,
{
    match e {
        Expr::Assign { id, name, value } => Expr::Assign { id: *id, name: name.clone(), value: Box::new(clone_expr(value)) },
        Expr::Binary { left, right, operator } => Expr::Binary {
            left: Box::new(clone_expr(left)),
            right: Box::new(clone_expr(right)),
            operator: operator.clone(),
        },
        Expr::Call { callee, right_parenthesis, arguments } => Expr::Call {
            callee: Box::new(clone_expr(callee)),
            right_parenthesis: right_parenthesis.clone(),
            arguments: clone_exprs(arguments),
        },
        Expr::Get { name, object } => Expr::Get { name: name.clone(), object: Box::new(clone_expr(object)) },
        Expr::Grouping { expression } => Expr::Grouping { expression: Box::new(clone_expr(expression)) },
        Expr::Literal { value } => Expr::Literal { value: value.clone() },
        Expr::Logical { left, right, operator } => Expr::Logical {
            left: Box::new(clone_expr(left)),
            right: Box::new(clone_expr(right)),
            operator: operator.clone(),
        },
        Expr::SetField { name, object, value } => Expr::SetField {
            name: name.clone(),
            object: Box::new(clone_expr(object)),
            value: Box::new(clone_expr(value)),
        },
        Expr::Super { id, keyword, method } => Expr::Super { id: *id, keyword: keyword.clone(), method: method.clone() },
        Expr::This { id, keyword } => Expr::This { id: *id, keyword: keyword.clone() },
        Expr::Unary { right, operator } => Expr::Unary { right: Box::new(clone_expr(right)), operator: operator.clone() },
        Expr::Variable { id, name } => Expr::Variable { id: *id, name: name.clone() },
    }
}

fn clone_stmts(v: &Vec<Stmt>) -> (r: Vec<Stmt>)
    ensures
        stmts_model(r@) == stmts_model(v@),
    decreases v, 0nat,
{
    let mut r: Vec<Stmt> = Vec::new();
    let mut i: usize = 0;
    assert(v@.take(0) =~= Seq::<Stmt>::empty());
    while i < v.len()
        invariant
            i <= v@.len(),
            stmts_model(r@) == stmts_model(v@.take(i as int)),
        decreases v@.len() - i,
    {
        proof {
            assert(decreases_to!(v => v@[i as int]));
        }
        let s = clone_stmt(&v[i]);
        proof {
            assert(r@.push(s).drop_last() =~= r@);
            assert(v@.take(i + 1).drop_last() =~= v@.take(i as int));
        }
        r.push(s);
        i += 1;
    }
    assert(v@.take(v@.len() as int) =~= v@);
    r
}

fn clone_stmt(s: &Stmt) -> (r: Stmt)
    ensures
        r@ == s@,
    decreases s, 0nat,
{
    match s {
        Stmt::Block { statements } => Stmt::Block { statements: clone_stmts(statements) },
        Stmt::Break => Stmt::Break,
        Stmt::Class { name, superclass, methods } => Stmt::Class {
            name: name.clone(),
            superclass: match superclass {
                Some(e) => Some(Box::new(clone_expr(e))),
                None => None,
            },
            methods: clone_stmts(methods),
        },
        Stmt::Continue => Stmt::Continue,
        Stmt::Expression { expression } => Stmt::Expression { expression: Box::new(clone_expr(expression)) },
        Stmt::Function { name, parameters, body } => Stmt::Function {
            name: name.clone(),
            parameters: clone_tokens(parameters),
            body: clone_stmts(body),
        },
        Stmt::If { condition, then_branch, else_branch } => Stmt::If {
            condition: Box::new(clone_expr(condition)),
            then_branch: Box::new(clone_stmt(then_branch)),
            else_branch: match else_branch {
                Some(b) => Some(Box::new(clone_stmt(b))),
                None => None,
            },
        },
        Stmt::Print { expression } => Stmt::Print { expression: Box::new(clone_expr(expression)) },
        Stmt::Return { keyword, value } => Stmt::Return { keyword: keyword.clone(), value: Box::new(clone_expr(value)) },
        Stmt::Var { name, initializer } => Stmt::Var {
            name: name.clone(),
            initializer: match initializer {
                Some(e) => Some(Box::new(clone_expr(e))),
                None => None,
            },
        },
        Stmt::While { condition, body, increment } => Stmt::While {
            condition: Box::new(clone_expr(condition)),
            body: Box::new(clone_stmt(body)),
            increment: match increment {
                Some(e) => Some(clone_expr(e)),
                None => None,
            },
        },
    }
}

impl Clone for Expr {
    /// A copy of the expression, equal to it in the model.
    fn clone(&self) -> (r: Self)
        ensures
            r@ == self@,
    {
        clone_expr(self)
    }
}

impl Clone for Stmt {
    /// A copy of the statement, equal to it in the model.
    fn clone(&self) -> (r: Self)
        ensures
            r@ == self@,
    {
        clone_stmt(self)
    }
}

} // verus!
