//! The grammar of Lox as a function on token sequences.
//!
//! program      -> declaration* EOF ;
//! declaration  -> classDecl | funDecl | varDecl | statement ;
//! classDecl    -> "class" IDENTIFIER ( "<" IDENTIFIER )? "{" function* "}" ;
//! funDecl      -> "fun" function ;
//! function     -> IDENTIFIER "(" parameters? ")" block ;
//! parameters   -> IDENTIFIER ( "," IDENTIFIER )* ;
//! varDecl      -> "var" IDENTIFIER ( "=" expression )? ";" ;
//! statement    -> exprStmt | forStmt | ifStmt | printStmt | whileStmt
//!               | breakStmt | continueStmt | returnStmt | block ;
//! exprStmt     -> expression ";" ;
//! forStmt      -> "for" "(" ( varDecl | exprStmt | ";" ) expression? ";" expression? ")" statement ;
//! ifStmt       -> "if" "(" expression ")" statement ( "else" statement )? ;
//! printStmt    -> "print" expression ";" ;
//! whileStmt    -> "while" "(" expression ")" statement ;
//! breakStmt    -> "break" ";" ;
//! continueStmt -> "continue" ";" ;
//! returnStmt   -> "return" expression? ";" ;
//! block        -> "{" declaration* "}" ;
//! expression   -> assignment ;
//! assignment   -> ( call "." )? IDENTIFIER "=" assignment | logic_or ;
//! logic_or     -> logic_and ( "or" logic_and )* ;
//! logic_and    -> equality ( "and" equality )* ;
//! equality     -> comparison ( ( "!=" | "==" ) comparison )* ;
//! comparison   -> term ( ( ">" | ">=" | "<" | "<=" ) term )* ;
//! term         -> factor ( ( "-" | "+" ) factor )* ;
//! factor       -> unary ( ( "/" | "*" ) unary )* ;
//! unary        -> ( "!" | "-" ) unary | call ;
//! call         -> primary ( "(" arguments? ")" | "." IDENTIFIER )* ;
//! arguments    -> expression ( "," expression )* ;
//! primary      -> NUMBER | STRING | "true" | "false" | "nil" | "(" expression ")"
//!               | IDENTIFIER | "this" | "super" "." IDENTIFIER ;
//!
//! Each function below takes the tokens and a parser state (the position,
//! whether a loop is open, and the next expression number) and gives the
//! result and the state after it. Where one part of a rule starts where an
//! earlier part ended, the definition first checks that the earlier part did
//! not move backwards; the parser never does, and the check only lets the
//! definition be seen to terminate.

use vstd::prelude::*;

use crate::ast::{SExpr, SStmt};
use crate::token::{SLiteral, SToken, TokenType};
use crate::utility::error_text;

verus! {

/// The state of the parser: the position of the next token, whether a loop
/// body is being parsed, and the number the next variable expression gets.
pub struct PS {
    pub pos: int,
    pub loop_open: bool,
    pub next_id: nat,
}

pub type PExpr = (Result<SExpr, Seq<char>>, PS);

pub type PStmt = (Result<SStmt, Seq<char>>, PS);

pub type PStmts = (Result<Seq<SStmt>, Seq<char>>, PS);

pub type PToken = (Result<SToken, Seq<char>>, PS);

/// The position holds the end-of-file token (or lies outside the tokens).
pub open spec fn at_end(toks: Seq<SToken>, pos: int) -> bool {
    !(0 <= pos < toks.len()) || toks[pos].ttype == TokenType::Eof
}

/// The token at the position has type `t` (and is not the end).
pub open spec fn check(toks: Seq<SToken>, pos: int, t: TokenType) -> bool {
    !at_end(toks, pos) && toks[pos].ttype == t
}

/// The token at the position has one of the types in `ts`.
pub open spec fn matched(toks: Seq<SToken>, pos: int, ts: Seq<TokenType>) -> bool {
    !at_end(toks, pos) && ts.contains(toks[pos].ttype)
}

/// The state after moving past the current token (no move at the end).
pub open spec fn adv(toks: Seq<SToken>, ps: PS) -> PS {
    if at_end(toks, ps.pos) {
        ps
    } else {
        PS { pos: ps.pos + 1, ..ps }
    }
}

/// The state with the next expression number taken.
pub open spec fn take_id(ps: PS) -> PS {
    PS { next_id: ps.next_id + 1, ..ps }
}

/// `b` does not lie before `a`, and lies within the tokens.
pub open spec fn fwd(toks: Seq<SToken>, a: PS, b: PS) -> bool {
    a.pos <= b.pos <= toks.len()
}

/// Expects a token of type `t`: gives it and moves past it, or fails with
/// `message` at the current token.
pub open spec fn p_consume(toks: Seq<SToken>, ps: PS, t: TokenType, message: Seq<char>) -> PToken {
    if check(toks, ps.pos, t) {
        (Ok(toks[ps.pos]), adv(toks, ps))
    } else {
        (Err(error_text(message, toks[ps.pos])), ps)
    }
}

/// The name of a token type, as its debug form spells it.
pub open spec fn token_type_text(t: TokenType) -> Seq<char> {
    match t {
        TokenType::LeftParen => "LeftParen"@,
        TokenType::RightParen => "RightParen"@,
        TokenType::LeftBrace => "LeftBrace"@,
        TokenType::RightBrace => "RightBrace"@,
        TokenType::Comma => "Comma"@,
        TokenType::Dot => "Dot"@,
        TokenType::Minus => "Minus"@,
        TokenType::Plus => "Plus"@,
        TokenType::Semicolon => "Semicolon"@,
        TokenType::Slash => "Slash"@,
        TokenType::Star => "Star"@,
        TokenType::Bang => "Bang"@,
        TokenType::BangEqual => "BangEqual"@,
        TokenType::Equal => "Equal"@,
        TokenType::EqualEqual => "EqualEqual"@,
        TokenType::Greater => "Greater"@,
        TokenType::GreaterEqual => "GreaterEqual"@,
        TokenType::Less => "Less"@,
        TokenType::LessEqual => "LessEqual"@,
        TokenType::Identifier => "Identifier"@,
        TokenType::String => "String"@,
        TokenType::Number => "Number"@,
        TokenType::And => "And"@,
        TokenType::Break => "Break"@,
        TokenType::Class => "Class"@,
        TokenType::Continue => "Continue"@,
        TokenType::Else => "Else"@,
        TokenType::False => "False"@,
        TokenType::Fun => "Fun"@,
        TokenType::For => "For"@,
        TokenType::If => "If"@,
        TokenType::Nil => "Nil"@,
        TokenType::Or => "Or"@,
        TokenType::Print => "Print"@,
        TokenType::Return => "Return"@,
        TokenType::Static => "Static"@,
        TokenType::Super => "Super"@,
        TokenType::This => "This"@,
        TokenType::True => "True"@,
        TokenType::Var => "Var"@,
        TokenType::While => "While"@,
        TokenType::Eof => "Eof"@,
    }
}

// ---------------------------------------------------------------------
// Expressions
// ---------------------------------------------------------------------

/// primary
#[verifier::opaque]
pub open spec fn p_primary(toks: Seq<SToken>, ps: PS) -> PExpr
    decreases toks.len() - ps.pos, 6nat,
{
    let pos = ps.pos;
    if check(toks, pos, TokenType::False) {
        (Ok(SExpr::Literal { value: SLiteral::Bool(false) }), adv(toks, ps))
    } else if check(toks, pos, TokenType::True) {
        (Ok(SExpr::Literal { value: SLiteral::Bool(true) }), adv(toks, ps))
    } else if check(toks, pos, TokenType::Nil) {
        (Ok(SExpr::Literal { value: SLiteral::Nothing }), adv(toks, ps))
    } else if matched(toks, pos, seq![TokenType::Number, TokenType::String]) {
        (Ok(SExpr::Literal { value: toks[pos].literal }), adv(toks, ps))
    } else if check(toks, pos, TokenType::Super) {
        let p1 = adv(toks, ps);
        let (d, p2) = p_consume(toks, p1, TokenType::Dot, "Expected '.' after 'super'."@);
        match d {
            Err(m) => (Err(m), p2),
            Ok(_) => {
                let (method, p3) = p_consume(toks, p2, TokenType::Identifier, "Expected superclass method name."@);
                match method {
                    Err(m) => (Err(m), p3),
                    Ok(method) => (
                        Ok(SExpr::Super { id: p3.next_id, keyword: toks[pos], method }),
                        take_id(p3),
                    ),
                }
            },
        }
    } else if check(toks, pos, TokenType::This) {
        (Ok(SExpr::This { id: ps.next_id, keyword: toks[pos] }), take_id(adv(toks, ps)))
    } else if check(toks, pos, TokenType::Identifier) {
        (Ok(SExpr::Variable { id: ps.next_id, name: toks[pos] }), take_id(adv(toks, ps)))
    } else if check(toks, pos, TokenType::LeftParen) {
        let p1 = adv(toks, ps);
        let (e, p2) = p_expression(toks, p1);
        if !fwd(toks, p1, p2) {
            (e, p2)
        } else {
            match e {
                Err(m) => (Err(m), p2),
                Ok(e) => {
                    let (c, p3) = p_consume(toks, p2, TokenType::RightParen, "Expect ')' after expression"@);
                    match c {
                        Err(m) => (Err(m), p3),
                        Ok(_) => (Ok(SExpr::Grouping { expression: Box::new(e) }), p3),
                    }
                },
            }
        }
    } else {
        let p1 = adv(toks, ps);
        let prev = toks[p1.pos - 1];
        (Err(error_text("Unexpected primary token "@ + token_type_text(prev.ttype), prev)), p1)
    }
}

/// The arguments of a call, from after "(" up to ")".
#[verifier::opaque]
pub open spec fn p_arguments(toks: Seq<SToken>, ps: PS, args: Seq<SExpr>) -> (Result<Seq<SExpr>, Seq<char>>, PS)
    decreases toks.len() - ps.pos, 22nat,
{
    if args.len() >= 255 {
        (Err("Cannot have more than 255 arguments."@), ps)
    } else {
        let (e, p1) = p_expression(toks, ps);
        if !fwd(toks, ps, p1) {
            (Err(seq![]), p1)
        } else {
            match e {
                Err(m) => (Err(m), p1),
                Ok(e) => if check(toks, p1.pos, TokenType::Comma) {
                    p_arguments(toks, adv(toks, p1), args.push(e))
                } else {
                    (Ok(args.push(e)), p1)
                },
            }
        }
    }
}

/// A call of `callee`, from after "(".
#[verifier::opaque]
pub open spec fn p_finish_call(toks: Seq<SToken>, ps: PS, callee: SExpr) -> PExpr
    decreases toks.len() - ps.pos, 23nat,
{
    let (args, p1) = if !check(toks, ps.pos, TokenType::RightParen) {
        p_arguments(toks, ps, seq![])
    } else {
        (Ok(seq![]), ps)
    };
    match args {
        Err(m) => (Err(m), p1),
        Ok(args) => {
            let (rp, p2) = p_consume(toks, p1, TokenType::RightParen, "Expected ')' after arguments."@);
            match rp {
                Err(m) => (Err(m), p2),
                Ok(rp) => (
                    Ok(SExpr::Call { callee: Box::new(callee), right_parenthesis: rp, arguments: args }),
                    p2,
                ),
            }
        },
    }
}

/// The calls and property accesses that follow a primary expression.
#[verifier::opaque]
pub open spec fn p_call_rest(toks: Seq<SToken>, ps: PS, expr: SExpr) -> PExpr
    decreases toks.len() - ps.pos, 7nat,
{
    if check(toks, ps.pos, TokenType::LeftParen) {
        let (e1, p1) = p_finish_call(toks, adv(toks, ps), expr);
        if !fwd(toks, adv(toks, ps), p1) {
            (e1, p1)
        } else {
            match e1 {
                Err(m) => (Err(m), p1),
                Ok(e1) => p_call_rest(toks, p1, e1),
            }
        }
    } else if check(toks, ps.pos, TokenType::Dot) {
        let (name, p2) = p_consume(toks, adv(toks, ps), TokenType::Identifier, "Expected property name after '.'."@);
        match name {
            Err(m) => (Err(m), p2),
            Ok(name) => p_call_rest(toks, p2, SExpr::Get { name, object: Box::new(expr) }),
        }
    } else {
        (Ok(expr), ps)
    }
}

/// call
#[verifier::opaque]
pub open spec fn p_call(toks: Seq<SToken>, ps: PS) -> PExpr
    decreases toks.len() - ps.pos, 8nat,
{
    let (e, p1) = p_primary(toks, ps);
    if !fwd(toks, ps, p1) {
        (e, p1)
    } else {
        match e {
            Err(m) => (Err(m), p1),
            Ok(e) => p_call_rest(toks, p1, e),
        }
    }
}

/// unary
#[verifier::opaque]
pub open spec fn p_unary(toks: Seq<SToken>, ps: PS) -> PExpr
    decreases toks.len() - ps.pos, 9nat,
{
    if matched(toks, ps.pos, seq![TokenType::Bang, TokenType::Minus]) {
        let operator = toks[ps.pos];
        let (r, p1) = p_unary(toks, adv(toks, ps));
        match r {
            Err(m) => (Err(m), p1),
            Ok(r) => (Ok(SExpr::Unary { right: Box::new(r), operator }), p1),
        }
    } else {
        p_call(toks, ps)
    }
}

/// The operators and operands that follow the first operand of a factor.
#[verifier::opaque]
pub open spec fn p_factor_rest(toks: Seq<SToken>, ps: PS, expr: SExpr) -> PExpr
    decreases toks.len() - ps.pos, 10nat,
{
    if matched(toks, ps.pos, seq![TokenType::Star, TokenType::Slash]) {
        let operator = toks[ps.pos];
        let (r, p1) = p_unary(toks, adv(toks, ps));
        if !fwd(toks, adv(toks, ps), p1) {
            (r, p1)
        } else {
            match r {
                Err(m) => (Err(m), p1),
                Ok(r) => p_factor_rest(toks, p1, SExpr::Binary { left: Box::new(expr), right: Box::new(r), operator }),
            }
        }
    } else {
        (Ok(expr), ps)
    }
}

/// factor
#[verifier::opaque]
pub open spec fn p_factor(toks: Seq<SToken>, ps: PS) -> PExpr
    decreases toks.len() - ps.pos, 11nat,
{
    let (e, p1) = p_unary(toks, ps);
    if !fwd(toks, ps, p1) {
        (e, p1)
    } else {
        match e {
            Err(m) => (Err(m), p1),
            Ok(e) => p_factor_rest(toks, p1, e),
        }
    }
}

/// The operators and operands that follow the first operand of a term.
#[verifier::opaque]
pub open spec fn p_term_rest(toks: Seq<SToken>, ps: PS, expr: SExpr) -> PExpr
    decreases toks.len() - ps.pos, 12nat,
{
    if matched(toks, ps.pos, seq![TokenType::Plus, TokenType::Minus]) {
        let operator = toks[ps.pos];
        let (r, p1) = p_factor(toks, adv(toks, ps));
        if !fwd(toks, adv(toks, ps), p1) {
            (r, p1)
        } else {
            match r {
                Err(m) => (Err(m), p1),
                Ok(r) => p_term_rest(toks, p1, SExpr::Binary { left: Box::new(expr), right: Box::new(r), operator }),
            }
        }
    } else {
        (Ok(expr), ps)
    }
}

/// term
#[verifier::opaque]
pub open spec fn p_term(toks: Seq<SToken>, ps: PS) -> PExpr
    decreases toks.len() - ps.pos, 13nat,
{
    let (e, p1) = p_factor(toks, ps);
    if !fwd(toks, ps, p1) {
        (e, p1)
    } else {
        match e {
            Err(m) => (Err(m), p1),
            Ok(e) => p_term_rest(toks, p1, e),
        }
    }
}

/// The operators and operands that follow the first operand of a comparison.
#[verifier::opaque]
pub open spec fn p_comparison_rest(toks: Seq<SToken>, ps: PS, expr: SExpr) -> PExpr
    decreases toks.len() - ps.pos, 14nat,
{
    if matched(
        toks,
        ps.pos,
        seq![TokenType::Greater, TokenType::GreaterEqual, TokenType::Less, TokenType::LessEqual],
    ) {
        let operator = toks[ps.pos];
        let (r, p1) = p_term(toks, adv(toks, ps));
        if !fwd(toks, adv(toks, ps), p1) {
            (r, p1)
        } else {
            match r {
                Err(m) => (Err(m), p1),
                Ok(r) => p_comparison_rest(toks, p1, SExpr::Binary { left: Box::new(expr), right: Box::new(r), operator }),
            }
        }
    } else {
        (Ok(expr), ps)
    }
}

/// comparison
#[verifier::opaque]
pub open spec fn p_comparison(toks: Seq<SToken>, ps: PS) -> PExpr
    decreases toks.len() - ps.pos, 15nat,
{
    let (e, p1) = p_term(toks, ps);
    if !fwd(toks, ps, p1) {
        (e, p1)
    } else {
        match e {
            Err(m) => (Err(m), p1),
            Ok(e) => p_comparison_rest(toks, p1, e),
        }
    }
}

/// The operators and operands that follow the first operand of an equality.
#[verifier::opaque]
pub open spec fn p_equality_rest(toks: Seq<SToken>, ps: PS, expr: SExpr) -> PExpr
    decreases toks.len() - ps.pos, 16nat,
{
    if matched(toks, ps.pos, seq![TokenType::BangEqual, TokenType::EqualEqual]) {
        let operator = toks[ps.pos];
        let (r, p1) = p_comparison(toks, adv(toks, ps));
        if !fwd(toks, adv(toks, ps), p1) {
            (r, p1)
        } else {
            match r {
                Err(m) => (Err(m), p1),
                Ok(r) => p_equality_rest(toks, p1, SExpr::Binary { left: Box::new(expr), right: Box::new(r), operator }),
            }
        }
    } else {
        (Ok(expr), ps)
    }
}

/// equality
#[verifier::opaque]
pub open spec fn p_equality(toks: Seq<SToken>, ps: PS) -> PExpr
    decreases toks.len() - ps.pos, 17nat,
{
    let (e, p1) = p_comparison(toks, ps);
    if !fwd(toks, ps, p1) {
        (e, p1)
    } else {
        match e {
            Err(m) => (Err(m), p1),
            Ok(e) => p_equality_rest(toks, p1, e),
        }
    }
}

/// The "and" operators and operands that follow the first operand.
#[verifier::opaque]
pub open spec fn p_and_rest(toks: Seq<SToken>, ps: PS, expr: SExpr) -> PExpr
    decreases toks.len() - ps.pos, 17nat,
{
    if check(toks, ps.pos, TokenType::And) {
        let operator = toks[ps.pos];
        let (r, p1) = p_equality(toks, adv(toks, ps));
        if !fwd(toks, adv(toks, ps), p1) {
            (r, p1)
        } else {
            match r {
                Err(m) => (Err(m), p1),
                Ok(r) => p_and_rest(toks, p1, SExpr::Logical { left: Box::new(expr), right: Box::new(r), operator }),
            }
        }
    } else {
        (Ok(expr), ps)
    }
}

/// logic_and
#[verifier::opaque]
pub open spec fn p_and(toks: Seq<SToken>, ps: PS) -> PExpr
    decreases toks.len() - ps.pos, 18nat,
{
    let (e, p1) = p_equality(toks, ps);
    if !fwd(toks, ps, p1) {
        (e, p1)
    } else {
        match e {
            Err(m) => (Err(m), p1),
            Ok(e) => p_and_rest(toks, p1, e),
        }
    }
}

/// The "or" operators and operands that follow the first operand.
#[verifier::opaque]
pub open spec fn p_or_rest(toks: Seq<SToken>, ps: PS, expr: SExpr) -> PExpr
    decreases toks.len() - ps.pos, 18nat,
{
    if check(toks, ps.pos, TokenType::Or) {
        let operator = toks[ps.pos];
        let (r, p1) = p_and(toks, adv(toks, ps));
        if !fwd(toks, adv(toks, ps), p1) {
            (r, p1)
        } else {
            match r {
                Err(m) => (Err(m), p1),
                Ok(r) => p_or_rest(toks, p1, SExpr::Logical { left: Box::new(expr), right: Box::new(r), operator }),
            }
        }
    } else {
        (Ok(expr), ps)
    }
}

/// logic_or
#[verifier::opaque]
pub open spec fn p_or(toks: Seq<SToken>, ps: PS) -> PExpr
    decreases toks.len() - ps.pos, 19nat,
{
    let (e, p1) = p_and(toks, ps);
    if !fwd(toks, ps, p1) {
        (e, p1)
    } else {
        match e {
            Err(m) => (Err(m), p1),
            Ok(e) => p_or_rest(toks, p1, e),
        }
    }
}

/// assignment: a variable or a property access followed by "=" becomes an
/// assignment; anything else before "=" is an error at the "=".
#[verifier::opaque]
pub open spec fn p_assignment(toks: Seq<SToken>, ps: PS) -> PExpr
    decreases toks.len() - ps.pos, 20nat,
{
    let (e, p1) = p_or(toks, ps);
    if !fwd(toks, ps, p1) {
        (e, p1)
    } else {
        match e {
            Err(m) => (Err(m), p1),
            Ok(e) => if check(toks, p1.pos, TokenType::Equal) {
                let (v, p2) = p_assignment(toks, adv(toks, p1));
                match v {
                    Err(m) => (Err(m), p2),
                    Ok(v) => match e {
                        SExpr::Variable { name, .. } => (
                            Ok(SExpr::Assign { id: p2.next_id, name, value: Box::new(v) }),
                            take_id(p2),
                        ),
                        SExpr::Get { name, object } => (
                            Ok(SExpr::SetField { name, object, value: Box::new(v) }),
                            p2,
                        ),
                        _ => (Err(error_text("Invalid assignment target."@, toks[p1.pos])), p2),
                    },
                }
            } else {
                (Ok(e), p1)
            },
        }
    }
}

/// expression
#[verifier::opaque]
pub open spec fn p_expression(toks: Seq<SToken>, ps: PS) -> PExpr
    decreases toks.len() - ps.pos, 21nat,
{
    p_assignment(toks, ps)
}

// ---------------------------------------------------------------------
// Statements
// ---------------------------------------------------------------------

/// A statement that ends with ";".
#[verifier::opaque]
pub open spec fn p_expression_statement(toks: Seq<SToken>, ps: PS) -> PStmt
    decreases toks.len() - ps.pos, 24nat,
{
    let (e, p1) = p_expression(toks, ps);
    match e {
        Err(m) => (Err(m), p1),
        Ok(e) => {
            let (c, p2) = p_consume(toks, p1, TokenType::Semicolon, "Expected ';' after expression."@);
            match c {
                Err(m) => (Err(m), p2),
                Ok(_) => (Ok(SStmt::Expression { expression: e }), p2),
            }
        },
    }
}

/// printStmt, after "print".
#[verifier::opaque]
pub open spec fn p_print_statement(toks: Seq<SToken>, ps: PS) -> PStmt
    decreases toks.len() - ps.pos, 25nat,
{
    let (e, p1) = p_expression(toks, ps);
    match e {
        Err(m) => (Err(m), p1),
        Ok(e) => {
            let (c, p2) = p_consume(toks, p1, TokenType::Semicolon, "Expected ';' after value."@);
            match c {
                Err(m) => (Err(m), p2),
                Ok(_) => (Ok(SStmt::Print { expression: e }), p2),
            }
        },
    }
}

/// returnStmt, after "return": a missing value is nil.
#[verifier::opaque]
pub open spec fn p_return_statement(toks: Seq<SToken>, ps: PS) -> PStmt
    decreases toks.len() - ps.pos, 25nat,
{
    let keyword = toks[ps.pos - 1];
    let (e, p1) = if check(toks, ps.pos, TokenType::Semicolon) {
        (Ok(SExpr::Literal { value: SLiteral::Nothing }), ps)
    } else {
        p_expression(toks, ps)
    };
    match e {
        Err(m) => (Err(m), p1),
        Ok(e) => {
            let (c, p2) = p_consume(toks, p1, TokenType::Semicolon, "Expected ';' after return values"@);
            match c {
                Err(m) => (Err(m), p2),
                Ok(_) => (Ok(SStmt::Return { keyword, value: e }), p2),
            }
        },
    }
}

/// breakStmt, after "break": only inside a loop.
#[verifier::opaque]
pub open spec fn p_break_statement(toks: Seq<SToken>, ps: PS) -> PStmt {
    let (c, p1) = p_consume(toks, ps, TokenType::Semicolon, "Missing ';' after 'break'."@);
    match c {
        Err(m) => (Err(m), p1),
        Ok(_) => if p1.loop_open {
            (Ok(SStmt::Break), p1)
        } else {
            (Err("'break' outside loop."@), p1)
        },
    }
}

/// continueStmt, after "continue": only inside a loop.
#[verifier::opaque]
pub open spec fn p_continue_statement(toks: Seq<SToken>, ps: PS) -> PStmt {
    let (c, p1) = p_consume(toks, ps, TokenType::Semicolon, "Missing ';' after 'continue'."@);
    match c {
        Err(m) => (Err(m), p1),
        Ok(_) => if p1.loop_open {
            (Ok(SStmt::Continue), p1)
        } else {
            (Err("'continue' is outside loop"@), p1)
        },
    }
}

/// The declarations of a block, from after "{" up to and with "}".
#[verifier::opaque]
pub open spec fn p_block_rest(toks: Seq<SToken>, ps: PS, stmts: Seq<SStmt>) -> PStmts
    decreases toks.len() - ps.pos, 42nat,
{
    if !check(toks, ps.pos, TokenType::RightBrace) && !at_end(toks, ps.pos) {
        let (d, p1) = p_declaration(toks, ps);
        match d {
            Err(m) => (Err(m), p1),
            Ok(d) => if ps.pos < p1.pos <= toks.len() {
                p_block_rest(toks, p1, stmts.push(d))
            } else {
                (Err(seq![]), p1)
            },
        }
    } else {
        let (c, p1) = p_consume(toks, ps, TokenType::RightBrace, "Expect '}' after block"@);
        match c {
            Err(m) => (Err(m), p1),
            Ok(_) => (Ok(stmts), p1),
        }
    }
}

/// block, after "{".
#[verifier::opaque]
pub open spec fn p_block(toks: Seq<SToken>, ps: PS) -> PStmts
    decreases toks.len() - ps.pos, 43nat,
{
    p_block_rest(toks, ps, seq![])
}

/// ifStmt, after "if".
#[verifier::opaque]
pub open spec fn p_if_statement(toks: Seq<SToken>, ps: PS) -> PStmt
    decreases toks.len() - ps.pos, 26nat,
{
    let (c1, p1) = p_consume(toks, ps, TokenType::LeftParen, "Expected '(' after 'if'."@);
    match c1 {
        Err(m) => (Err(m), p1),
        Ok(_) => {
            let (cond, p2) = p_expression(toks, p1);
            if !fwd(toks, p1, p2) {
                (Err(seq![]), p2)
            } else {
                match cond {
                    Err(m) => (Err(m), p2),
                    Ok(cond) => {
                        let (c3, p3) = p_consume(toks, p2, TokenType::RightParen, "Expected ')' after if condition."@);
                        match c3 {
                            Err(m) => (Err(m), p3),
                            Ok(_) => {
                                let (then_branch, p4) = p_statement(toks, p3);
                                if !fwd(toks, p3, p4) {
                                    (Err(seq![]), p4)
                                } else {
                                    match then_branch {
                                        Err(m) => (Err(m), p4),
                                        Ok(then_branch) => if check(toks, p4.pos, TokenType::Else) {
                                            let (else_branch, p5) = p_statement(toks, adv(toks, p4));
                                            match else_branch {
                                                Err(m) => (Err(m), p5),
                                                Ok(else_branch) => (
                                                    Ok(SStmt::If {
                                                        condition: cond,
                                                        then_branch: Box::new(then_branch),
                                                        else_branch: Some(Box::new(else_branch)),
                                                    }),
                                                    p5,
                                                ),
                                            }
                                        } else {
                                            (
                                                Ok(SStmt::If {
                                                    condition: cond,
                                                    then_branch: Box::new(then_branch),
                                                    else_branch: None,
                                                }),
                                                p4,
                                            )
                                        },
                                    }
                                }
                            },
                        }
                    },
                }
            }
        },
    }
}

/// whileStmt, after "while": the body is parsed with a loop open, and the
/// earlier setting comes back once the body has been parsed.
#[verifier::opaque]
pub open spec fn p_while_statement(toks: Seq<SToken>, ps: PS) -> PStmt
    decreases toks.len() - ps.pos, 26nat,
{
    let p0 = PS { loop_open: true, ..ps };
    let (c1, p1) = p_consume(toks, p0, TokenType::LeftParen, "Expected '(' after 'while'."@);
    match c1 {
        Err(m) => (Err(m), p1),
        Ok(_) => {
            let (cond, p2) = p_expression(toks, p1);
            if !fwd(toks, p1, p2) {
                (Err(seq![]), p2)
            } else {
                match cond {
                    Err(m) => (Err(m), p2),
                    Ok(cond) => {
                        let (c3, p3) = p_consume(toks, p2, TokenType::RightParen, "Expected ')' after condition"@);
                        match c3 {
                            Err(m) => (Err(m), p3),
                            Ok(_) => {
                                let (body, p4) = p_statement(toks, p3);
                                match body {
                                    Err(m) => (Err(m), p4),
                                    Ok(body) => (
                                        Ok(SStmt::While { condition: cond, body: Box::new(body), increment: None }),
                                        PS { loop_open: ps.loop_open, ..p4 },
                                    ),
                                }
                            },
                        }
                    },
                }
            }
        },
    }
}

/// The initializer clause of a for loop.
#[verifier::opaque]
pub open spec fn p_for_initializer(toks: Seq<SToken>, ps: PS) -> (Result<Option<SStmt>, Seq<char>>, PS)
    decreases toks.len() - ps.pos, 27nat,
{
    if check(toks, ps.pos, TokenType::Semicolon) {
        (Ok(None), adv(toks, ps))
    } else if check(toks, ps.pos, TokenType::Var) {
        let (v, p1) = p_var_declaration(toks, adv(toks, ps));
        match v {
            Err(m) => (Err(m), p1),
            Ok(v) => (Ok(Some(v)), p1),
        }
    } else {
        let (e, p1) = p_expression_statement(toks, ps);
        match e {
            Err(m) => (Err(m), p1),
            Ok(e) => (Ok(Some(e)), p1),
        }
    }
}

/// The condition and increment clauses and the body of a for loop, from
/// after the initializer; gives the loop as a while statement.
#[verifier::opaque]
pub open spec fn p_for_rest(toks: Seq<SToken>, ps: PS) -> PStmt
    decreases toks.len() - ps.pos, 28nat,
{
    let (cond, p1) = if !check(toks, ps.pos, TokenType::Semicolon) {
        p_expression(toks, ps)
    } else {
        (Ok(SExpr::Literal { value: SLiteral::Bool(true) }), ps)
    };
    if !fwd(toks, ps, p1) {
        (Err(seq![]), p1)
    } else {
        match cond {
            Err(m) => (Err(m), p1),
            Ok(cond) => {
                let (c2, p2) = p_consume(toks, p1, TokenType::Semicolon, "Expect ';' after loop condition."@);
                match c2 {
                    Err(m) => (Err(m), p2),
                    Ok(_) => {
                        let (incr, p3) = if !check(toks, p2.pos, TokenType::RightParen) {
                            let (e, q) = p_expression(toks, p2);
                            match e {
                                Err(m) => (Err(m), q),
                                Ok(e) => (Ok(Some(e)), q),
                            }
                        } else {
                            (Ok(None), p2)
                        };
                        if !fwd(toks, p2, p3) {
                            (Err(seq![]), p3)
                        } else {
                            match incr {
                                Err(m) => (Err(m), p3),
                                Ok(incr) => {
                                    let (c4, p4) = p_consume(toks, p3, TokenType::RightParen, "Expected ')' after 'for' clauses."@);
                                    match c4 {
                                        Err(m) => (Err(m), p4),
                                        Ok(_) => {
                                            let (body, p5) = p_statement(toks, PS { loop_open: true, ..p4 });
                                            match body {
                                                Err(m) => (Err(m), p5),
                                                Ok(body) => (
                                                    Ok(SStmt::While { condition: cond, body: Box::new(body), increment: incr }),
                                                    PS { loop_open: p4.loop_open, ..p5 },
                                                ),
                                            }
                                        },
                                    }
                                },
                            }
                        }
                    },
                }
            },
        }
    }
}

/// forStmt, after "for": becomes a while loop, in a block with the
/// initializer where there is one.
#[verifier::opaque]
pub open spec fn p_for_statement(toks: Seq<SToken>, ps: PS) -> PStmt
    decreases toks.len() - ps.pos, 29nat,
{
    let (c1, p1) = p_consume(toks, ps, TokenType::LeftParen, "Expected '(' after 'for'."@);
    match c1 {
        Err(m) => (Err(m), p1),
        Ok(_) => {
            let (init, p2) = p_for_initializer(toks, p1);
            if !fwd(toks, p1, p2) {
                (Err(seq![]), p2)
            } else {
                match init {
                    Err(m) => (Err(m), p2),
                    Ok(init) => {
                        let (w, p3) = p_for_rest(toks, p2);
                        match w {
                            Err(m) => (Err(m), p3),
                            Ok(w) => match init {
                                Some(i) => (Ok(SStmt::Block { statements: seq![i, w] }), p3),
                                None => (Ok(w), p3),
                            },
                        }
                    },
                }
            }
        },
    }
}

/// varDecl, after "var".
#[verifier::opaque]
pub open spec fn p_var_declaration(toks: Seq<SToken>, ps: PS) -> PStmt
    decreases toks.len() - ps.pos, 26nat,
{
    let (name, p1) = p_consume(toks, ps, TokenType::Identifier, "Expected variable name."@);
    match name {
        Err(m) => (Err(m), p1),
        Ok(name) => {
            let (init, p2) = if check(toks, p1.pos, TokenType::Equal) {
                let (e, q) = p_expression(toks, adv(toks, p1));
                match e {
                    Err(m) => (Err(m), q),
                    Ok(e) => (Ok(Some(e)), q),
                }
            } else {
                (Ok(None), p1)
            };
            match init {
                Err(m) => (Err(m), p2),
                Ok(init) => {
                    let (c, p3) = p_consume(toks, p2, TokenType::Semicolon, "Expected ';' after variable declaration."@);
                    match c {
                        Err(m) => (Err(m), p3),
                        Ok(_) => (Ok(SStmt::Var { name, initializer: init }), p3),
                    }
                },
            }
        },
    }
}

/// The parameters of a function, at most 255.
#[verifier::opaque]
pub open spec fn p_parameters(toks: Seq<SToken>, ps: PS, params: Seq<SToken>) -> (Result<Seq<SToken>, Seq<char>>, PS)
    decreases toks.len() - ps.pos, 26nat,
{
    if params.len() >= 255 {
        (Err("Cannot have more than 255 parameters."@), ps)
    } else {
        let (p, p1) = p_consume(toks, ps, TokenType::Identifier, "Expected parameter name."@);
        match p {
            Err(m) => (Err(m), p1),
            Ok(p) => if check(toks, p1.pos, TokenType::Comma) {
                p_parameters(toks, adv(toks, p1), params.push(p))
            } else {
                (Ok(params.push(p)), p1)
            },
        }
    }
}

/// function: a function or a method, as `kind` says.
#[verifier::opaque]
pub open spec fn p_function(toks: Seq<SToken>, ps: PS, kind: Seq<char>) -> PStmt
    decreases toks.len() - ps.pos, 30nat,
{
    let (name, p1) = p_consume(toks, ps, TokenType::Identifier, "Expected "@ + kind + " name."@);
    match name {
        Err(m) => (Err(m), p1),
        Ok(name) => {
            let (c2, p2) = p_consume(toks, p1, TokenType::LeftParen, "Expected '(' after "@ + kind + " name."@);
            match c2 {
                Err(m) => (Err(m), p2),
                Ok(_) => {
                    let (params, p3) = if !check(toks, p2.pos, TokenType::RightParen) {
                        p_parameters(toks, p2, seq![])
                    } else {
                        (Ok(seq![]), p2)
                    };
                    if !fwd(toks, p2, p3) {
                        (Err(seq![]), p3)
                    } else {
                        match params {
                            Err(m) => (Err(m), p3),
                            Ok(params) => {
                                let (c4, p4) = p_consume(toks, p3, TokenType::RightParen, "Expected '(' after parameters."@);
                                match c4 {
                                    Err(m) => (Err(m), p4),
                                    Ok(_) => {
                                        let (c5, p5) = p_consume(toks, p4, TokenType::LeftBrace, "Expected '{' before "@ + kind + " body."@);
                                        match c5 {
                                            Err(m) => (Err(m), p5),
                                            Ok(_) => {
                                                let (body, p6) = p_block(toks, p5);
                                                match body {
                                                    Err(m) => (Err(m), p6),
                                                    Ok(body) => (Ok(SStmt::Function { name, parameters: params, body }), p6),
                                                }
                                            },
                                        }
                                    },
                                }
                            },
                        }
                    }
                },
            }
        },
    }
}

/// The methods of a class, up to "}".
#[verifier::opaque]
pub open spec fn p_methods(toks: Seq<SToken>, ps: PS, methods: Seq<SStmt>) -> PStmts
    decreases toks.len() - ps.pos, 31nat,
{
    if !check(toks, ps.pos, TokenType::RightBrace) && !at_end(toks, ps.pos) {
        let (f, p1) = p_function(toks, ps, "method"@);
        match f {
            Err(m) => (Err(m), p1),
            Ok(f) => if ps.pos < p1.pos <= toks.len() {
                p_methods(toks, p1, methods.push(f))
            } else {
                (Err(seq![]), p1)
            },
        }
    } else {
        (Ok(methods), ps)
    }
}

/// classDecl, after "class".
#[verifier::opaque]
pub open spec fn p_class_declaration(toks: Seq<SToken>, ps: PS) -> PStmt
    decreases toks.len() - ps.pos, 32nat,
{
    let (name, p1) = p_consume(toks, ps, TokenType::Identifier, "Expected class name."@);
    match name {
        Err(m) => (Err(m), p1),
        Ok(name) => {
            let (sup, p2) = if check(toks, p1.pos, TokenType::Less) {
                let (s, q) = p_consume(toks, adv(toks, p1), TokenType::Identifier, "Expected superclass name."@);
                match s {
                    Err(m) => (Err(m), q),
                    Ok(s) => (Ok(Some(SExpr::Variable { id: q.next_id, name: s })), take_id(q)),
                }
            } else {
                (Ok(None), p1)
            };
            match sup {
                Err(m) => (Err(m), p2),
                Ok(sup) => {
                    let (c3, p3) = p_consume(toks, p2, TokenType::LeftBrace, "Expected '{' before class body."@);
                    match c3 {
                        Err(m) => (Err(m), p3),
                        Ok(_) => {
                            let (methods, p4) = p_methods(toks, p3, seq![]);
                            match methods {
                                Err(m) => (Err(m), p4),
                                Ok(methods) => {
                                    let (c5, p5) = p_consume(toks, p4, TokenType::RightBrace, "Expected '}' after class body"@);
                                    match c5 {
                                        Err(m) => (Err(m), p5),
                                        Ok(_) => (Ok(SStmt::Class { name, superclass: sup, methods }), p5),
                                    }
                                },
                            }
                        },
                    }
                },
            }
        },
    }
}

/// statement
#[verifier::opaque]
pub open spec fn p_statement(toks: Seq<SToken>, ps: PS) -> PStmt
    decreases toks.len() - ps.pos, 40nat,
{
    if check(toks, ps.pos, TokenType::Break) {
        p_break_statement(toks, adv(toks, ps))
    } else if check(toks, ps.pos, TokenType::Continue) {
        p_continue_statement(toks, adv(toks, ps))
    } else if check(toks, ps.pos, TokenType::For) {
        p_for_statement(toks, adv(toks, ps))
    } else if check(toks, ps.pos, TokenType::If) {
        p_if_statement(toks, adv(toks, ps))
    } else if check(toks, ps.pos, TokenType::Print) {
        p_print_statement(toks, adv(toks, ps))
    } else if check(toks, ps.pos, TokenType::Return) {
        p_return_statement(toks, adv(toks, ps))
    } else if check(toks, ps.pos, TokenType::While) {
        p_while_statement(toks, adv(toks, ps))
    } else if check(toks, ps.pos, TokenType::LeftBrace) {
        let (b, p1) = p_block(toks, adv(toks, ps));
        match b {
            Err(m) => (Err(m), p1),
            Ok(b) => (Ok(SStmt::Block { statements: b }), p1),
        }
    } else {
        p_expression_statement(toks, ps)
    }
}

/// declaration
#[verifier::opaque]
pub open spec fn p_declaration(toks: Seq<SToken>, ps: PS) -> PStmt
    decreases toks.len() - ps.pos, 41nat,
{
    if check(toks, ps.pos, TokenType::Class) {
        p_class_declaration(toks, adv(toks, ps))
    } else if check(toks, ps.pos, TokenType::Fun) {
        p_function(toks, adv(toks, ps), "function"@)
    } else if check(toks, ps.pos, TokenType::Var) {
        p_var_declaration(toks, adv(toks, ps))
    } else {
        p_statement(toks, ps)
    }
}

/// program: every declaration up to the end; the statements parsed and the
/// error messages of the declarations that failed, each parse starting where
/// the last one stopped.
#[verifier::opaque]
pub open spec fn p_program(toks: Seq<SToken>, ps: PS, stmts: Seq<SStmt>, errors: Seq<Seq<char>>) -> (Seq<SStmt>, Seq<Seq<char>>, PS)
    decreases toks.len() - ps.pos, 44nat,
{
    if !at_end(toks, ps.pos) {
        let (d, p1) = p_declaration(toks, ps);
        if ps.pos < p1.pos <= toks.len() {
            match d {
                Ok(d) => p_program(toks, p1, stmts.push(d), errors),
                Err(m) => p_program(toks, p1, stmts, errors.push(m)),
            }
        } else {
            (stmts, errors, p1)
        }
    } else {
        (stmts, errors, ps)
    }
}

/// The result of parsing: the statements when no declaration failed, else
/// the error messages.
pub open spec fn parse_result(toks: Seq<SToken>, ps: PS) -> Result<Seq<SStmt>, Seq<Seq<char>>> {
    let (stmts, errors, _) = p_program(toks, ps, seq![], seq![]);
    if errors.len() == 0 {
        Ok(stmts)
    } else {
        Err(errors)
    }
}



// ---------------------------------------------------------------------
// Each rule unfolded once, for the proofs of the parser
// ---------------------------------------------------------------------

/// `p_primary` equals its definition.
pub proof fn lemma_unfold_primary(toks: Seq<SToken>, ps: PS)
    ensures
        p_primary(toks, ps) == ({
            let pos = ps.pos;
            if check(toks, pos, TokenType::False) {
                (Ok(SExpr::Literal { value: SLiteral::Bool(false) }), adv(toks, ps))
            } else if check(toks, pos, TokenType::True) {
                (Ok(SExpr::Literal { value: SLiteral::Bool(true) }), adv(toks, ps))
            } else if check(toks, pos, TokenType::Nil) {
                (Ok(SExpr::Literal { value: SLiteral::Nothing }), adv(toks, ps))
            } else if matched(toks, pos, seq![TokenType::Number, TokenType::String]) {
                (Ok(SExpr::Literal { value: toks[pos].literal }), adv(toks, ps))
            } else if check(toks, pos, TokenType::Super) {
                let p1 = adv(toks, ps);
                let (d, p2) = p_consume(toks, p1, TokenType::Dot, "Expected '.' after 'super'."@);
                match d {
                    Err(m) => (Err(m), p2),
                    Ok(_) => {
                        let (method, p3) = p_consume(toks, p2, TokenType::Identifier, "Expected superclass method name."@);
                        match method {
                            Err(m) => (Err(m), p3),
                            Ok(method) => (
                                Ok(SExpr::Super { id: p3.next_id, keyword: toks[pos], method }),
                                take_id(p3),
                            ),
                        }
                    },
                }
            } else if check(toks, pos, TokenType::This) {
                (Ok(SExpr::This { id: ps.next_id, keyword: toks[pos] }), take_id(adv(toks, ps)))
            } else if check(toks, pos, TokenType::Identifier) {
                (Ok(SExpr::Variable { id: ps.next_id, name: toks[pos] }), take_id(adv(toks, ps)))
            } else if check(toks, pos, TokenType::LeftParen) {
                let p1 = adv(toks, ps);
                let (e, p2) = p_expression(toks, p1);
                if !fwd(toks, p1, p2) {
                    (e, p2)
                } else {
                    match e {
                        Err(m) => (Err(m), p2),
                        Ok(e) => {
                            let (c, p3) = p_consume(toks, p2, TokenType::RightParen, "Expect ')' after expression"@);
                            match c {
                                Err(m) => (Err(m), p3),
                                Ok(_) => (Ok(SExpr::Grouping { expression: Box::new(e) }), p3),
                            }
                        },
                    }
                }
            } else {
                let p1 = adv(toks, ps);
                let prev = toks[p1.pos - 1];
                (Err(error_text("Unexpected primary token "@ + token_type_text(prev.ttype), prev)), p1)
            }
        }),
{
    reveal(p_primary);
    reveal(p_arguments);
    reveal(p_finish_call);
    reveal(p_call_rest);
    reveal(p_call);
    reveal(p_unary);
    reveal(p_factor_rest);
    reveal(p_factor);
    reveal(p_term_rest);
    reveal(p_term);
    reveal(p_comparison_rest);
    reveal(p_comparison);
    reveal(p_equality_rest);
    reveal(p_equality);
    reveal(p_and_rest);
    reveal(p_and);
    reveal(p_or_rest);
    reveal(p_or);
    reveal(p_assignment);
    reveal(p_expression);
    reveal(p_expression_statement);
    reveal(p_print_statement);
    reveal(p_return_statement);
    reveal(p_break_statement);
    reveal(p_continue_statement);
    reveal(p_block_rest);
    reveal(p_block);
    reveal(p_if_statement);
    reveal(p_while_statement);
    reveal(p_for_initializer);
    reveal(p_for_rest);
    reveal(p_for_statement);
    reveal(p_var_declaration);
    reveal(p_parameters);
    reveal(p_function);
    reveal(p_methods);
    reveal(p_class_declaration);
    reveal(p_statement);
    reveal(p_declaration);
    reveal(p_program);
}

/// `p_arguments` equals its definition.
pub proof fn lemma_unfold_arguments(toks: Seq<SToken>, ps: PS, args: Seq<SExpr>)
    ensures
        p_arguments(toks, ps, args) == ({
            if args.len() >= 255 {
                (Err("Cannot have more than 255 arguments."@), ps)
            } else {
                let (e, p1) = p_expression(toks, ps);
                if !fwd(toks, ps, p1) {
                    (Err(seq![]), p1)
                } else {
                    match e {
                        Err(m) => (Err(m), p1),
                        Ok(e) => if check(toks, p1.pos, TokenType::Comma) {
                            p_arguments(toks, adv(toks, p1), args.push(e))
                        } else {
                            (Ok(args.push(e)), p1)
                        },
                    }
                }
            }
        }),
{
    reveal(p_primary);
    reveal(p_arguments);
    reveal(p_finish_call);
    reveal(p_call_rest);
    reveal(p_call);
    reveal(p_unary);
    reveal(p_factor_rest);
    reveal(p_factor);
    reveal(p_term_rest);
    reveal(p_term);
    reveal(p_comparison_rest);
    reveal(p_comparison);
    reveal(p_equality_rest);
    reveal(p_equality);
    reveal(p_and_rest);
    reveal(p_and);
    reveal(p_or_rest);
    reveal(p_or);
    reveal(p_assignment);
    reveal(p_expression);
    reveal(p_expression_statement);
    reveal(p_print_statement);
    reveal(p_return_statement);
    reveal(p_break_statement);
    reveal(p_continue_statement);
    reveal(p_block_rest);
    reveal(p_block);
    reveal(p_if_statement);
    reveal(p_while_statement);
    reveal(p_for_initializer);
    reveal(p_for_rest);
    reveal(p_for_statement);
    reveal(p_var_declaration);
    reveal(p_parameters);
    reveal(p_function);
    reveal(p_methods);
    reveal(p_class_declaration);
    reveal(p_statement);
    reveal(p_declaration);
    reveal(p_program);
}

/// `p_finish_call` equals its definition.
pub proof fn lemma_unfold_finish_call(toks: Seq<SToken>, ps: PS, callee: SExpr)
    ensures
        p_finish_call(toks, ps, callee) == ({
            let (args, p1) = if !check(toks, ps.pos, TokenType::RightParen) {
                p_arguments(toks, ps, seq![])
            } else {
                (Ok(seq![]), ps)
            };
            match args {
                Err(m) => (Err(m), p1),
                Ok(args) => {
                    let (rp, p2) = p_consume(toks, p1, TokenType::RightParen, "Expected ')' after arguments."@);
                    match rp {
                        Err(m) => (Err(m), p2),
                        Ok(rp) => (
                            Ok(SExpr::Call { callee: Box::new(callee), right_parenthesis: rp, arguments: args }),
                            p2,
                        ),
                    }
                },
            }
        }),
{
    reveal(p_primary);
    reveal(p_arguments);
    reveal(p_finish_call);
    reveal(p_call_rest);
    reveal(p_call);
    reveal(p_unary);
    reveal(p_factor_rest);
    reveal(p_factor);
    reveal(p_term_rest);
    reveal(p_term);
    reveal(p_comparison_rest);
    reveal(p_comparison);
    reveal(p_equality_rest);
    reveal(p_equality);
    reveal(p_and_rest);
    reveal(p_and);
    reveal(p_or_rest);
    reveal(p_or);
    reveal(p_assignment);
    reveal(p_expression);
    reveal(p_expression_statement);
    reveal(p_print_statement);
    reveal(p_return_statement);
    reveal(p_break_statement);
    reveal(p_continue_statement);
    reveal(p_block_rest);
    reveal(p_block);
    reveal(p_if_statement);
    reveal(p_while_statement);
    reveal(p_for_initializer);
    reveal(p_for_rest);
    reveal(p_for_statement);
    reveal(p_var_declaration);
    reveal(p_parameters);
    reveal(p_function);
    reveal(p_methods);
    reveal(p_class_declaration);
    reveal(p_statement);
    reveal(p_declaration);
    reveal(p_program);
}

/// `p_call_rest` equals its definition.
pub proof fn lemma_unfold_call_rest(toks: Seq<SToken>, ps: PS, expr: SExpr)
    ensures
        p_call_rest(toks, ps, expr) == ({
            if check(toks, ps.pos, TokenType::LeftParen) {
                let (e1, p1) = p_finish_call(toks, adv(toks, ps), expr);
                if !fwd(toks, adv(toks, ps), p1) {
                    (e1, p1)
                } else {
                    match e1 {
                        Err(m) => (Err(m), p1),
                        Ok(e1) => p_call_rest(toks, p1, e1),
                    }
                }
            } else if check(toks, ps.pos, TokenType::Dot) {
                let (name, p2) = p_consume(toks, adv(toks, ps), TokenType::Identifier, "Expected property name after '.'."@);
                match name {
                    Err(m) => (Err(m), p2),
                    Ok(name) => p_call_rest(toks, p2, SExpr::Get { name, object: Box::new(expr) }),
                }
            } else {
                (Ok(expr), ps)
            }
        }),
{
    reveal(p_primary);
    reveal(p_arguments);
    reveal(p_finish_call);
    reveal(p_call_rest);
    reveal(p_call);
    reveal(p_unary);
    reveal(p_factor_rest);
    reveal(p_factor);
    reveal(p_term_rest);
    reveal(p_term);
    reveal(p_comparison_rest);
    reveal(p_comparison);
    reveal(p_equality_rest);
    reveal(p_equality);
    reveal(p_and_rest);
    reveal(p_and);
    reveal(p_or_rest);
    reveal(p_or);
    reveal(p_assignment);
    reveal(p_expression);
    reveal(p_expression_statement);
    reveal(p_print_statement);
    reveal(p_return_statement);
    reveal(p_break_statement);
    reveal(p_continue_statement);
    reveal(p_block_rest);
    reveal(p_block);
    reveal(p_if_statement);
    reveal(p_while_statement);
    reveal(p_for_initializer);
    reveal(p_for_rest);
    reveal(p_for_statement);
    reveal(p_var_declaration);
    reveal(p_parameters);
    reveal(p_function);
    reveal(p_methods);
    reveal(p_class_declaration);
    reveal(p_statement);
    reveal(p_declaration);
    reveal(p_program);
}

/// `p_call` equals its definition.
pub proof fn lemma_unfold_call(toks: Seq<SToken>, ps: PS)
    ensures
        p_call(toks, ps) == ({
            let (e, p1) = p_primary(toks, ps);
            if !fwd(toks, ps, p1) {
                (e, p1)
            } else {
                match e {
                    Err(m) => (Err(m), p1),
                    Ok(e) => p_call_rest(toks, p1, e),
                }
            }
        }),
{
    reveal(p_primary);
    reveal(p_arguments);
    reveal(p_finish_call);
    reveal(p_call_rest);
    reveal(p_call);
    reveal(p_unary);
    reveal(p_factor_rest);
    reveal(p_factor);
    reveal(p_term_rest);
    reveal(p_term);
    reveal(p_comparison_rest);
    reveal(p_comparison);
    reveal(p_equality_rest);
    reveal(p_equality);
    reveal(p_and_rest);
    reveal(p_and);
    reveal(p_or_rest);
    reveal(p_or);
    reveal(p_assignment);
    reveal(p_expression);
    reveal(p_expression_statement);
    reveal(p_print_statement);
    reveal(p_return_statement);
    reveal(p_break_statement);
    reveal(p_continue_statement);
    reveal(p_block_rest);
    reveal(p_block);
    reveal(p_if_statement);
    reveal(p_while_statement);
    reveal(p_for_initializer);
    reveal(p_for_rest);
    reveal(p_for_statement);
    reveal(p_var_declaration);
    reveal(p_parameters);
    reveal(p_function);
    reveal(p_methods);
    reveal(p_class_declaration);
    reveal(p_statement);
    reveal(p_declaration);
    reveal(p_program);
}

/// `p_unary` equals its definition.
pub proof fn lemma_unfold_unary(toks: Seq<SToken>, ps: PS)
    ensures
        p_unary(toks, ps) == ({
            if matched(toks, ps.pos, seq![TokenType::Bang, TokenType::Minus]) {
                let operator = toks[ps.pos];
                let (r, p1) = p_unary(toks, adv(toks, ps));
                match r {
                    Err(m) => (Err(m), p1),
                    Ok(r) => (Ok(SExpr::Unary { right: Box::new(r), operator }), p1),
                }
            } else {
                p_call(toks, ps)
            }
        }),
{
    reveal(p_primary);
    reveal(p_arguments);
    reveal(p_finish_call);
    reveal(p_call_rest);
    reveal(p_call);
    reveal(p_unary);
    reveal(p_factor_rest);
    reveal(p_factor);
    reveal(p_term_rest);
    reveal(p_term);
    reveal(p_comparison_rest);
    reveal(p_comparison);
    reveal(p_equality_rest);
    reveal(p_equality);
    reveal(p_and_rest);
    reveal(p_and);
    reveal(p_or_rest);
    reveal(p_or);
    reveal(p_assignment);
    reveal(p_expression);
    reveal(p_expression_statement);
    reveal(p_print_statement);
    reveal(p_return_statement);
    reveal(p_break_statement);
    reveal(p_continue_statement);
    reveal(p_block_rest);
    reveal(p_block);
    reveal(p_if_statement);
    reveal(p_while_statement);
    reveal(p_for_initializer);
    reveal(p_for_rest);
    reveal(p_for_statement);
    reveal(p_var_declaration);
    reveal(p_parameters);
    reveal(p_function);
    reveal(p_methods);
    reveal(p_class_declaration);
    reveal(p_statement);
    reveal(p_declaration);
    reveal(p_program);
}

/// `p_factor_rest` equals its definition.
pub proof fn lemma_unfold_factor_rest(toks: Seq<SToken>, ps: PS, expr: SExpr)
    ensures
        p_factor_rest(toks, ps, expr) == ({
            if matched(toks, ps.pos, seq![TokenType::Star, TokenType::Slash]) {
                let operator = toks[ps.pos];
                let (r, p1) = p_unary(toks, adv(toks, ps));
                if !fwd(toks, adv(toks, ps), p1) {
                    (r, p1)
                } else {
                    match r {
                        Err(m) => (Err(m), p1),
                        Ok(r) => p_factor_rest(toks, p1, SExpr::Binary { left: Box::new(expr), right: Box::new(r), operator }),
                    }
                }
            } else {
                (Ok(expr), ps)
            }
        }),
{
    reveal(p_primary);
    reveal(p_arguments);
    reveal(p_finish_call);
    reveal(p_call_rest);
    reveal(p_call);
    reveal(p_unary);
    reveal(p_factor_rest);
    reveal(p_factor);
    reveal(p_term_rest);
    reveal(p_term);
    reveal(p_comparison_rest);
    reveal(p_comparison);
    reveal(p_equality_rest);
    reveal(p_equality);
    reveal(p_and_rest);
    reveal(p_and);
    reveal(p_or_rest);
    reveal(p_or);
    reveal(p_assignment);
    reveal(p_expression);
    reveal(p_expression_statement);
    reveal(p_print_statement);
    reveal(p_return_statement);
    reveal(p_break_statement);
    reveal(p_continue_statement);
    reveal(p_block_rest);
    reveal(p_block);
    reveal(p_if_statement);
    reveal(p_while_statement);
    reveal(p_for_initializer);
    reveal(p_for_rest);
    reveal(p_for_statement);
    reveal(p_var_declaration);
    reveal(p_parameters);
    reveal(p_function);
    reveal(p_methods);
    reveal(p_class_declaration);
    reveal(p_statement);
    reveal(p_declaration);
    reveal(p_program);
}

/// `p_factor` equals its definition.
pub proof fn lemma_unfold_factor(toks: Seq<SToken>, ps: PS)
    ensures
        p_factor(toks, ps) == ({
            let (e, p1) = p_unary(toks, ps);
            if !fwd(toks, ps, p1) {
                (e, p1)
            } else {
                match e {
                    Err(m) => (Err(m), p1),
                    Ok(e) => p_factor_rest(toks, p1, e),
                }
            }
        }),
{
    reveal(p_primary);
    reveal(p_arguments);
    reveal(p_finish_call);
    reveal(p_call_rest);
    reveal(p_call);
    reveal(p_unary);
    reveal(p_factor_rest);
    reveal(p_factor);
    reveal(p_term_rest);
    reveal(p_term);
    reveal(p_comparison_rest);
    reveal(p_comparison);
    reveal(p_equality_rest);
    reveal(p_equality);
    reveal(p_and_rest);
    reveal(p_and);
    reveal(p_or_rest);
    reveal(p_or);
    reveal(p_assignment);
    reveal(p_expression);
    reveal(p_expression_statement);
    reveal(p_print_statement);
    reveal(p_return_statement);
    reveal(p_break_statement);
    reveal(p_continue_statement);
    reveal(p_block_rest);
    reveal(p_block);
    reveal(p_if_statement);
    reveal(p_while_statement);
    reveal(p_for_initializer);
    reveal(p_for_rest);
    reveal(p_for_statement);
    reveal(p_var_declaration);
    reveal(p_parameters);
    reveal(p_function);
    reveal(p_methods);
    reveal(p_class_declaration);
    reveal(p_statement);
    reveal(p_declaration);
    reveal(p_program);
}

/// `p_term_rest` equals its definition.
pub proof fn lemma_unfold_term_rest(toks: Seq<SToken>, ps: PS, expr: SExpr)
    ensures
        p_term_rest(toks, ps, expr) == ({
            if matched(toks, ps.pos, seq![TokenType::Plus, TokenType::Minus]) {
                let operator = toks[ps.pos];
                let (r, p1) = p_factor(toks, adv(toks, ps));
                if !fwd(toks, adv(toks, ps), p1) {
                    (r, p1)
                } else {
                    match r {
                        Err(m) => (Err(m), p1),
                        Ok(r) => p_term_rest(toks, p1, SExpr::Binary { left: Box::new(expr), right: Box::new(r), operator }),
                    }
                }
            } else {
                (Ok(expr), ps)
            }
        }),
{
    reveal(p_primary);
    reveal(p_arguments);
    reveal(p_finish_call);
    reveal(p_call_rest);
    reveal(p_call);
    reveal(p_unary);
    reveal(p_factor_rest);
    reveal(p_factor);
    reveal(p_term_rest);
    reveal(p_term);
    reveal(p_comparison_rest);
    reveal(p_comparison);
    reveal(p_equality_rest);
    reveal(p_equality);
    reveal(p_and_rest);
    reveal(p_and);
    reveal(p_or_rest);
    reveal(p_or);
    reveal(p_assignment);
    reveal(p_expression);
    reveal(p_expression_statement);
    reveal(p_print_statement);
    reveal(p_return_statement);
    reveal(p_break_statement);
    reveal(p_continue_statement);
    reveal(p_block_rest);
    reveal(p_block);
    reveal(p_if_statement);
    reveal(p_while_statement);
    reveal(p_for_initializer);
    reveal(p_for_rest);
    reveal(p_for_statement);
    reveal(p_var_declaration);
    reveal(p_parameters);
    reveal(p_function);
    reveal(p_methods);
    reveal(p_class_declaration);
    reveal(p_statement);
    reveal(p_declaration);
    reveal(p_program);
}

/// `p_term` equals its definition.
pub proof fn lemma_unfold_term(toks: Seq<SToken>, ps: PS)
    ensures
        p_term(toks, ps) == ({
            let (e, p1) = p_factor(toks, ps);
            if !fwd(toks, ps, p1) {
                (e, p1)
            } else {
                match e {
                    Err(m) => (Err(m), p1),
                    Ok(e) => p_term_rest(toks, p1, e),
                }
            }
        }),
{
    reveal(p_primary);
    reveal(p_arguments);
    reveal(p_finish_call);
    reveal(p_call_rest);
    reveal(p_call);
    reveal(p_unary);
    reveal(p_factor_rest);
    reveal(p_factor);
    reveal(p_term_rest);
    reveal(p_term);
    reveal(p_comparison_rest);
    reveal(p_comparison);
    reveal(p_equality_rest);
    reveal(p_equality);
    reveal(p_and_rest);
    reveal(p_and);
    reveal(p_or_rest);
    reveal(p_or);
    reveal(p_assignment);
    reveal(p_expression);
    reveal(p_expression_statement);
    reveal(p_print_statement);
    reveal(p_return_statement);
    reveal(p_break_statement);
    reveal(p_continue_statement);
    reveal(p_block_rest);
    reveal(p_block);
    reveal(p_if_statement);
    reveal(p_while_statement);
    reveal(p_for_initializer);
    reveal(p_for_rest);
    reveal(p_for_statement);
    reveal(p_var_declaration);
    reveal(p_parameters);
    reveal(p_function);
    reveal(p_methods);
    reveal(p_class_declaration);
    reveal(p_statement);
    reveal(p_declaration);
    reveal(p_program);
}

/// `p_comparison_rest` equals its definition.
pub proof fn lemma_unfold_comparison_rest(toks: Seq<SToken>, ps: PS, expr: SExpr)
    ensures
        p_comparison_rest(toks, ps, expr) == ({
            if matched(
                toks,
                ps.pos,
                seq![TokenType::Greater, TokenType::GreaterEqual, TokenType::Less, TokenType::LessEqual],
            ) {
                let operator = toks[ps.pos];
                let (r, p1) = p_term(toks, adv(toks, ps));
                if !fwd(toks, adv(toks, ps), p1) {
                    (r, p1)
                } else {
                    match r {
                        Err(m) => (Err(m), p1),
                        Ok(r) => p_comparison_rest(toks, p1, SExpr::Binary { left: Box::new(expr), right: Box::new(r), operator }),
                    }
                }
            } else {
                (Ok(expr), ps)
            }
        }),
{
    reveal(p_primary);
    reveal(p_arguments);
    reveal(p_finish_call);
    reveal(p_call_rest);
    reveal(p_call);
    reveal(p_unary);
    reveal(p_factor_rest);
    reveal(p_factor);
    reveal(p_term_rest);
    reveal(p_term);
    reveal(p_comparison_rest);
    reveal(p_comparison);
    reveal(p_equality_rest);
    reveal(p_equality);
    reveal(p_and_rest);
    reveal(p_and);
    reveal(p_or_rest);
    reveal(p_or);
    reveal(p_assignment);
    reveal(p_expression);
    reveal(p_expression_statement);
    reveal(p_print_statement);
    reveal(p_return_statement);
    reveal(p_break_statement);
    reveal(p_continue_statement);
    reveal(p_block_rest);
    reveal(p_block);
    reveal(p_if_statement);
    reveal(p_while_statement);
    reveal(p_for_initializer);
    reveal(p_for_rest);
    reveal(p_for_statement);
    reveal(p_var_declaration);
    reveal(p_parameters);
    reveal(p_function);
    reveal(p_methods);
    reveal(p_class_declaration);
    reveal(p_statement);
    reveal(p_declaration);
    reveal(p_program);
}

/// `p_comparison` equals its definition.
pub proof fn lemma_unfold_comparison(toks: Seq<SToken>, ps: PS)
    ensures
        p_comparison(toks, ps) == ({
            let (e, p1) = p_term(toks, ps);
            if !fwd(toks, ps, p1) {
                (e, p1)
            } else {
                match e {
                    Err(m) => (Err(m), p1),
                    Ok(e) => p_comparison_rest(toks, p1, e),
                }
            }
        }),
{
    reveal(p_primary);
    reveal(p_arguments);
    reveal(p_finish_call);
    reveal(p_call_rest);
    reveal(p_call);
    reveal(p_unary);
    reveal(p_factor_rest);
    reveal(p_factor);
    reveal(p_term_rest);
    reveal(p_term);
    reveal(p_comparison_rest);
    reveal(p_comparison);
    reveal(p_equality_rest);
    reveal(p_equality);
    reveal(p_and_rest);
    reveal(p_and);
    reveal(p_or_rest);
    reveal(p_or);
    reveal(p_assignment);
    reveal(p_expression);
    reveal(p_expression_statement);
    reveal(p_print_statement);
    reveal(p_return_statement);
    reveal(p_break_statement);
    reveal(p_continue_statement);
    reveal(p_block_rest);
    reveal(p_block);
    reveal(p_if_statement);
    reveal(p_while_statement);
    reveal(p_for_initializer);
    reveal(p_for_rest);
    reveal(p_for_statement);
    reveal(p_var_declaration);
    reveal(p_parameters);
    reveal(p_function);
    reveal(p_methods);
    reveal(p_class_declaration);
    reveal(p_statement);
    reveal(p_declaration);
    reveal(p_program);
}

/// `p_equality_rest` equals its definition.
pub proof fn lemma_unfold_equality_rest(toks: Seq<SToken>, ps: PS, expr: SExpr)
    ensures
        p_equality_rest(toks, ps, expr) == ({
            if matched(toks, ps.pos, seq![TokenType::BangEqual, TokenType::EqualEqual]) {
                let operator = toks[ps.pos];
                let (r, p1) = p_comparison(toks, adv(toks, ps));
                if !fwd(toks, adv(toks, ps), p1) {
                    (r, p1)
                } else {
                    match r {
                        Err(m) => (Err(m), p1),
                        Ok(r) => p_equality_rest(toks, p1, SExpr::Binary { left: Box::new(expr), right: Box::new(r), operator }),
                    }
                }
            } else {
                (Ok(expr), ps)
            }
        }),
{
    reveal(p_primary);
    reveal(p_arguments);
    reveal(p_finish_call);
    reveal(p_call_rest);
    reveal(p_call);
    reveal(p_unary);
    reveal(p_factor_rest);
    reveal(p_factor);
    reveal(p_term_rest);
    reveal(p_term);
    reveal(p_comparison_rest);
    reveal(p_comparison);
    reveal(p_equality_rest);
    reveal(p_equality);
    reveal(p_and_rest);
    reveal(p_and);
    reveal(p_or_rest);
    reveal(p_or);
    reveal(p_assignment);
    reveal(p_expression);
    reveal(p_expression_statement);
    reveal(p_print_statement);
    reveal(p_return_statement);
    reveal(p_break_statement);
    reveal(p_continue_statement);
    reveal(p_block_rest);
    reveal(p_block);
    reveal(p_if_statement);
    reveal(p_while_statement);
    reveal(p_for_initializer);
    reveal(p_for_rest);
    reveal(p_for_statement);
    reveal(p_var_declaration);
    reveal(p_parameters);
    reveal(p_function);
    reveal(p_methods);
    reveal(p_class_declaration);
    reveal(p_statement);
    reveal(p_declaration);
    reveal(p_program);
}

/// `p_equality` equals its definition.
pub proof fn lemma_unfold_equality(toks: Seq<SToken>, ps: PS)
    ensures
        p_equality(toks, ps) == ({
            let (e, p1) = p_comparison(toks, ps);
            if !fwd(toks, ps, p1) {
                (e, p1)
            } else {
                match e {
                    Err(m) => (Err(m), p1),
                    Ok(e) => p_equality_rest(toks, p1, e),
                }
            }
        }),
{
    reveal(p_primary);
    reveal(p_arguments);
    reveal(p_finish_call);
    reveal(p_call_rest);
    reveal(p_call);
    reveal(p_unary);
    reveal(p_factor_rest);
    reveal(p_factor);
    reveal(p_term_rest);
    reveal(p_term);
    reveal(p_comparison_rest);
    reveal(p_comparison);
    reveal(p_equality_rest);
    reveal(p_equality);
    reveal(p_and_rest);
    reveal(p_and);
    reveal(p_or_rest);
    reveal(p_or);
    reveal(p_assignment);
    reveal(p_expression);
    reveal(p_expression_statement);
    reveal(p_print_statement);
    reveal(p_return_statement);
    reveal(p_break_statement);
    reveal(p_continue_statement);
    reveal(p_block_rest);
    reveal(p_block);
    reveal(p_if_statement);
    reveal(p_while_statement);
    reveal(p_for_initializer);
    reveal(p_for_rest);
    reveal(p_for_statement);
    reveal(p_var_declaration);
    reveal(p_parameters);
    reveal(p_function);
    reveal(p_methods);
    reveal(p_class_declaration);
    reveal(p_statement);
    reveal(p_declaration);
    reveal(p_program);
}

/// `p_and_rest` equals its definition.
pub proof fn lemma_unfold_and_rest(toks: Seq<SToken>, ps: PS, expr: SExpr)
    ensures
        p_and_rest(toks, ps, expr) == ({
            if check(toks, ps.pos, TokenType::And) {
                let operator = toks[ps.pos];
                let (r, p1) = p_equality(toks, adv(toks, ps));
                if !fwd(toks, adv(toks, ps), p1) {
                    (r, p1)
                } else {
                    match r {
                        Err(m) => (Err(m), p1),
                        Ok(r) => p_and_rest(toks, p1, SExpr::Logical { left: Box::new(expr), right: Box::new(r), operator }),
                    }
                }
            } else {
                (Ok(expr), ps)
            }
        }),
{
    reveal(p_primary);
    reveal(p_arguments);
    reveal(p_finish_call);
    reveal(p_call_rest);
    reveal(p_call);
    reveal(p_unary);
    reveal(p_factor_rest);
    reveal(p_factor);
    reveal(p_term_rest);
    reveal(p_term);
    reveal(p_comparison_rest);
    reveal(p_comparison);
    reveal(p_equality_rest);
    reveal(p_equality);
    reveal(p_and_rest);
    reveal(p_and);
    reveal(p_or_rest);
    reveal(p_or);
    reveal(p_assignment);
    reveal(p_expression);
    reveal(p_expression_statement);
    reveal(p_print_statement);
    reveal(p_return_statement);
    reveal(p_break_statement);
    reveal(p_continue_statement);
    reveal(p_block_rest);
    reveal(p_block);
    reveal(p_if_statement);
    reveal(p_while_statement);
    reveal(p_for_initializer);
    reveal(p_for_rest);
    reveal(p_for_statement);
    reveal(p_var_declaration);
    reveal(p_parameters);
    reveal(p_function);
    reveal(p_methods);
    reveal(p_class_declaration);
    reveal(p_statement);
    reveal(p_declaration);
    reveal(p_program);
}

/// `p_and` equals its definition.
pub proof fn lemma_unfold_and(toks: Seq<SToken>, ps: PS)
    ensures
        p_and(toks, ps) == ({
            let (e, p1) = p_equality(toks, ps);
            if !fwd(toks, ps, p1) {
                (e, p1)
            } else {
                match e {
                    Err(m) => (Err(m), p1),
                    Ok(e) => p_and_rest(toks, p1, e),
                }
            }
        }),
{
    reveal(p_primary);
    reveal(p_arguments);
    reveal(p_finish_call);
    reveal(p_call_rest);
    reveal(p_call);
    reveal(p_unary);
    reveal(p_factor_rest);
    reveal(p_factor);
    reveal(p_term_rest);
    reveal(p_term);
    reveal(p_comparison_rest);
    reveal(p_comparison);
    reveal(p_equality_rest);
    reveal(p_equality);
    reveal(p_and_rest);
    reveal(p_and);
    reveal(p_or_rest);
    reveal(p_or);
    reveal(p_assignment);
    reveal(p_expression);
    reveal(p_expression_statement);
    reveal(p_print_statement);
    reveal(p_return_statement);
    reveal(p_break_statement);
    reveal(p_continue_statement);
    reveal(p_block_rest);
    reveal(p_block);
    reveal(p_if_statement);
    reveal(p_while_statement);
    reveal(p_for_initializer);
    reveal(p_for_rest);
    reveal(p_for_statement);
    reveal(p_var_declaration);
    reveal(p_parameters);
    reveal(p_function);
    reveal(p_methods);
    reveal(p_class_declaration);
    reveal(p_statement);
    reveal(p_declaration);
    reveal(p_program);
}

/// `p_or_rest` equals its definition.
pub proof fn lemma_unfold_or_rest(toks: Seq<SToken>, ps: PS, expr: SExpr)
    ensures
        p_or_rest(toks, ps, expr) == ({
            if check(toks, ps.pos, TokenType::Or) {
                let operator = toks[ps.pos];
                let (r, p1) = p_and(toks, adv(toks, ps));
                if !fwd(toks, adv(toks, ps), p1) {
                    (r, p1)
                } else {
                    match r {
                        Err(m) => (Err(m), p1),
                        Ok(r) => p_or_rest(toks, p1, SExpr::Logical { left: Box::new(expr), right: Box::new(r), operator }),
                    }
                }
            } else {
                (Ok(expr), ps)
            }
        }),
{
    reveal(p_primary);
    reveal(p_arguments);
    reveal(p_finish_call);
    reveal(p_call_rest);
    reveal(p_call);
    reveal(p_unary);
    reveal(p_factor_rest);
    reveal(p_factor);
    reveal(p_term_rest);
    reveal(p_term);
    reveal(p_comparison_rest);
    reveal(p_comparison);
    reveal(p_equality_rest);
    reveal(p_equality);
    reveal(p_and_rest);
    reveal(p_and);
    reveal(p_or_rest);
    reveal(p_or);
    reveal(p_assignment);
    reveal(p_expression);
    reveal(p_expression_statement);
    reveal(p_print_statement);
    reveal(p_return_statement);
    reveal(p_break_statement);
    reveal(p_continue_statement);
    reveal(p_block_rest);
    reveal(p_block);
    reveal(p_if_statement);
    reveal(p_while_statement);
    reveal(p_for_initializer);
    reveal(p_for_rest);
    reveal(p_for_statement);
    reveal(p_var_declaration);
    reveal(p_parameters);
    reveal(p_function);
    reveal(p_methods);
    reveal(p_class_declaration);
    reveal(p_statement);
    reveal(p_declaration);
    reveal(p_program);
}

/// `p_or` equals its definition.
pub proof fn lemma_unfold_or(toks: Seq<SToken>, ps: PS)
    ensures
        p_or(toks, ps) == ({
            let (e, p1) = p_and(toks, ps);
            if !fwd(toks, ps, p1) {
                (e, p1)
            } else {
                match e {
                    Err(m) => (Err(m), p1),
                    Ok(e) => p_or_rest(toks, p1, e),
                }
            }
        }),
{
    reveal(p_primary);
    reveal(p_arguments);
    reveal(p_finish_call);
    reveal(p_call_rest);
    reveal(p_call);
    reveal(p_unary);
    reveal(p_factor_rest);
    reveal(p_factor);
    reveal(p_term_rest);
    reveal(p_term);
    reveal(p_comparison_rest);
    reveal(p_comparison);
    reveal(p_equality_rest);
    reveal(p_equality);
    reveal(p_and_rest);
    reveal(p_and);
    reveal(p_or_rest);
    reveal(p_or);
    reveal(p_assignment);
    reveal(p_expression);
    reveal(p_expression_statement);
    reveal(p_print_statement);
    reveal(p_return_statement);
    reveal(p_break_statement);
    reveal(p_continue_statement);
    reveal(p_block_rest);
    reveal(p_block);
    reveal(p_if_statement);
    reveal(p_while_statement);
    reveal(p_for_initializer);
    reveal(p_for_rest);
    reveal(p_for_statement);
    reveal(p_var_declaration);
    reveal(p_parameters);
    reveal(p_function);
    reveal(p_methods);
    reveal(p_class_declaration);
    reveal(p_statement);
    reveal(p_declaration);
    reveal(p_program);
}

/// `p_assignment` equals its definition.
pub proof fn lemma_unfold_assignment(toks: Seq<SToken>, ps: PS)
    ensures
        p_assignment(toks, ps) == ({
            let (e, p1) = p_or(toks, ps);
            if !fwd(toks, ps, p1) {
                (e, p1)
            } else {
                match e {
                    Err(m) => (Err(m), p1),
                    Ok(e) => if check(toks, p1.pos, TokenType::Equal) {
                        let (v, p2) = p_assignment(toks, adv(toks, p1));
                        match v {
                            Err(m) => (Err(m), p2),
                            Ok(v) => match e {
                                SExpr::Variable { name, .. } => (
                                    Ok(SExpr::Assign { id: p2.next_id, name, value: Box::new(v) }),
                                    take_id(p2),
                                ),
                                SExpr::Get { name, object } => (
                                    Ok(SExpr::SetField { name, object, value: Box::new(v) }),
                                    p2,
                                ),
                                _ => (Err(error_text("Invalid assignment target."@, toks[p1.pos])), p2),
                            },
                        }
                    } else {
                        (Ok(e), p1)
                    },
                }
            }
        }),
{
    reveal(p_primary);
    reveal(p_arguments);
    reveal(p_finish_call);
    reveal(p_call_rest);
    reveal(p_call);
    reveal(p_unary);
    reveal(p_factor_rest);
    reveal(p_factor);
    reveal(p_term_rest);
    reveal(p_term);
    reveal(p_comparison_rest);
    reveal(p_comparison);
    reveal(p_equality_rest);
    reveal(p_equality);
    reveal(p_and_rest);
    reveal(p_and);
    reveal(p_or_rest);
    reveal(p_or);
    reveal(p_assignment);
    reveal(p_expression);
    reveal(p_expression_statement);
    reveal(p_print_statement);
    reveal(p_return_statement);
    reveal(p_break_statement);
    reveal(p_continue_statement);
    reveal(p_block_rest);
    reveal(p_block);
    reveal(p_if_statement);
    reveal(p_while_statement);
    reveal(p_for_initializer);
    reveal(p_for_rest);
    reveal(p_for_statement);
    reveal(p_var_declaration);
    reveal(p_parameters);
    reveal(p_function);
    reveal(p_methods);
    reveal(p_class_declaration);
    reveal(p_statement);
    reveal(p_declaration);
    reveal(p_program);
}

/// `p_expression` equals its definition.
pub proof fn lemma_unfold_expression(toks: Seq<SToken>, ps: PS)
    ensures
        p_expression(toks, ps) == ({
            p_assignment(toks, ps)
        }),
{
    reveal(p_primary);
    reveal(p_arguments);
    reveal(p_finish_call);
    reveal(p_call_rest);
    reveal(p_call);
    reveal(p_unary);
    reveal(p_factor_rest);
    reveal(p_factor);
    reveal(p_term_rest);
    reveal(p_term);
    reveal(p_comparison_rest);
    reveal(p_comparison);
    reveal(p_equality_rest);
    reveal(p_equality);
    reveal(p_and_rest);
    reveal(p_and);
    reveal(p_or_rest);
    reveal(p_or);
    reveal(p_assignment);
    reveal(p_expression);
    reveal(p_expression_statement);
    reveal(p_print_statement);
    reveal(p_return_statement);
    reveal(p_break_statement);
    reveal(p_continue_statement);
    reveal(p_block_rest);
    reveal(p_block);
    reveal(p_if_statement);
    reveal(p_while_statement);
    reveal(p_for_initializer);
    reveal(p_for_rest);
    reveal(p_for_statement);
    reveal(p_var_declaration);
    reveal(p_parameters);
    reveal(p_function);
    reveal(p_methods);
    reveal(p_class_declaration);
    reveal(p_statement);
    reveal(p_declaration);
    reveal(p_program);
}

/// `p_expression_statement` equals its definition.
pub proof fn lemma_unfold_expression_statement(toks: Seq<SToken>, ps: PS)
    ensures
        p_expression_statement(toks, ps) == ({
            let (e, p1) = p_expression(toks, ps);
            match e {
                Err(m) => (Err(m), p1),
                Ok(e) => {
                    let (c, p2) = p_consume(toks, p1, TokenType::Semicolon, "Expected ';' after expression."@);
                    match c {
                        Err(m) => (Err(m), p2),
                        Ok(_) => (Ok(SStmt::Expression { expression: e }), p2),
                    }
                },
            }
        }),
{
    reveal(p_primary);
    reveal(p_arguments);
    reveal(p_finish_call);
    reveal(p_call_rest);
    reveal(p_call);
    reveal(p_unary);
    reveal(p_factor_rest);
    reveal(p_factor);
    reveal(p_term_rest);
    reveal(p_term);
    reveal(p_comparison_rest);
    reveal(p_comparison);
    reveal(p_equality_rest);
    reveal(p_equality);
    reveal(p_and_rest);
    reveal(p_and);
    reveal(p_or_rest);
    reveal(p_or);
    reveal(p_assignment);
    reveal(p_expression);
    reveal(p_expression_statement);
    reveal(p_print_statement);
    reveal(p_return_statement);
    reveal(p_break_statement);
    reveal(p_continue_statement);
    reveal(p_block_rest);
    reveal(p_block);
    reveal(p_if_statement);
    reveal(p_while_statement);
    reveal(p_for_initializer);
    reveal(p_for_rest);
    reveal(p_for_statement);
    reveal(p_var_declaration);
    reveal(p_parameters);
    reveal(p_function);
    reveal(p_methods);
    reveal(p_class_declaration);
    reveal(p_statement);
    reveal(p_declaration);
    reveal(p_program);
}

/// `p_print_statement` equals its definition.
pub proof fn lemma_unfold_print_statement(toks: Seq<SToken>, ps: PS)
    ensures
        p_print_statement(toks, ps) == ({
            let (e, p1) = p_expression(toks, ps);
            match e {
                Err(m) => (Err(m), p1),
                Ok(e) => {
                    let (c, p2) = p_consume(toks, p1, TokenType::Semicolon, "Expected ';' after value."@);
                    match c {
                        Err(m) => (Err(m), p2),
                        Ok(_) => (Ok(SStmt::Print { expression: e }), p2),
                    }
                },
            }
        }),
{
    reveal(p_primary);
    reveal(p_arguments);
    reveal(p_finish_call);
    reveal(p_call_rest);
    reveal(p_call);
    reveal(p_unary);
    reveal(p_factor_rest);
    reveal(p_factor);
    reveal(p_term_rest);
    reveal(p_term);
    reveal(p_comparison_rest);
    reveal(p_comparison);
    reveal(p_equality_rest);
    reveal(p_equality);
    reveal(p_and_rest);
    reveal(p_and);
    reveal(p_or_rest);
    reveal(p_or);
    reveal(p_assignment);
    reveal(p_expression);
    reveal(p_expression_statement);
    reveal(p_print_statement);
    reveal(p_return_statement);
    reveal(p_break_statement);
    reveal(p_continue_statement);
    reveal(p_block_rest);
    reveal(p_block);
    reveal(p_if_statement);
    reveal(p_while_statement);
    reveal(p_for_initializer);
    reveal(p_for_rest);
    reveal(p_for_statement);
    reveal(p_var_declaration);
    reveal(p_parameters);
    reveal(p_function);
    reveal(p_methods);
    reveal(p_class_declaration);
    reveal(p_statement);
    reveal(p_declaration);
    reveal(p_program);
}

/// `p_return_statement` equals its definition.
pub proof fn lemma_unfold_return_statement(toks: Seq<SToken>, ps: PS)
    ensures
        p_return_statement(toks, ps) == ({
            let keyword = toks[ps.pos - 1];
            let (e, p1) = if check(toks, ps.pos, TokenType::Semicolon) {
                (Ok(SExpr::Literal { value: SLiteral::Nothing }), ps)
            } else {
                p_expression(toks, ps)
            };
            match e {
                Err(m) => (Err(m), p1),
                Ok(e) => {
                    let (c, p2) = p_consume(toks, p1, TokenType::Semicolon, "Expected ';' after return values"@);
                    match c {
                        Err(m) => (Err(m), p2),
                        Ok(_) => (Ok(SStmt::Return { keyword, value: e }), p2),
                    }
                },
            }
        }),
{
    reveal(p_primary);
    reveal(p_arguments);
    reveal(p_finish_call);
    reveal(p_call_rest);
    reveal(p_call);
    reveal(p_unary);
    reveal(p_factor_rest);
    reveal(p_factor);
    reveal(p_term_rest);
    reveal(p_term);
    reveal(p_comparison_rest);
    reveal(p_comparison);
    reveal(p_equality_rest);
    reveal(p_equality);
    reveal(p_and_rest);
    reveal(p_and);
    reveal(p_or_rest);
    reveal(p_or);
    reveal(p_assignment);
    reveal(p_expression);
    reveal(p_expression_statement);
    reveal(p_print_statement);
    reveal(p_return_statement);
    reveal(p_break_statement);
    reveal(p_continue_statement);
    reveal(p_block_rest);
    reveal(p_block);
    reveal(p_if_statement);
    reveal(p_while_statement);
    reveal(p_for_initializer);
    reveal(p_for_rest);
    reveal(p_for_statement);
    reveal(p_var_declaration);
    reveal(p_parameters);
    reveal(p_function);
    reveal(p_methods);
    reveal(p_class_declaration);
    reveal(p_statement);
    reveal(p_declaration);
    reveal(p_program);
}

/// `p_break_statement` equals its definition.
pub proof fn lemma_unfold_break_statement(toks: Seq<SToken>, ps: PS)
    ensures
        p_break_statement(toks, ps) == ({
            let (c, p1) = p_consume(toks, ps, TokenType::Semicolon, "Missing ';' after 'break'."@);
            match c {
                Err(m) => (Err(m), p1),
                Ok(_) => if p1.loop_open {
                    (Ok(SStmt::Break), p1)
                } else {
                    (Err("'break' outside loop."@), p1)
                },
            }
        }),
{
    reveal(p_primary);
    reveal(p_arguments);
    reveal(p_finish_call);
    reveal(p_call_rest);
    reveal(p_call);
    reveal(p_unary);
    reveal(p_factor_rest);
    reveal(p_factor);
    reveal(p_term_rest);
    reveal(p_term);
    reveal(p_comparison_rest);
    reveal(p_comparison);
    reveal(p_equality_rest);
    reveal(p_equality);
    reveal(p_and_rest);
    reveal(p_and);
    reveal(p_or_rest);
    reveal(p_or);
    reveal(p_assignment);
    reveal(p_expression);
    reveal(p_expression_statement);
    reveal(p_print_statement);
    reveal(p_return_statement);
    reveal(p_break_statement);
    reveal(p_continue_statement);
    reveal(p_block_rest);
    reveal(p_block);
    reveal(p_if_statement);
    reveal(p_while_statement);
    reveal(p_for_initializer);
    reveal(p_for_rest);
    reveal(p_for_statement);
    reveal(p_var_declaration);
    reveal(p_parameters);
    reveal(p_function);
    reveal(p_methods);
    reveal(p_class_declaration);
    reveal(p_statement);
    reveal(p_declaration);
    reveal(p_program);
}

/// `p_continue_statement` equals its definition.
pub proof fn lemma_unfold_continue_statement(toks: Seq<SToken>, ps: PS)
    ensures
        p_continue_statement(toks, ps) == ({
            let (c, p1) = p_consume(toks, ps, TokenType::Semicolon, "Missing ';' after 'continue'."@);
            match c {
                Err(m) => (Err(m), p1),
                Ok(_) => if p1.loop_open {
                    (Ok(SStmt::Continue), p1)
                } else {
                    (Err("'continue' is outside loop"@), p1)
                },
            }
        }),
{
    reveal(p_primary);
    reveal(p_arguments);
    reveal(p_finish_call);
    reveal(p_call_rest);
    reveal(p_call);
    reveal(p_unary);
    reveal(p_factor_rest);
    reveal(p_factor);
    reveal(p_term_rest);
    reveal(p_term);
    reveal(p_comparison_rest);
    reveal(p_comparison);
    reveal(p_equality_rest);
    reveal(p_equality);
    reveal(p_and_rest);
    reveal(p_and);
    reveal(p_or_rest);
    reveal(p_or);
    reveal(p_assignment);
    reveal(p_expression);
    reveal(p_expression_statement);
    reveal(p_print_statement);
    reveal(p_return_statement);
    reveal(p_break_statement);
    reveal(p_continue_statement);
    reveal(p_block_rest);
    reveal(p_block);
    reveal(p_if_statement);
    reveal(p_while_statement);
    reveal(p_for_initializer);
    reveal(p_for_rest);
    reveal(p_for_statement);
    reveal(p_var_declaration);
    reveal(p_parameters);
    reveal(p_function);
    reveal(p_methods);
    reveal(p_class_declaration);
    reveal(p_statement);
    reveal(p_declaration);
    reveal(p_program);
}

/// `p_block_rest` equals its definition.
pub proof fn lemma_unfold_block_rest(toks: Seq<SToken>, ps: PS, stmts: Seq<SStmt>)
    ensures
        p_block_rest(toks, ps, stmts) == ({
            if !check(toks, ps.pos, TokenType::RightBrace) && !at_end(toks, ps.pos) {
                let (d, p1) = p_declaration(toks, ps);
                match d {
                    Err(m) => (Err(m), p1),
                    Ok(d) => if ps.pos < p1.pos <= toks.len() {
                        p_block_rest(toks, p1, stmts.push(d))
                    } else {
                        (Err(seq![]), p1)
                    },
                }
            } else {
                let (c, p1) = p_consume(toks, ps, TokenType::RightBrace, "Expect '}' after block"@);
                match c {
                    Err(m) => (Err(m), p1),
                    Ok(_) => (Ok(stmts), p1),
                }
            }
        }),
{
    reveal(p_primary);
    reveal(p_arguments);
    reveal(p_finish_call);
    reveal(p_call_rest);
    reveal(p_call);
    reveal(p_unary);
    reveal(p_factor_rest);
    reveal(p_factor);
    reveal(p_term_rest);
    reveal(p_term);
    reveal(p_comparison_rest);
    reveal(p_comparison);
    reveal(p_equality_rest);
    reveal(p_equality);
    reveal(p_and_rest);
    reveal(p_and);
    reveal(p_or_rest);
    reveal(p_or);
    reveal(p_assignment);
    reveal(p_expression);
    reveal(p_expression_statement);
    reveal(p_print_statement);
    reveal(p_return_statement);
    reveal(p_break_statement);
    reveal(p_continue_statement);
    reveal(p_block_rest);
    reveal(p_block);
    reveal(p_if_statement);
    reveal(p_while_statement);
    reveal(p_for_initializer);
    reveal(p_for_rest);
    reveal(p_for_statement);
    reveal(p_var_declaration);
    reveal(p_parameters);
    reveal(p_function);
    reveal(p_methods);
    reveal(p_class_declaration);
    reveal(p_statement);
    reveal(p_declaration);
    reveal(p_program);
}

/// `p_block` equals its definition.
pub proof fn lemma_unfold_block(toks: Seq<SToken>, ps: PS)
    ensures
        p_block(toks, ps) == ({
            p_block_rest(toks, ps, seq![])
        }),
{
    reveal(p_primary);
    reveal(p_arguments);
    reveal(p_finish_call);
    reveal(p_call_rest);
    reveal(p_call);
    reveal(p_unary);
    reveal(p_factor_rest);
    reveal(p_factor);
    reveal(p_term_rest);
    reveal(p_term);
    reveal(p_comparison_rest);
    reveal(p_comparison);
    reveal(p_equality_rest);
    reveal(p_equality);
    reveal(p_and_rest);
    reveal(p_and);
    reveal(p_or_rest);
    reveal(p_or);
    reveal(p_assignment);
    reveal(p_expression);
    reveal(p_expression_statement);
    reveal(p_print_statement);
    reveal(p_return_statement);
    reveal(p_break_statement);
    reveal(p_continue_statement);
    reveal(p_block_rest);
    reveal(p_block);
    reveal(p_if_statement);
    reveal(p_while_statement);
    reveal(p_for_initializer);
    reveal(p_for_rest);
    reveal(p_for_statement);
    reveal(p_var_declaration);
    reveal(p_parameters);
    reveal(p_function);
    reveal(p_methods);
    reveal(p_class_declaration);
    reveal(p_statement);
    reveal(p_declaration);
    reveal(p_program);
}

/// `p_if_statement` equals its definition.
pub proof fn lemma_unfold_if_statement(toks: Seq<SToken>, ps: PS)
    ensures
        p_if_statement(toks, ps) == ({
            let (c1, p1) = p_consume(toks, ps, TokenType::LeftParen, "Expected '(' after 'if'."@);
            match c1 {
                Err(m) => (Err(m), p1),
                Ok(_) => {
                    let (cond, p2) = p_expression(toks, p1);
                    if !fwd(toks, p1, p2) {
                        (Err(seq![]), p2)
                    } else {
                        match cond {
                            Err(m) => (Err(m), p2),
                            Ok(cond) => {
                                let (c3, p3) = p_consume(toks, p2, TokenType::RightParen, "Expected ')' after if condition."@);
                                match c3 {
                                    Err(m) => (Err(m), p3),
                                    Ok(_) => {
                                        let (then_branch, p4) = p_statement(toks, p3);
                                        if !fwd(toks, p3, p4) {
                                            (Err(seq![]), p4)
                                        } else {
                                            match then_branch {
                                                Err(m) => (Err(m), p4),
                                                Ok(then_branch) => if check(toks, p4.pos, TokenType::Else) {
                                                    let (else_branch, p5) = p_statement(toks, adv(toks, p4));
                                                    match else_branch {
                                                        Err(m) => (Err(m), p5),
                                                        Ok(else_branch) => (
                                                            Ok(SStmt::If {
                                                                condition: cond,
                                                                then_branch: Box::new(then_branch),
                                                                else_branch: Some(Box::new(else_branch)),
                                                            }),
                                                            p5,
                                                        ),
                                                    }
                                                } else {
                                                    (
                                                        Ok(SStmt::If {
                                                            condition: cond,
                                                            then_branch: Box::new(then_branch),
                                                            else_branch: None,
                                                        }),
                                                        p4,
                                                    )
                                                },
                                            }
                                        }
                                    },
                                }
                            },
                        }
                    }
                },
            }
        }),
{
    reveal(p_primary);
    reveal(p_arguments);
    reveal(p_finish_call);
    reveal(p_call_rest);
    reveal(p_call);
    reveal(p_unary);
    reveal(p_factor_rest);
    reveal(p_factor);
    reveal(p_term_rest);
    reveal(p_term);
    reveal(p_comparison_rest);
    reveal(p_comparison);
    reveal(p_equality_rest);
    reveal(p_equality);
    reveal(p_and_rest);
    reveal(p_and);
    reveal(p_or_rest);
    reveal(p_or);
    reveal(p_assignment);
    reveal(p_expression);
    reveal(p_expression_statement);
    reveal(p_print_statement);
    reveal(p_return_statement);
    reveal(p_break_statement);
    reveal(p_continue_statement);
    reveal(p_block_rest);
    reveal(p_block);
    reveal(p_if_statement);
    reveal(p_while_statement);
    reveal(p_for_initializer);
    reveal(p_for_rest);
    reveal(p_for_statement);
    reveal(p_var_declaration);
    reveal(p_parameters);
    reveal(p_function);
    reveal(p_methods);
    reveal(p_class_declaration);
    reveal(p_statement);
    reveal(p_declaration);
    reveal(p_program);
}

/// `p_while_statement` equals its definition.
pub proof fn lemma_unfold_while_statement(toks: Seq<SToken>, ps: PS)
    ensures
        p_while_statement(toks, ps) == ({
            let p0 = PS { loop_open: true, ..ps };
            let (c1, p1) = p_consume(toks, p0, TokenType::LeftParen, "Expected '(' after 'while'."@);
            match c1 {
                Err(m) => (Err(m), p1),
                Ok(_) => {
                    let (cond, p2) = p_expression(toks, p1);
                    if !fwd(toks, p1, p2) {
                        (Err(seq![]), p2)
                    } else {
                        match cond {
                            Err(m) => (Err(m), p2),
                            Ok(cond) => {
                                let (c3, p3) = p_consume(toks, p2, TokenType::RightParen, "Expected ')' after condition"@);
                                match c3 {
                                    Err(m) => (Err(m), p3),
                                    Ok(_) => {
                                        let (body, p4) = p_statement(toks, p3);
                                        match body {
                                            Err(m) => (Err(m), p4),
                                            Ok(body) => (
                                                Ok(SStmt::While { condition: cond, body: Box::new(body), increment: None }),
                                                PS { loop_open: ps.loop_open, ..p4 },
                                            ),
                                        }
                                    },
                                }
                            },
                        }
                    }
                },
            }
        }),
{
    reveal(p_primary);
    reveal(p_arguments);
    reveal(p_finish_call);
    reveal(p_call_rest);
    reveal(p_call);
    reveal(p_unary);
    reveal(p_factor_rest);
    reveal(p_factor);
    reveal(p_term_rest);
    reveal(p_term);
    reveal(p_comparison_rest);
    reveal(p_comparison);
    reveal(p_equality_rest);
    reveal(p_equality);
    reveal(p_and_rest);
    reveal(p_and);
    reveal(p_or_rest);
    reveal(p_or);
    reveal(p_assignment);
    reveal(p_expression);
    reveal(p_expression_statement);
    reveal(p_print_statement);
    reveal(p_return_statement);
    reveal(p_break_statement);
    reveal(p_continue_statement);
    reveal(p_block_rest);
    reveal(p_block);
    reveal(p_if_statement);
    reveal(p_while_statement);
    reveal(p_for_initializer);
    reveal(p_for_rest);
    reveal(p_for_statement);
    reveal(p_var_declaration);
    reveal(p_parameters);
    reveal(p_function);
    reveal(p_methods);
    reveal(p_class_declaration);
    reveal(p_statement);
    reveal(p_declaration);
    reveal(p_program);
}

/// `p_for_initializer` equals its definition.
pub proof fn lemma_unfold_for_initializer(toks: Seq<SToken>, ps: PS)
    ensures
        p_for_initializer(toks, ps) == ({
            if check(toks, ps.pos, TokenType::Semicolon) {
                (Ok(None), adv(toks, ps))
            } else if check(toks, ps.pos, TokenType::Var) {
                let (v, p1) = p_var_declaration(toks, adv(toks, ps));
                match v {
                    Err(m) => (Err(m), p1),
                    Ok(v) => (Ok(Some(v)), p1),
                }
            } else {
                let (e, p1) = p_expression_statement(toks, ps);
                match e {
                    Err(m) => (Err(m), p1),
                    Ok(e) => (Ok(Some(e)), p1),
                }
            }
        }),
{
    reveal(p_primary);
    reveal(p_arguments);
    reveal(p_finish_call);
    reveal(p_call_rest);
    reveal(p_call);
    reveal(p_unary);
    reveal(p_factor_rest);
    reveal(p_factor);
    reveal(p_term_rest);
    reveal(p_term);
    reveal(p_comparison_rest);
    reveal(p_comparison);
    reveal(p_equality_rest);
    reveal(p_equality);
    reveal(p_and_rest);
    reveal(p_and);
    reveal(p_or_rest);
    reveal(p_or);
    reveal(p_assignment);
    reveal(p_expression);
    reveal(p_expression_statement);
    reveal(p_print_statement);
    reveal(p_return_statement);
    reveal(p_break_statement);
    reveal(p_continue_statement);
    reveal(p_block_rest);
    reveal(p_block);
    reveal(p_if_statement);
    reveal(p_while_statement);
    reveal(p_for_initializer);
    reveal(p_for_rest);
    reveal(p_for_statement);
    reveal(p_var_declaration);
    reveal(p_parameters);
    reveal(p_function);
    reveal(p_methods);
    reveal(p_class_declaration);
    reveal(p_statement);
    reveal(p_declaration);
    reveal(p_program);
}

/// `p_for_rest` equals its definition.
pub proof fn lemma_unfold_for_rest(toks: Seq<SToken>, ps: PS)
    ensures
        p_for_rest(toks, ps) == ({
            let (cond, p1) = if !check(toks, ps.pos, TokenType::Semicolon) {
                p_expression(toks, ps)
            } else {
                (Ok(SExpr::Literal { value: SLiteral::Bool(true) }), ps)
            };
            if !fwd(toks, ps, p1) {
                (Err(seq![]), p1)
            } else {
                match cond {
                    Err(m) => (Err(m), p1),
                    Ok(cond) => {
                        let (c2, p2) = p_consume(toks, p1, TokenType::Semicolon, "Expect ';' after loop condition."@);
                        match c2 {
                            Err(m) => (Err(m), p2),
                            Ok(_) => {
                                let (incr, p3) = if !check(toks, p2.pos, TokenType::RightParen) {
                                    let (e, q) = p_expression(toks, p2);
                                    match e {
                                        Err(m) => (Err(m), q),
                                        Ok(e) => (Ok(Some(e)), q),
                                    }
                                } else {
                                    (Ok(None), p2)
                                };
                                if !fwd(toks, p2, p3) {
                                    (Err(seq![]), p3)
                                } else {
                                    match incr {
                                        Err(m) => (Err(m), p3),
                                        Ok(incr) => {
                                            let (c4, p4) = p_consume(toks, p3, TokenType::RightParen, "Expected ')' after 'for' clauses."@);
                                            match c4 {
                                                Err(m) => (Err(m), p4),
                                                Ok(_) => {
                                                    let (body, p5) = p_statement(toks, PS { loop_open: true, ..p4 });
                                                    match body {
                                                        Err(m) => (Err(m), p5),
                                                        Ok(body) => (
                                                            Ok(SStmt::While { condition: cond, body: Box::new(body), increment: incr }),
                                                            PS { loop_open: p4.loop_open, ..p5 },
                                                        ),
                                                    }
                                                },
                                            }
                                        },
                                    }
                                }
                            },
                        }
                    },
                }
            }
        }),
{
    reveal(p_primary);
    reveal(p_arguments);
    reveal(p_finish_call);
    reveal(p_call_rest);
    reveal(p_call);
    reveal(p_unary);
    reveal(p_factor_rest);
    reveal(p_factor);
    reveal(p_term_rest);
    reveal(p_term);
    reveal(p_comparison_rest);
    reveal(p_comparison);
    reveal(p_equality_rest);
    reveal(p_equality);
    reveal(p_and_rest);
    reveal(p_and);
    reveal(p_or_rest);
    reveal(p_or);
    reveal(p_assignment);
    reveal(p_expression);
    reveal(p_expression_statement);
    reveal(p_print_statement);
    reveal(p_return_statement);
    reveal(p_break_statement);
    reveal(p_continue_statement);
    reveal(p_block_rest);
    reveal(p_block);
    reveal(p_if_statement);
    reveal(p_while_statement);
    reveal(p_for_initializer);
    reveal(p_for_rest);
    reveal(p_for_statement);
    reveal(p_var_declaration);
    reveal(p_parameters);
    reveal(p_function);
    reveal(p_methods);
    reveal(p_class_declaration);
    reveal(p_statement);
    reveal(p_declaration);
    reveal(p_program);
}

/// `p_for_statement` equals its definition.
pub proof fn lemma_unfold_for_statement(toks: Seq<SToken>, ps: PS)
    ensures
        p_for_statement(toks, ps) == ({
            let (c1, p1) = p_consume(toks, ps, TokenType::LeftParen, "Expected '(' after 'for'."@);
            match c1 {
                Err(m) => (Err(m), p1),
                Ok(_) => {
                    let (init, p2) = p_for_initializer(toks, p1);
                    if !fwd(toks, p1, p2) {
                        (Err(seq![]), p2)
                    } else {
                        match init {
                            Err(m) => (Err(m), p2),
                            Ok(init) => {
                                let (w, p3) = p_for_rest(toks, p2);
                                match w {
                                    Err(m) => (Err(m), p3),
                                    Ok(w) => match init {
                                        Some(i) => (Ok(SStmt::Block { statements: seq![i, w] }), p3),
                                        None => (Ok(w), p3),
                                    },
                                }
                            },
                        }
                    }
                },
            }
        }),
{
    reveal(p_primary);
    reveal(p_arguments);
    reveal(p_finish_call);
    reveal(p_call_rest);
    reveal(p_call);
    reveal(p_unary);
    reveal(p_factor_rest);
    reveal(p_factor);
    reveal(p_term_rest);
    reveal(p_term);
    reveal(p_comparison_rest);
    reveal(p_comparison);
    reveal(p_equality_rest);
    reveal(p_equality);
    reveal(p_and_rest);
    reveal(p_and);
    reveal(p_or_rest);
    reveal(p_or);
    reveal(p_assignment);
    reveal(p_expression);
    reveal(p_expression_statement);
    reveal(p_print_statement);
    reveal(p_return_statement);
    reveal(p_break_statement);
    reveal(p_continue_statement);
    reveal(p_block_rest);
    reveal(p_block);
    reveal(p_if_statement);
    reveal(p_while_statement);
    reveal(p_for_initializer);
    reveal(p_for_rest);
    reveal(p_for_statement);
    reveal(p_var_declaration);
    reveal(p_parameters);
    reveal(p_function);
    reveal(p_methods);
    reveal(p_class_declaration);
    reveal(p_statement);
    reveal(p_declaration);
    reveal(p_program);
}

/// `p_var_declaration` equals its definition.
pub proof fn lemma_unfold_var_declaration(toks: Seq<SToken>, ps: PS)
    ensures
        p_var_declaration(toks, ps) == ({
            let (name, p1) = p_consume(toks, ps, TokenType::Identifier, "Expected variable name."@);
            match name {
                Err(m) => (Err(m), p1),
                Ok(name) => {
                    let (init, p2) = if check(toks, p1.pos, TokenType::Equal) {
                        let (e, q) = p_expression(toks, adv(toks, p1));
                        match e {
                            Err(m) => (Err(m), q),
                            Ok(e) => (Ok(Some(e)), q),
                        }
                    } else {
                        (Ok(None), p1)
                    };
                    match init {
                        Err(m) => (Err(m), p2),
                        Ok(init) => {
                            let (c, p3) = p_consume(toks, p2, TokenType::Semicolon, "Expected ';' after variable declaration."@);
                            match c {
                                Err(m) => (Err(m), p3),
                                Ok(_) => (Ok(SStmt::Var { name, initializer: init }), p3),
                            }
                        },
                    }
                },
            }
        }),
{
    reveal(p_primary);
    reveal(p_arguments);
    reveal(p_finish_call);
    reveal(p_call_rest);
    reveal(p_call);
    reveal(p_unary);
    reveal(p_factor_rest);
    reveal(p_factor);
    reveal(p_term_rest);
    reveal(p_term);
    reveal(p_comparison_rest);
    reveal(p_comparison);
    reveal(p_equality_rest);
    reveal(p_equality);
    reveal(p_and_rest);
    reveal(p_and);
    reveal(p_or_rest);
    reveal(p_or);
    reveal(p_assignment);
    reveal(p_expression);
    reveal(p_expression_statement);
    reveal(p_print_statement);
    reveal(p_return_statement);
    reveal(p_break_statement);
    reveal(p_continue_statement);
    reveal(p_block_rest);
    reveal(p_block);
    reveal(p_if_statement);
    reveal(p_while_statement);
    reveal(p_for_initializer);
    reveal(p_for_rest);
    reveal(p_for_statement);
    reveal(p_var_declaration);
    reveal(p_parameters);
    reveal(p_function);
    reveal(p_methods);
    reveal(p_class_declaration);
    reveal(p_statement);
    reveal(p_declaration);
    reveal(p_program);
}

/// `p_parameters` equals its definition.
pub proof fn lemma_unfold_parameters(toks: Seq<SToken>, ps: PS, params: Seq<SToken>)
    ensures
        p_parameters(toks, ps, params) == ({
            if params.len() >= 255 {
                (Err("Cannot have more than 255 parameters."@), ps)
            } else {
                let (p, p1) = p_consume(toks, ps, TokenType::Identifier, "Expected parameter name."@);
                match p {
                    Err(m) => (Err(m), p1),
                    Ok(p) => if check(toks, p1.pos, TokenType::Comma) {
                        p_parameters(toks, adv(toks, p1), params.push(p))
                    } else {
                        (Ok(params.push(p)), p1)
                    },
                }
            }
        }),
{
    reveal(p_primary);
    reveal(p_arguments);
    reveal(p_finish_call);
    reveal(p_call_rest);
    reveal(p_call);
    reveal(p_unary);
    reveal(p_factor_rest);
    reveal(p_factor);
    reveal(p_term_rest);
    reveal(p_term);
    reveal(p_comparison_rest);
    reveal(p_comparison);
    reveal(p_equality_rest);
    reveal(p_equality);
    reveal(p_and_rest);
    reveal(p_and);
    reveal(p_or_rest);
    reveal(p_or);
    reveal(p_assignment);
    reveal(p_expression);
    reveal(p_expression_statement);
    reveal(p_print_statement);
    reveal(p_return_statement);
    reveal(p_break_statement);
    reveal(p_continue_statement);
    reveal(p_block_rest);
    reveal(p_block);
    reveal(p_if_statement);
    reveal(p_while_statement);
    reveal(p_for_initializer);
    reveal(p_for_rest);
    reveal(p_for_statement);
    reveal(p_var_declaration);
    reveal(p_parameters);
    reveal(p_function);
    reveal(p_methods);
    reveal(p_class_declaration);
    reveal(p_statement);
    reveal(p_declaration);
    reveal(p_program);
}

/// `p_function` equals its definition.
pub proof fn lemma_unfold_function(toks: Seq<SToken>, ps: PS, kind: Seq<char>)
    ensures
        p_function(toks, ps, kind) == ({
            let (name, p1) = p_consume(toks, ps, TokenType::Identifier, "Expected "@ + kind + " name."@);
            match name {
                Err(m) => (Err(m), p1),
                Ok(name) => {
                    let (c2, p2) = p_consume(toks, p1, TokenType::LeftParen, "Expected '(' after "@ + kind + " name."@);
                    match c2 {
                        Err(m) => (Err(m), p2),
                        Ok(_) => {
                            let (params, p3) = if !check(toks, p2.pos, TokenType::RightParen) {
                                p_parameters(toks, p2, seq![])
                            } else {
                                (Ok(seq![]), p2)
                            };
                            if !fwd(toks, p2, p3) {
                                (Err(seq![]), p3)
                            } else {
                                match params {
                                    Err(m) => (Err(m), p3),
                                    Ok(params) => {
                                        let (c4, p4) = p_consume(toks, p3, TokenType::RightParen, "Expected '(' after parameters."@);
                                        match c4 {
                                            Err(m) => (Err(m), p4),
                                            Ok(_) => {
                                                let (c5, p5) = p_consume(toks, p4, TokenType::LeftBrace, "Expected '{' before "@ + kind + " body."@);
                                                match c5 {
                                                    Err(m) => (Err(m), p5),
                                                    Ok(_) => {
                                                        let (body, p6) = p_block(toks, p5);
                                                        match body {
                                                            Err(m) => (Err(m), p6),
                                                            Ok(body) => (Ok(SStmt::Function { name, parameters: params, body }), p6),
                                                        }
                                                    },
                                                }
                                            },
                                        }
                                    },
                                }
                            }
                        },
                    }
                },
            }
        }),
{
    reveal(p_primary);
    reveal(p_arguments);
    reveal(p_finish_call);
    reveal(p_call_rest);
    reveal(p_call);
    reveal(p_unary);
    reveal(p_factor_rest);
    reveal(p_factor);
    reveal(p_term_rest);
    reveal(p_term);
    reveal(p_comparison_rest);
    reveal(p_comparison);
    reveal(p_equality_rest);
    reveal(p_equality);
    reveal(p_and_rest);
    reveal(p_and);
    reveal(p_or_rest);
    reveal(p_or);
    reveal(p_assignment);
    reveal(p_expression);
    reveal(p_expression_statement);
    reveal(p_print_statement);
    reveal(p_return_statement);
    reveal(p_break_statement);
    reveal(p_continue_statement);
    reveal(p_block_rest);
    reveal(p_block);
    reveal(p_if_statement);
    reveal(p_while_statement);
    reveal(p_for_initializer);
    reveal(p_for_rest);
    reveal(p_for_statement);
    reveal(p_var_declaration);
    reveal(p_parameters);
    reveal(p_function);
    reveal(p_methods);
    reveal(p_class_declaration);
    reveal(p_statement);
    reveal(p_declaration);
    reveal(p_program);
}

/// `p_methods` equals its definition.
pub proof fn lemma_unfold_methods(toks: Seq<SToken>, ps: PS, methods: Seq<SStmt>)
    ensures
        p_methods(toks, ps, methods) == ({
            if !check(toks, ps.pos, TokenType::RightBrace) && !at_end(toks, ps.pos) {
                let (f, p1) = p_function(toks, ps, "method"@);
                match f {
                    Err(m) => (Err(m), p1),
                    Ok(f) => if ps.pos < p1.pos <= toks.len() {
                        p_methods(toks, p1, methods.push(f))
                    } else {
                        (Err(seq![]), p1)
                    },
                }
            } else {
                (Ok(methods), ps)
            }
        }),
{
    reveal(p_primary);
    reveal(p_arguments);
    reveal(p_finish_call);
    reveal(p_call_rest);
    reveal(p_call);
    reveal(p_unary);
    reveal(p_factor_rest);
    reveal(p_factor);
    reveal(p_term_rest);
    reveal(p_term);
    reveal(p_comparison_rest);
    reveal(p_comparison);
    reveal(p_equality_rest);
    reveal(p_equality);
    reveal(p_and_rest);
    reveal(p_and);
    reveal(p_or_rest);
    reveal(p_or);
    reveal(p_assignment);
    reveal(p_expression);
    reveal(p_expression_statement);
    reveal(p_print_statement);
    reveal(p_return_statement);
    reveal(p_break_statement);
    reveal(p_continue_statement);
    reveal(p_block_rest);
    reveal(p_block);
    reveal(p_if_statement);
    reveal(p_while_statement);
    reveal(p_for_initializer);
    reveal(p_for_rest);
    reveal(p_for_statement);
    reveal(p_var_declaration);
    reveal(p_parameters);
    reveal(p_function);
    reveal(p_methods);
    reveal(p_class_declaration);
    reveal(p_statement);
    reveal(p_declaration);
    reveal(p_program);
}

/// `p_class_declaration` equals its definition.
pub proof fn lemma_unfold_class_declaration(toks: Seq<SToken>, ps: PS)
    ensures
        p_class_declaration(toks, ps) == ({
            let (name, p1) = p_consume(toks, ps, TokenType::Identifier, "Expected class name."@);
            match name {
                Err(m) => (Err(m), p1),
                Ok(name) => {
                    let (sup, p2) = if check(toks, p1.pos, TokenType::Less) {
                        let (s, q) = p_consume(toks, adv(toks, p1), TokenType::Identifier, "Expected superclass name."@);
                        match s {
                            Err(m) => (Err(m), q),
                            Ok(s) => (Ok(Some(SExpr::Variable { id: q.next_id, name: s })), take_id(q)),
                        }
                    } else {
                        (Ok(None), p1)
                    };
                    match sup {
                        Err(m) => (Err(m), p2),
                        Ok(sup) => {
                            let (c3, p3) = p_consume(toks, p2, TokenType::LeftBrace, "Expected '{' before class body."@);
                            match c3 {
                                Err(m) => (Err(m), p3),
                                Ok(_) => {
                                    let (methods, p4) = p_methods(toks, p3, seq![]);
                                    match methods {
                                        Err(m) => (Err(m), p4),
                                        Ok(methods) => {
                                            let (c5, p5) = p_consume(toks, p4, TokenType::RightBrace, "Expected '}' after class body"@);
                                            match c5 {
                                                Err(m) => (Err(m), p5),
                                                Ok(_) => (Ok(SStmt::Class { name, superclass: sup, methods }), p5),
                                            }
                                        },
                                    }
                                },
                            }
                        },
                    }
                },
            }
        }),
{
    reveal(p_primary);
    reveal(p_arguments);
    reveal(p_finish_call);
    reveal(p_call_rest);
    reveal(p_call);
    reveal(p_unary);
    reveal(p_factor_rest);
    reveal(p_factor);
    reveal(p_term_rest);
    reveal(p_term);
    reveal(p_comparison_rest);
    reveal(p_comparison);
    reveal(p_equality_rest);
    reveal(p_equality);
    reveal(p_and_rest);
    reveal(p_and);
    reveal(p_or_rest);
    reveal(p_or);
    reveal(p_assignment);
    reveal(p_expression);
    reveal(p_expression_statement);
    reveal(p_print_statement);
    reveal(p_return_statement);
    reveal(p_break_statement);
    reveal(p_continue_statement);
    reveal(p_block_rest);
    reveal(p_block);
    reveal(p_if_statement);
    reveal(p_while_statement);
    reveal(p_for_initializer);
    reveal(p_for_rest);
    reveal(p_for_statement);
    reveal(p_var_declaration);
    reveal(p_parameters);
    reveal(p_function);
    reveal(p_methods);
    reveal(p_class_declaration);
    reveal(p_statement);
    reveal(p_declaration);
    reveal(p_program);
}

/// `p_statement` equals its definition.
pub proof fn lemma_unfold_statement(toks: Seq<SToken>, ps: PS)
    ensures
        p_statement(toks, ps) == ({
            if check(toks, ps.pos, TokenType::Break) {
                p_break_statement(toks, adv(toks, ps))
            } else if check(toks, ps.pos, TokenType::Continue) {
                p_continue_statement(toks, adv(toks, ps))
            } else if check(toks, ps.pos, TokenType::For) {
                p_for_statement(toks, adv(toks, ps))
            } else if check(toks, ps.pos, TokenType::If) {
                p_if_statement(toks, adv(toks, ps))
            } else if check(toks, ps.pos, TokenType::Print) {
                p_print_statement(toks, adv(toks, ps))
            } else if check(toks, ps.pos, TokenType::Return) {
                p_return_statement(toks, adv(toks, ps))
            } else if check(toks, ps.pos, TokenType::While) {
                p_while_statement(toks, adv(toks, ps))
            } else if check(toks, ps.pos, TokenType::LeftBrace) {
                let (b, p1) = p_block(toks, adv(toks, ps));
                match b {
                    Err(m) => (Err(m), p1),
                    Ok(b) => (Ok(SStmt::Block { statements: b }), p1),
                }
            } else {
                p_expression_statement(toks, ps)
            }
        }),
{
    reveal(p_primary);
    reveal(p_arguments);
    reveal(p_finish_call);
    reveal(p_call_rest);
    reveal(p_call);
    reveal(p_unary);
    reveal(p_factor_rest);
    reveal(p_factor);
    reveal(p_term_rest);
    reveal(p_term);
    reveal(p_comparison_rest);
    reveal(p_comparison);
    reveal(p_equality_rest);
    reveal(p_equality);
    reveal(p_and_rest);
    reveal(p_and);
    reveal(p_or_rest);
    reveal(p_or);
    reveal(p_assignment);
    reveal(p_expression);
    reveal(p_expression_statement);
    reveal(p_print_statement);
    reveal(p_return_statement);
    reveal(p_break_statement);
    reveal(p_continue_statement);
    reveal(p_block_rest);
    reveal(p_block);
    reveal(p_if_statement);
    reveal(p_while_statement);
    reveal(p_for_initializer);
    reveal(p_for_rest);
    reveal(p_for_statement);
    reveal(p_var_declaration);
    reveal(p_parameters);
    reveal(p_function);
    reveal(p_methods);
    reveal(p_class_declaration);
    reveal(p_statement);
    reveal(p_declaration);
    reveal(p_program);
}

/// `p_declaration` equals its definition.
pub proof fn lemma_unfold_declaration(toks: Seq<SToken>, ps: PS)
    ensures
        p_declaration(toks, ps) == ({
            if check(toks, ps.pos, TokenType::Class) {
                p_class_declaration(toks, adv(toks, ps))
            } else if check(toks, ps.pos, TokenType::Fun) {
                p_function(toks, adv(toks, ps), "function"@)
            } else if check(toks, ps.pos, TokenType::Var) {
                p_var_declaration(toks, adv(toks, ps))
            } else {
                p_statement(toks, ps)
            }
        }),
{
    reveal(p_primary);
    reveal(p_arguments);
    reveal(p_finish_call);
    reveal(p_call_rest);
    reveal(p_call);
    reveal(p_unary);
    reveal(p_factor_rest);
    reveal(p_factor);
    reveal(p_term_rest);
    reveal(p_term);
    reveal(p_comparison_rest);
    reveal(p_comparison);
    reveal(p_equality_rest);
    reveal(p_equality);
    reveal(p_and_rest);
    reveal(p_and);
    reveal(p_or_rest);
    reveal(p_or);
    reveal(p_assignment);
    reveal(p_expression);
    reveal(p_expression_statement);
    reveal(p_print_statement);
    reveal(p_return_statement);
    reveal(p_break_statement);
    reveal(p_continue_statement);
    reveal(p_block_rest);
    reveal(p_block);
    reveal(p_if_statement);
    reveal(p_while_statement);
    reveal(p_for_initializer);
    reveal(p_for_rest);
    reveal(p_for_statement);
    reveal(p_var_declaration);
    reveal(p_parameters);
    reveal(p_function);
    reveal(p_methods);
    reveal(p_class_declaration);
    reveal(p_statement);
    reveal(p_declaration);
    reveal(p_program);
}

/// `p_program` equals its definition.
pub proof fn lemma_unfold_program(toks: Seq<SToken>, ps: PS, stmts: Seq<SStmt>, errors: Seq<Seq<char>>)
    ensures
        p_program(toks, ps, stmts, errors) == ({
            if !at_end(toks, ps.pos) {
                let (d, p1) = p_declaration(toks, ps);
                if ps.pos < p1.pos <= toks.len() {
                    match d {
                        Ok(d) => p_program(toks, p1, stmts.push(d), errors),
                        Err(m) => p_program(toks, p1, stmts, errors.push(m)),
                    }
                } else {
                    (stmts, errors, p1)
                }
            } else {
                (stmts, errors, ps)
            }
        }),
{
    reveal(p_primary);
    reveal(p_arguments);
    reveal(p_finish_call);
    reveal(p_call_rest);
    reveal(p_call);
    reveal(p_unary);
    reveal(p_factor_rest);
    reveal(p_factor);
    reveal(p_term_rest);
    reveal(p_term);
    reveal(p_comparison_rest);
    reveal(p_comparison);
    reveal(p_equality_rest);
    reveal(p_equality);
    reveal(p_and_rest);
    reveal(p_and);
    reveal(p_or_rest);
    reveal(p_or);
    reveal(p_assignment);
    reveal(p_expression);
    reveal(p_expression_statement);
    reveal(p_print_statement);
    reveal(p_return_statement);
    reveal(p_break_statement);
    reveal(p_continue_statement);
    reveal(p_block_rest);
    reveal(p_block);
    reveal(p_if_statement);
    reveal(p_while_statement);
    reveal(p_for_initializer);
    reveal(p_for_rest);
    reveal(p_for_statement);
    reveal(p_var_declaration);
    reveal(p_parameters);
    reveal(p_function);
    reveal(p_methods);
    reveal(p_class_declaration);
    reveal(p_statement);
    reveal(p_declaration);
    reveal(p_program);
}

} // verus!
