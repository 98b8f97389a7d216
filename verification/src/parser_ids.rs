//! The numbers that the parser gives to expressions: in a program parsed
//! without error they appear in increasing order, in the order the
//! expressions were read, so no two expressions share one. The resolver
//! keys what it finds by these numbers.

use vstd::prelude::*;

use crate::ast::{SExpr, SStmt};
use crate::parser_spec::{lemma_unfold_and, lemma_unfold_and_rest, lemma_unfold_arguments, lemma_unfold_assignment, lemma_unfold_block, lemma_unfold_block_rest, lemma_unfold_break_statement, lemma_unfold_call, lemma_unfold_call_rest, lemma_unfold_class_declaration, lemma_unfold_comparison, lemma_unfold_comparison_rest, lemma_unfold_continue_statement, lemma_unfold_declaration, lemma_unfold_equality, lemma_unfold_equality_rest, lemma_unfold_expression, lemma_unfold_expression_statement, lemma_unfold_factor, lemma_unfold_factor_rest, lemma_unfold_finish_call, lemma_unfold_for_initializer, lemma_unfold_for_rest, lemma_unfold_for_statement, lemma_unfold_function, lemma_unfold_if_statement, lemma_unfold_methods, lemma_unfold_or, lemma_unfold_or_rest, lemma_unfold_parameters, lemma_unfold_primary, lemma_unfold_print_statement, lemma_unfold_program, lemma_unfold_return_statement, lemma_unfold_statement, lemma_unfold_term, lemma_unfold_term_rest, lemma_unfold_unary, lemma_unfold_var_declaration, lemma_unfold_while_statement, adv, at_end, check, fwd, matched, p_and, p_and_rest, p_arguments, p_assignment, p_block, p_block_rest, p_call, p_call_rest, p_class_declaration, p_comparison, p_comparison_rest, p_consume, p_declaration, p_equality, p_equality_rest, p_expression, p_expression_statement, p_factor, p_factor_rest, p_finish_call, p_for_initializer, p_for_rest, p_for_statement, p_function, p_if_statement, p_methods, p_or, p_or_rest, p_parameters, p_primary, p_print_statement, p_program, p_return_statement, p_statement, p_term, p_term_rest, p_unary, p_var_declaration, p_while_statement, parse_result, PExpr, PStmt, PStmts, PS};
use crate::token::{SToken, TokenType};

verus! {

/// The numbers of the expressions in `e`, in the order they are read.
pub open spec fn expr_ids(e: SExpr) -> Seq<nat>
    decreases e, 0nat,
{
    match e {
        SExpr::Assign { id, value, .. } => expr_ids(*value).push(id),
        SExpr::Binary { left, right, .. } => expr_ids(*left) + expr_ids(*right),
        SExpr::Call { callee, arguments, .. } => expr_ids(*callee) + exprs_ids(arguments),
        SExpr::Get { object, .. } => expr_ids(*object),
        SExpr::Grouping { expression } => expr_ids(*expression),
        SExpr::Literal { .. } => Seq::empty(),
        SExpr::Logical { left, right, .. } => expr_ids(*left) + expr_ids(*right),
        SExpr::SetField { object, value, .. } => expr_ids(*object) + expr_ids(*value),
        SExpr::Super { id, .. } => seq![id],
        SExpr::This { id, .. } => seq![id],
        SExpr::Unary { right, .. } => expr_ids(*right),
        SExpr::Variable { id, .. } => seq![id],
    }
}

/// The numbers of the expressions in `es`, in order.
pub open spec fn exprs_ids(es: Seq<SExpr>) -> Seq<nat>
    decreases es, 0nat,
{
    if es.len() == 0 {
        Seq::empty()
    } else {
        exprs_ids(es.drop_last()) + expr_ids(es.last())
    }
}

/// The numbers in an optional expression.
pub open spec fn opt_expr_ids(e: Option<SExpr>) -> Seq<nat> {
    match e {
        Some(e) => expr_ids(e),
        None => Seq::empty(),
    }
}

/// The numbers of the expressions in `s`, in the order they are read (a
/// loop's increment is read before its body).
pub open spec fn stmt_ids(s: SStmt) -> Seq<nat>
    decreases s, 0nat,
{
    match s {
        SStmt::Block { statements } => stmts_ids(statements),
        SStmt::Break => Seq::empty(),
        SStmt::Class { superclass, methods, .. } => opt_expr_ids(superclass) + stmts_ids(methods),
        SStmt::Continue => Seq::empty(),
        SStmt::Expression { expression } => expr_ids(expression),
        SStmt::Function { body, .. } => stmts_ids(body),
        SStmt::If { condition, then_branch, else_branch } => expr_ids(condition) + stmt_ids(*then_branch) + match else_branch {
            Some(b) => stmt_ids(*b),
            None => Seq::empty(),
        },
        SStmt::Print { expression } => expr_ids(expression),
        SStmt::Return { value, .. } => expr_ids(value),
        SStmt::Var { initializer, .. } => opt_expr_ids(initializer),
        SStmt::While { condition, body, increment } => expr_ids(condition) + opt_expr_ids(increment) + stmt_ids(
            *body,
        ),
    }
}

/// The numbers of the expressions in `ss`, in order.
pub open spec fn stmts_ids(ss: Seq<SStmt>) -> Seq<nat>
    decreases ss, 0nat,
{
    if ss.len() == 0 {
        Seq::empty()
    } else {
        stmts_ids(ss.drop_last()) + stmt_ids(ss.last())
    }
}

/// `s` increases and lies in `[lo, hi)`.
pub open spec fn good(s: Seq<nat>, lo: nat, hi: nat) -> bool {
    &&& forall|i: int| 0 <= i < s.len() ==> lo <= #[trigger] s[i] < hi
    &&& forall|i: int, j: int| 0 <= i < j < s.len() ==> s[i] < s[j]
}

/// An expression rule, started with next number `start`, gives a state
/// with no smaller next number and, on success, an expression whose
/// numbers with those before it (from `lo`) increase below the new next
/// number.
pub open spec fn expr_good(r: PExpr, lo: nat, start: nat) -> bool {
    &&& start <= r.1.next_id
    &&& r.0 is Ok ==> good(expr_ids(r.0->Ok_0), lo, r.1.next_id)
}

/// As `expr_good`, for a statement rule.
pub open spec fn stmt_good(r: PStmt, lo: nat, start: nat) -> bool {
    &&& start <= r.1.next_id
    &&& r.0 is Ok ==> good(stmt_ids(r.0->Ok_0), lo, r.1.next_id)
}

/// As `expr_good`, for a rule that gives statements.
pub open spec fn stmts_good(r: PStmts, lo: nat, start: nat) -> bool {
    &&& start <= r.1.next_id
    &&& r.0 is Ok ==> good(stmts_ids(r.0->Ok_0), lo, r.1.next_id)
}

proof fn lemma_good_join(a: Seq<nat>, b: Seq<nat>, lo: nat, mid: nat, hi: nat)
    requires
        lo <= mid <= hi,
        good(a, lo, mid),
        good(b, mid, hi),
    ensures
        good(a + b, lo, hi),
{
    let c = a + b;
    assert forall|i: int, j: int| 0 <= i < j < c.len() implies c[i] < c[j] by {
        if j < a.len() {
        } else if i >= a.len() {
            assert(c[i] == b[i - a.len()]);
            assert(c[j] == b[j - a.len()]);
        } else {
            assert(c[i] == a[i]);
            assert(c[j] == b[j - a.len()]);
        }
    }
    assert forall|i: int| 0 <= i < c.len() implies lo <= #[trigger] c[i] < hi by {
        if i < a.len() {
            assert(c[i] == a[i]);
        } else {
            assert(c[i] == b[i - a.len()]);
        }
    }
}

proof fn lemma_good_widen(a: Seq<nat>, lo: nat, hi: nat, lo2: nat, hi2: nat)
    requires
        good(a, lo, hi),
        lo2 <= lo,
        hi <= hi2,
    ensures
        good(a, lo2, hi2),
{
    assert forall|i: int| 0 <= i < a.len() implies lo2 <= #[trigger] a[i] < hi2 by {
        assert(lo <= a[i] < hi);
    }
}

proof fn lemma_good_empty(lo: nat, hi: nat)
    ensures
        good(Seq::<nat>::empty(), lo, hi),
{
}

proof fn lemma_good_one(n: nat, lo: nat, hi: nat)
    requires
        lo <= n < hi,
    ensures
        good(seq![n], lo, hi),
{
    assert forall|i: int| 0 <= i < seq![n].len() implies lo <= #[trigger] seq![n][i] < hi by {
        assert(seq![n][i] == n);
    }
}

proof fn lemma_exprs_ids_push(es: Seq<SExpr>, e: SExpr)
    ensures
        exprs_ids(es.push(e)) == exprs_ids(es) + expr_ids(e),
{
    assert(es.push(e).drop_last() =~= es);
}

proof fn lemma_stmts_ids_push(ss: Seq<SStmt>, s: SStmt)
    ensures
        stmts_ids(ss.push(s)) == stmts_ids(ss) + stmt_ids(s),
{
    assert(ss.push(s).drop_last() =~= ss);
}

proof fn ids_primary(toks: Seq<SToken>, ps: PS)
    ensures
        expr_good(p_primary(toks, ps), ps.next_id, ps.next_id),
    decreases toks.len() - ps.pos, 6nat,
{
    lemma_unfold_primary(toks, ps);
    let pos = ps.pos;
    if check(toks, pos, TokenType::False) || check(toks, pos, TokenType::True) || check(toks, pos, TokenType::Nil)
        || matched(toks, pos, seq![TokenType::Number, TokenType::String]) {
        lemma_good_empty(ps.next_id, p_primary(toks, ps).1.next_id);
    } else if check(toks, pos, TokenType::Super) || check(toks, pos, TokenType::This) || check(
        toks,
        pos,
        TokenType::Identifier,
    ) {
        lemma_good_one(ps.next_id, ps.next_id, ps.next_id + 1);
    } else if check(toks, pos, TokenType::LeftParen) {
        let p1 = adv(toks, ps);
        ids_expression(toks, p1);
    }
}

proof fn ids_arguments(toks: Seq<SToken>, ps: PS, args: Seq<SExpr>, lo: nat)
    requires
        lo <= ps.next_id,
        good(exprs_ids(args), lo, ps.next_id),
    ensures
        ps.next_id <= p_arguments(toks, ps, args).1.next_id,
        p_arguments(toks, ps, args).0 is Ok ==> good(
            exprs_ids(p_arguments(toks, ps, args).0->Ok_0),
            lo,
            p_arguments(toks, ps, args).1.next_id,
        ),
    decreases toks.len() - ps.pos, 22nat,
{
    lemma_unfold_arguments(toks, ps, args);
    if args.len() < 255 {
        ids_expression(toks, ps);
        let (e, p1) = p_expression(toks, ps);
        if fwd(toks, ps, p1) {
            if e is Ok {
                let e = e->Ok_0;
                lemma_exprs_ids_push(args, e);
                lemma_good_join(exprs_ids(args), expr_ids(e), lo, ps.next_id, p1.next_id);
                if check(toks, p1.pos, TokenType::Comma) {
                    ids_arguments(toks, adv(toks, p1), args.push(e), lo);
                }
            }
        }
    }
}

proof fn ids_finish_call(toks: Seq<SToken>, ps: PS, callee: SExpr, lo: nat)
    requires
        lo <= ps.next_id,
        good(expr_ids(callee), lo, ps.next_id),
    ensures
        expr_good(p_finish_call(toks, ps, callee), lo, ps.next_id),
    decreases toks.len() - ps.pos, 23nat,
{
    lemma_unfold_finish_call(toks, ps, callee);
    let (args, p1) = if !check(toks, ps.pos, TokenType::RightParen) {
        p_arguments(toks, ps, seq![])
    } else {
        (Ok(seq![]), ps)
    };
    if !check(toks, ps.pos, TokenType::RightParen) {
        ids_arguments(toks, ps, seq![], ps.next_id);
    }
    if args is Ok {
        lemma_good_join(expr_ids(callee), exprs_ids(args->Ok_0), lo, ps.next_id, p1.next_id);
    }
}

proof fn ids_call_rest(toks: Seq<SToken>, ps: PS, expr: SExpr, lo: nat)
    requires
        lo <= ps.next_id,
        good(expr_ids(expr), lo, ps.next_id),
    ensures
        expr_good(p_call_rest(toks, ps, expr), lo, ps.next_id),
    decreases toks.len() - ps.pos, 7nat,
{
    lemma_unfold_call_rest(toks, ps, expr);
    if check(toks, ps.pos, TokenType::LeftParen) {
        let a = adv(toks, ps);
        ids_finish_call(toks, a, expr, lo);
        let (e1, p1) = p_finish_call(toks, a, expr);
        if fwd(toks, a, p1) && e1 is Ok {
            ids_call_rest(toks, p1, e1->Ok_0, lo);
        }
    } else if check(toks, ps.pos, TokenType::Dot) {
        let (name, p2) = p_consume(
            toks,
            adv(toks, ps),
            TokenType::Identifier,
            "Expected property name after '.'."@,
        );
        if name is Ok {
            ids_call_rest(toks, p2, SExpr::Get { name: name->Ok_0, object: Box::new(expr) }, lo);
        }
    }
}

proof fn ids_call(toks: Seq<SToken>, ps: PS)
    ensures
        expr_good(p_call(toks, ps), ps.next_id, ps.next_id),
    decreases toks.len() - ps.pos, 8nat,
{
    lemma_unfold_call(toks, ps);
    ids_primary(toks, ps);
    let (e, p1) = p_primary(toks, ps);
    if fwd(toks, ps, p1) && e is Ok {
        ids_call_rest(toks, p1, e->Ok_0, ps.next_id);
    }
}

proof fn ids_unary(toks: Seq<SToken>, ps: PS)
    ensures
        expr_good(p_unary(toks, ps), ps.next_id, ps.next_id),
    decreases toks.len() - ps.pos, 9nat,
{
    lemma_unfold_unary(toks, ps);
    if matched(toks, ps.pos, seq![TokenType::Bang, TokenType::Minus]) {
        ids_unary(toks, adv(toks, ps));
    } else {
        ids_call(toks, ps);
    }
}

proof fn ids_factor_rest(toks: Seq<SToken>, ps: PS, expr: SExpr, lo: nat)
    requires
        lo <= ps.next_id,
        good(expr_ids(expr), lo, ps.next_id),
    ensures
        expr_good(p_factor_rest(toks, ps, expr), lo, ps.next_id),
    decreases toks.len() - ps.pos, 10nat,
{
    lemma_unfold_factor_rest(toks, ps, expr);
    if matched(toks, ps.pos, seq![TokenType::Star, TokenType::Slash]) {
        let a = adv(toks, ps);
        ids_unary(toks, a);
        let (r, p1) = p_unary(toks, a);
        if fwd(toks, a, p1) && r is Ok {
            lemma_good_join(expr_ids(expr), expr_ids(r->Ok_0), lo, ps.next_id, p1.next_id);
            ids_factor_rest(
                toks,
                p1,
                SExpr::Binary { left: Box::new(expr), right: Box::new(r->Ok_0), operator: toks[ps.pos] },
                lo,
            );
        }
    }
}

proof fn ids_factor(toks: Seq<SToken>, ps: PS)
    ensures
        expr_good(p_factor(toks, ps), ps.next_id, ps.next_id),
    decreases toks.len() - ps.pos, 11nat,
{
    lemma_unfold_factor(toks, ps);
    ids_unary(toks, ps);
    let (e, p1) = p_unary(toks, ps);
    if fwd(toks, ps, p1) && e is Ok {
        ids_factor_rest(toks, p1, e->Ok_0, ps.next_id);
    }
}

proof fn ids_term_rest(toks: Seq<SToken>, ps: PS, expr: SExpr, lo: nat)
    requires
        lo <= ps.next_id,
        good(expr_ids(expr), lo, ps.next_id),
    ensures
        expr_good(p_term_rest(toks, ps, expr), lo, ps.next_id),
    decreases toks.len() - ps.pos, 12nat,
{
    lemma_unfold_term_rest(toks, ps, expr);
    if matched(toks, ps.pos, seq![TokenType::Plus, TokenType::Minus]) {
        let a = adv(toks, ps);
        ids_factor(toks, a);
        let (r, p1) = p_factor(toks, a);
        if fwd(toks, a, p1) && r is Ok {
            lemma_good_join(expr_ids(expr), expr_ids(r->Ok_0), lo, ps.next_id, p1.next_id);
            ids_term_rest(
                toks,
                p1,
                SExpr::Binary { left: Box::new(expr), right: Box::new(r->Ok_0), operator: toks[ps.pos] },
                lo,
            );
        }
    }
}

proof fn ids_term(toks: Seq<SToken>, ps: PS)
    ensures
        expr_good(p_term(toks, ps), ps.next_id, ps.next_id),
    decreases toks.len() - ps.pos, 13nat,
{
    lemma_unfold_term(toks, ps);
    ids_factor(toks, ps);
    let (e, p1) = p_factor(toks, ps);
    if fwd(toks, ps, p1) && e is Ok {
        ids_term_rest(toks, p1, e->Ok_0, ps.next_id);
    }
}

proof fn ids_comparison_rest(toks: Seq<SToken>, ps: PS, expr: SExpr, lo: nat)
    requires
        lo <= ps.next_id,
        good(expr_ids(expr), lo, ps.next_id),
    ensures
        expr_good(p_comparison_rest(toks, ps, expr), lo, ps.next_id),
    decreases toks.len() - ps.pos, 14nat,
{
    lemma_unfold_comparison_rest(toks, ps, expr);
    if matched(
        toks,
        ps.pos,
        seq![TokenType::Greater, TokenType::GreaterEqual, TokenType::Less, TokenType::LessEqual],
    ) {
        let a = adv(toks, ps);
        ids_term(toks, a);
        let (r, p1) = p_term(toks, a);
        if fwd(toks, a, p1) && r is Ok {
            lemma_good_join(expr_ids(expr), expr_ids(r->Ok_0), lo, ps.next_id, p1.next_id);
            ids_comparison_rest(
                toks,
                p1,
                SExpr::Binary { left: Box::new(expr), right: Box::new(r->Ok_0), operator: toks[ps.pos] },
                lo,
            );
        }
    }
}

proof fn ids_comparison(toks: Seq<SToken>, ps: PS)
    ensures
        expr_good(p_comparison(toks, ps), ps.next_id, ps.next_id),
    decreases toks.len() - ps.pos, 15nat,
{
    lemma_unfold_comparison(toks, ps);
    ids_term(toks, ps);
    let (e, p1) = p_term(toks, ps);
    if fwd(toks, ps, p1) && e is Ok {
        ids_comparison_rest(toks, p1, e->Ok_0, ps.next_id);
    }
}

proof fn ids_equality_rest(toks: Seq<SToken>, ps: PS, expr: SExpr, lo: nat)
    requires
        lo <= ps.next_id,
        good(expr_ids(expr), lo, ps.next_id),
    ensures
        expr_good(p_equality_rest(toks, ps, expr), lo, ps.next_id),
    decreases toks.len() - ps.pos, 16nat,
{
    lemma_unfold_equality_rest(toks, ps, expr);
    if matched(toks, ps.pos, seq![TokenType::BangEqual, TokenType::EqualEqual]) {
        let a = adv(toks, ps);
        ids_comparison(toks, a);
        let (r, p1) = p_comparison(toks, a);
        if fwd(toks, a, p1) && r is Ok {
            lemma_good_join(expr_ids(expr), expr_ids(r->Ok_0), lo, ps.next_id, p1.next_id);
            ids_equality_rest(
                toks,
                p1,
                SExpr::Binary { left: Box::new(expr), right: Box::new(r->Ok_0), operator: toks[ps.pos] },
                lo,
            );
        }
    }
}

proof fn ids_equality(toks: Seq<SToken>, ps: PS)
    ensures
        expr_good(p_equality(toks, ps), ps.next_id, ps.next_id),
    decreases toks.len() - ps.pos, 17nat,
{
    lemma_unfold_equality(toks, ps);
    ids_comparison(toks, ps);
    let (e, p1) = p_comparison(toks, ps);
    if fwd(toks, ps, p1) && e is Ok {
        ids_equality_rest(toks, p1, e->Ok_0, ps.next_id);
    }
}

proof fn ids_and_rest(toks: Seq<SToken>, ps: PS, expr: SExpr, lo: nat)
    requires
        lo <= ps.next_id,
        good(expr_ids(expr), lo, ps.next_id),
    ensures
        expr_good(p_and_rest(toks, ps, expr), lo, ps.next_id),
    decreases toks.len() - ps.pos, 17nat,
{
    lemma_unfold_and_rest(toks, ps, expr);
    if check(toks, ps.pos, TokenType::And) {
        let a = adv(toks, ps);
        ids_equality(toks, a);
        let (r, p1) = p_equality(toks, a);
        if fwd(toks, a, p1) && r is Ok {
            lemma_good_join(expr_ids(expr), expr_ids(r->Ok_0), lo, ps.next_id, p1.next_id);
            ids_and_rest(
                toks,
                p1,
                SExpr::Logical { left: Box::new(expr), right: Box::new(r->Ok_0), operator: toks[ps.pos] },
                lo,
            );
        }
    }
}

proof fn ids_and(toks: Seq<SToken>, ps: PS)
    ensures
        expr_good(p_and(toks, ps), ps.next_id, ps.next_id),
    decreases toks.len() - ps.pos, 18nat,
{
    lemma_unfold_and(toks, ps);
    ids_equality(toks, ps);
    let (e, p1) = p_equality(toks, ps);
    if fwd(toks, ps, p1) && e is Ok {
        ids_and_rest(toks, p1, e->Ok_0, ps.next_id);
    }
}

proof fn ids_or_rest(toks: Seq<SToken>, ps: PS, expr: SExpr, lo: nat)
    requires
        lo <= ps.next_id,
        good(expr_ids(expr), lo, ps.next_id),
    ensures
        expr_good(p_or_rest(toks, ps, expr), lo, ps.next_id),
    decreases toks.len() - ps.pos, 18nat,
{
    lemma_unfold_or_rest(toks, ps, expr);
    if check(toks, ps.pos, TokenType::Or) {
        let a = adv(toks, ps);
        ids_and(toks, a);
        let (r, p1) = p_and(toks, a);
        if fwd(toks, a, p1) && r is Ok {
            lemma_good_join(expr_ids(expr), expr_ids(r->Ok_0), lo, ps.next_id, p1.next_id);
            ids_or_rest(
                toks,
                p1,
                SExpr::Logical { left: Box::new(expr), right: Box::new(r->Ok_0), operator: toks[ps.pos] },
                lo,
            );
        }
    }
}

proof fn ids_or(toks: Seq<SToken>, ps: PS)
    ensures
        expr_good(p_or(toks, ps), ps.next_id, ps.next_id),
    decreases toks.len() - ps.pos, 19nat,
{
    lemma_unfold_or(toks, ps);
    ids_and(toks, ps);
    let (e, p1) = p_and(toks, ps);
    if fwd(toks, ps, p1) && e is Ok {
        ids_or_rest(toks, p1, e->Ok_0, ps.next_id);
    }
}

proof fn ids_assignment(toks: Seq<SToken>, ps: PS)
    ensures
        expr_good(p_assignment(toks, ps), ps.next_id, ps.next_id),
    decreases toks.len() - ps.pos, 20nat,
{
    lemma_unfold_assignment(toks, ps);
    ids_or(toks, ps);
    let (e, p1) = p_or(toks, ps);
    if fwd(toks, ps, p1) && e is Ok && check(toks, p1.pos, TokenType::Equal) {
        let a = adv(toks, p1);
        ids_assignment(toks, a);
        let (v, p2) = p_assignment(toks, a);
        if v is Ok {
            let v = v->Ok_0;
            match e->Ok_0 {
                SExpr::Variable { .. } => {
                    lemma_good_one(p2.next_id, p1.next_id, p2.next_id + 1);
                    lemma_good_widen(expr_ids(v), p1.next_id, p2.next_id, p1.next_id, p2.next_id);
                    lemma_good_join(expr_ids(v), seq![p2.next_id], p1.next_id, p2.next_id, p2.next_id + 1);
                    assert(expr_ids(v).push(p2.next_id) == expr_ids(v) + seq![p2.next_id]);
                    lemma_good_widen(
                        expr_ids(v).push(p2.next_id),
                        p1.next_id,
                        p2.next_id + 1,
                        ps.next_id,
                        p2.next_id + 1,
                    );
                },
                SExpr::Get { object, .. } => {
                    lemma_good_join(expr_ids(*object), expr_ids(v), ps.next_id, p1.next_id, p2.next_id);
                },
                _ => {},
            }
        }
    }
}

proof fn ids_expression(toks: Seq<SToken>, ps: PS)
    ensures
        expr_good(p_expression(toks, ps), ps.next_id, ps.next_id),
    decreases toks.len() - ps.pos, 21nat,
{
    lemma_unfold_expression(toks, ps);
    ids_assignment(toks, ps);
}


proof fn ids_expression_statement(toks: Seq<SToken>, ps: PS)
    ensures
        stmt_good(p_expression_statement(toks, ps), ps.next_id, ps.next_id),
    decreases toks.len() - ps.pos, 24nat,
{
    lemma_unfold_expression_statement(toks, ps);
    ids_expression(toks, ps);
}

proof fn ids_print_statement(toks: Seq<SToken>, ps: PS)
    ensures
        stmt_good(p_print_statement(toks, ps), ps.next_id, ps.next_id),
    decreases toks.len() - ps.pos, 25nat,
{
    lemma_unfold_print_statement(toks, ps);
    ids_expression(toks, ps);
}

proof fn ids_return_statement(toks: Seq<SToken>, ps: PS)
    ensures
        stmt_good(p_return_statement(toks, ps), ps.next_id, ps.next_id),
    decreases toks.len() - ps.pos, 25nat,
{
    lemma_unfold_return_statement(toks, ps);
    ids_expression(toks, ps);
}

proof fn ids_block_rest(toks: Seq<SToken>, ps: PS, stmts: Seq<SStmt>, lo: nat)
    requires
        lo <= ps.next_id,
        good(stmts_ids(stmts), lo, ps.next_id),
    ensures
        stmts_good(p_block_rest(toks, ps, stmts), lo, ps.next_id),
    decreases toks.len() - ps.pos, 42nat,
{
    lemma_unfold_block_rest(toks, ps, stmts);
    if !check(toks, ps.pos, TokenType::RightBrace) && !at_end(toks, ps.pos) {
        ids_declaration(toks, ps);
        let (d, p1) = p_declaration(toks, ps);
        if d is Ok && ps.pos < p1.pos <= toks.len() {
            let d = d->Ok_0;
            lemma_stmts_ids_push(stmts, d);
            lemma_good_join(stmts_ids(stmts), stmt_ids(d), lo, ps.next_id, p1.next_id);
            ids_block_rest(toks, p1, stmts.push(d), lo);
        }
    }
}

proof fn ids_block(toks: Seq<SToken>, ps: PS)
    ensures
        stmts_good(p_block(toks, ps), ps.next_id, ps.next_id),
    decreases toks.len() - ps.pos, 43nat,
{
    lemma_unfold_block(toks, ps);
    assert(stmts_ids(Seq::<SStmt>::empty()) =~= Seq::<nat>::empty());
    ids_block_rest(toks, ps, seq![], ps.next_id);
}

proof fn ids_if_statement(toks: Seq<SToken>, ps: PS)
    ensures
        stmt_good(p_if_statement(toks, ps), ps.next_id, ps.next_id),
    decreases toks.len() - ps.pos, 26nat,
{
    lemma_unfold_if_statement(toks, ps);
    let (c1, p1) = p_consume(toks, ps, TokenType::LeftParen, "Expected '(' after 'if'."@);
    if c1 is Ok {
        ids_expression(toks, p1);
        let (cond, p2) = p_expression(toks, p1);
        if fwd(toks, p1, p2) && cond is Ok {
            let cond = cond->Ok_0;
            let (c3, p3) = p_consume(toks, p2, TokenType::RightParen, "Expected ')' after if condition."@);
            if c3 is Ok {
                ids_statement(toks, p3);
                let (t, p4) = p_statement(toks, p3);
                if fwd(toks, p3, p4) && t is Ok {
                    let t = t->Ok_0;
                    lemma_good_join(expr_ids(cond), stmt_ids(t), ps.next_id, p2.next_id, p4.next_id);
                    if check(toks, p4.pos, TokenType::Else) {
                        let a = adv(toks, p4);
                        ids_statement(toks, a);
                        let (e, p5) = p_statement(toks, a);
                        if e is Ok {
                            lemma_good_join(
                                expr_ids(cond) + stmt_ids(t),
                                stmt_ids(e->Ok_0),
                                ps.next_id,
                                p4.next_id,
                                p5.next_id,
                            );
                        }
                    } else {
                        assert(expr_ids(cond) + stmt_ids(t) + Seq::<nat>::empty() =~= expr_ids(cond) + stmt_ids(t));
                    }
                }
            }
        }
    }
}

proof fn ids_while_statement(toks: Seq<SToken>, ps: PS)
    ensures
        stmt_good(p_while_statement(toks, ps), ps.next_id, ps.next_id),
    decreases toks.len() - ps.pos, 26nat,
{
    lemma_unfold_while_statement(toks, ps);
    let p0 = PS { loop_open: true, ..ps };
    let (c1, p1) = p_consume(toks, p0, TokenType::LeftParen, "Expected '(' after 'while'."@);
    if c1 is Ok {
        ids_expression(toks, p1);
        let (cond, p2) = p_expression(toks, p1);
        if fwd(toks, p1, p2) && cond is Ok {
            let cond = cond->Ok_0;
            let (c3, p3) = p_consume(toks, p2, TokenType::RightParen, "Expected ')' after condition"@);
            if c3 is Ok {
                ids_statement(toks, p3);
                let (body, p4) = p_statement(toks, p3);
                if body is Ok {
                    assert(expr_ids(cond) + opt_expr_ids(None) =~= expr_ids(cond));
                    lemma_good_join(expr_ids(cond), stmt_ids(body->Ok_0), ps.next_id, p2.next_id, p4.next_id);
                }
            }
        }
    }
}

/// As `stmt_good`, for the optional initializer of a for loop.
pub open spec fn init_good(r: (Result<Option<SStmt>, Seq<char>>, PS), lo: nat, start: nat) -> bool {
    &&& start <= r.1.next_id
    &&& r.0 matches Ok(Some(s)) ==> good(stmt_ids(s), lo, r.1.next_id)
}

proof fn ids_var_declaration(toks: Seq<SToken>, ps: PS)
    ensures
        stmt_good(p_var_declaration(toks, ps), ps.next_id, ps.next_id),
    decreases toks.len() - ps.pos, 26nat,
{
    lemma_unfold_var_declaration(toks, ps);
    let (name, p1) = p_consume(toks, ps, TokenType::Identifier, "Expected variable name."@);
    if name is Ok {
        if check(toks, p1.pos, TokenType::Equal) {
            ids_expression(toks, adv(toks, p1));
        } else {
            lemma_good_empty(ps.next_id, p1.next_id);
        }
    }
}

proof fn ids_for_initializer(toks: Seq<SToken>, ps: PS)
    ensures
        init_good(p_for_initializer(toks, ps), ps.next_id, ps.next_id),
    decreases toks.len() - ps.pos, 27nat,
{
    lemma_unfold_for_initializer(toks, ps);
    if check(toks, ps.pos, TokenType::Semicolon) {
    } else if check(toks, ps.pos, TokenType::Var) {
        ids_var_declaration(toks, adv(toks, ps));
    } else {
        ids_expression_statement(toks, ps);
    }
}

proof fn ids_for_rest(toks: Seq<SToken>, ps: PS)
    ensures
        stmt_good(p_for_rest(toks, ps), ps.next_id, ps.next_id),
    decreases toks.len() - ps.pos, 28nat,
{
    lemma_unfold_for_rest(toks, ps);
    if !check(toks, ps.pos, TokenType::Semicolon) {
        ids_expression(toks, ps);
    }
    let (cond, p1) = if !check(toks, ps.pos, TokenType::Semicolon) {
        p_expression(toks, ps)
    } else {
        (Ok(SExpr::Literal { value: crate::token::SLiteral::Bool(true) }), ps)
    };
    if fwd(toks, ps, p1) && cond is Ok {
        let cond = cond->Ok_0;
        let (c2, p2) = p_consume(toks, p1, TokenType::Semicolon, "Expect ';' after loop condition."@);
        if c2 is Ok {
            if !check(toks, p2.pos, TokenType::RightParen) {
                ids_expression(toks, p2);
            }
            let (incr, p3) = if !check(toks, p2.pos, TokenType::RightParen) {
                let (e, q) = p_expression(toks, p2);
                match e {
                    Err(m) => (Err(m), q),
                    Ok(e) => (Ok(Some(e)), q),
                }
            } else {
                (Ok(None), p2)
            };
            if fwd(toks, p2, p3) && incr is Ok {
                let incr = incr->Ok_0;
                let (c4, p4) = p_consume(toks, p3, TokenType::RightParen, "Expected ')' after 'for' clauses."@);
                if c4 is Ok {
                    let p4b = PS { loop_open: true, ..p4 };
                    ids_statement(toks, p4b);
                    let (body, p5) = p_statement(toks, p4b);
                    if body is Ok {
                        lemma_good_join(expr_ids(cond), opt_expr_ids(incr), ps.next_id, p1.next_id, p3.next_id);
                        lemma_good_join(
                            expr_ids(cond) + opt_expr_ids(incr),
                            stmt_ids(body->Ok_0),
                            ps.next_id,
                            p3.next_id,
                            p5.next_id,
                        );
                    }
                }
            }
        }
    }
}

proof fn ids_for_statement(toks: Seq<SToken>, ps: PS)
    ensures
        stmt_good(p_for_statement(toks, ps), ps.next_id, ps.next_id),
    decreases toks.len() - ps.pos, 29nat,
{
    lemma_unfold_for_statement(toks, ps);
    let (c1, p1) = p_consume(toks, ps, TokenType::LeftParen, "Expected '(' after 'for'."@);
    if c1 is Ok {
        ids_for_initializer(toks, p1);
        let (init, p2) = p_for_initializer(toks, p1);
        if fwd(toks, p1, p2) && init is Ok {
            ids_for_rest(toks, p2);
            let (w, p3) = p_for_rest(toks, p2);
            if w is Ok {
                let w = w->Ok_0;
                match init->Ok_0 {
                    Some(i) => {
                        assert(seq![i, w].drop_last() =~= seq![i]);
                        assert(seq![i].drop_last() =~= Seq::<SStmt>::empty());
                        assert(seq![i, w].last() == w);
                        assert(seq![i].last() == i);
                        assert(stmts_ids(Seq::<SStmt>::empty()) + stmt_ids(i) =~= stmt_ids(i));
                        assert(stmts_ids(seq![i]) =~= stmt_ids(i));
                        assert(stmts_ids(seq![i, w]) =~= stmt_ids(i) + stmt_ids(w));
                        lemma_good_join(stmt_ids(i), stmt_ids(w), ps.next_id, p2.next_id, p3.next_id);
                    },
                    None => {},
                }
            }
        }
    }
}

proof fn ids_parameters(toks: Seq<SToken>, ps: PS, params: Seq<SToken>)
    ensures
        p_parameters(toks, ps, params).1.next_id == ps.next_id,
    decreases toks.len() - ps.pos, 26nat,
{
    lemma_unfold_parameters(toks, ps, params);
    if params.len() < 255 {
        let (p, p1) = p_consume(toks, ps, TokenType::Identifier, "Expected parameter name."@);
        if p is Ok && check(toks, p1.pos, TokenType::Comma) {
            ids_parameters(toks, adv(toks, p1), params.push(p->Ok_0));
        }
    }
}

proof fn ids_function(toks: Seq<SToken>, ps: PS, kind: Seq<char>)
    ensures
        stmt_good(p_function(toks, ps, kind), ps.next_id, ps.next_id),
    decreases toks.len() - ps.pos, 30nat,
{
    lemma_unfold_function(toks, ps, kind);
    let (name, p1) = p_consume(toks, ps, TokenType::Identifier, "Expected "@ + kind + " name."@);
    if name is Ok {
        let (c2, p2) = p_consume(toks, p1, TokenType::LeftParen, "Expected '(' after "@ + kind + " name."@);
        if c2 is Ok {
            if !check(toks, p2.pos, TokenType::RightParen) {
                ids_parameters(toks, p2, seq![]);
            }
            let (params, p3) = if !check(toks, p2.pos, TokenType::RightParen) {
                p_parameters(toks, p2, seq![])
            } else {
                (Ok(seq![]), p2)
            };
            if fwd(toks, p2, p3) && params is Ok {
                let (c4, p4) = p_consume(toks, p3, TokenType::RightParen, "Expected '(' after parameters."@);
                if c4 is Ok {
                    let (c5, p5) = p_consume(toks, p4, TokenType::LeftBrace, "Expected '{' before "@ + kind + " body."@);
                    if c5 is Ok {
                        ids_block(toks, p5);
                    }
                }
            }
        }
    }
}

proof fn ids_methods(toks: Seq<SToken>, ps: PS, methods: Seq<SStmt>, lo: nat)
    requires
        lo <= ps.next_id,
        good(stmts_ids(methods), lo, ps.next_id),
    ensures
        stmts_good(p_methods(toks, ps, methods), lo, ps.next_id),
    decreases toks.len() - ps.pos, 31nat,
{
    lemma_unfold_methods(toks, ps, methods);
    if !check(toks, ps.pos, TokenType::RightBrace) && !at_end(toks, ps.pos) {
        ids_function(toks, ps, "method"@);
        let (f, p1) = p_function(toks, ps, "method"@);
        if f is Ok && ps.pos < p1.pos <= toks.len() {
            let f = f->Ok_0;
            lemma_stmts_ids_push(methods, f);
            lemma_good_join(stmts_ids(methods), stmt_ids(f), lo, ps.next_id, p1.next_id);
            ids_methods(toks, p1, methods.push(f), lo);
        }
    }
}

proof fn ids_class_declaration(toks: Seq<SToken>, ps: PS)
    ensures
        stmt_good(p_class_declaration(toks, ps), ps.next_id, ps.next_id),
    decreases toks.len() - ps.pos, 32nat,
{
    lemma_unfold_class_declaration(toks, ps);
    let (name, p1) = p_consume(toks, ps, TokenType::Identifier, "Expected class name."@);
    if name is Ok {
        let (sup, p2) = if check(toks, p1.pos, TokenType::Less) {
            let (s, q) = p_consume(toks, adv(toks, p1), TokenType::Identifier, "Expected superclass name."@);
            match s {
                Err(m) => (Err(m), q),
                Ok(s) => (Ok(Some(SExpr::Variable { id: q.next_id, name: s })), crate::parser_spec::take_id(q)),
            }
        } else {
            (Ok(None), p1)
        };
        if sup is Ok {
            let sup = sup->Ok_0;
            match sup {
                Some(v) => lemma_good_one(p1.next_id, ps.next_id, p2.next_id),
                None => lemma_good_empty(ps.next_id, p2.next_id),
            }
            let (c3, p3) = p_consume(toks, p2, TokenType::LeftBrace, "Expected '{' before class body."@);
            if c3 is Ok {
                assert(stmts_ids(Seq::<SStmt>::empty()) =~= Seq::<nat>::empty());
                ids_methods(toks, p3, seq![], p3.next_id);
                let (methods, p4) = p_methods(toks, p3, seq![]);
                if methods is Ok {
                    lemma_good_join(opt_expr_ids(sup), stmts_ids(methods->Ok_0), ps.next_id, p3.next_id, p4.next_id);
                }
            }
        }
    }
}

proof fn ids_statement(toks: Seq<SToken>, ps: PS)
    ensures
        stmt_good(p_statement(toks, ps), ps.next_id, ps.next_id),
    decreases toks.len() - ps.pos, 40nat,
{
    lemma_unfold_statement(toks, ps);
    let a = adv(toks, ps);
    if check(toks, ps.pos, TokenType::Break) {
        lemma_unfold_break_statement(toks, a);
    } else if check(toks, ps.pos, TokenType::Continue) {
        lemma_unfold_continue_statement(toks, a);
    } else if check(toks, ps.pos, TokenType::For) {
        ids_for_statement(toks, a);
    } else if check(toks, ps.pos, TokenType::If) {
        ids_if_statement(toks, a);
    } else if check(toks, ps.pos, TokenType::Print) {
        ids_print_statement(toks, a);
    } else if check(toks, ps.pos, TokenType::Return) {
        ids_return_statement(toks, a);
    } else if check(toks, ps.pos, TokenType::While) {
        ids_while_statement(toks, a);
    } else if check(toks, ps.pos, TokenType::LeftBrace) {
        ids_block(toks, a);
    } else {
        ids_expression_statement(toks, ps);
    }
}

proof fn ids_declaration(toks: Seq<SToken>, ps: PS)
    ensures
        stmt_good(p_declaration(toks, ps), ps.next_id, ps.next_id),
    decreases toks.len() - ps.pos, 41nat,
{
    lemma_unfold_declaration(toks, ps);
    let a = adv(toks, ps);
    if check(toks, ps.pos, TokenType::Class) {
        ids_class_declaration(toks, a);
    } else if check(toks, ps.pos, TokenType::Fun) {
        ids_function(toks, a, "function"@);
    } else if check(toks, ps.pos, TokenType::Var) {
        ids_var_declaration(toks, a);
    } else {
        ids_statement(toks, ps);
    }
}

proof fn ids_program(toks: Seq<SToken>, ps: PS, stmts: Seq<SStmt>, errors: Seq<Seq<char>>, lo: nat)
    requires
        lo <= ps.next_id,
        good(stmts_ids(stmts), lo, ps.next_id),
    ensures
        good(
            stmts_ids(p_program(toks, ps, stmts, errors).0),
            lo,
            p_program(toks, ps, stmts, errors).2.next_id,
        ),
    decreases toks.len() - ps.pos, 44nat,
{
    lemma_unfold_program(toks, ps, stmts, errors);
    if !at_end(toks, ps.pos) {
        ids_declaration(toks, ps);
        let (d, p1) = p_declaration(toks, ps);
        if ps.pos < p1.pos <= toks.len() {
            match d {
                Ok(d) => {
                    lemma_stmts_ids_push(stmts, d);
                    lemma_good_join(stmts_ids(stmts), stmt_ids(d), lo, ps.next_id, p1.next_id);
                    ids_program(toks, p1, stmts.push(d), errors, lo);
                },
                Err(m) => {
                    lemma_good_widen(stmts_ids(stmts), lo, ps.next_id, lo, p1.next_id);
                    ids_program(toks, p1, stmts, errors.push(m), lo);
                },
            }
        }
    }
}

/// In a program parsed without error, the numbers of the expressions that
/// name variables (and of `this` and `super`) increase in the order the
/// expressions are read, from the parser's first number on: no two of them
/// share a number.
pub proof fn law_parse_ids_increase(toks: Seq<SToken>, ps: PS)
    ensures
        parse_result(toks, ps) is Ok ==> ({
            let ids = stmts_ids(parse_result(toks, ps)->Ok_0);
            &&& forall|i: int| 0 <= i < ids.len() ==> ps.next_id <= #[trigger] ids[i]
            &&& forall|i: int, j: int| 0 <= i < j < ids.len() ==> ids[i] < ids[j]
        }),
{
    assert(stmts_ids(Seq::<SStmt>::empty()) =~= Seq::<nat>::empty());
    ids_program(toks, ps, seq![], seq![], ps.next_id);
}

} // verus!
