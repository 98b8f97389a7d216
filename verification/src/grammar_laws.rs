//! Laws of the grammar: which tokens each binary level takes as operators.

use vstd::prelude::*;

use crate::ast::SExpr;
use crate::parser_spec::{
    adv, at_end, fwd, lemma_unfold_comparison_rest, lemma_unfold_equality_rest, lemma_unfold_factor_rest,
    lemma_unfold_term_rest, matched, p_comparison_rest, p_equality_rest, p_factor, p_factor_rest, p_comparison,
    p_term, p_term_rest, p_unary, PExpr, PS,
};
use crate::token::{SToken, TokenType};

verus! {

/// A token is one of a list of types as soon as its type stands anywhere in
/// the list, whatever the position.
pub proof fn law_matched_any_position(toks: Seq<SToken>, pos: int, ts: Seq<TokenType>, j: int)
    requires
        !at_end(toks, pos),
        0 <= j < ts.len(),
        ts[j] == toks[pos].ttype,
    ensures
        matched(toks, pos, ts),
{
    assert(ts.contains(ts[j]));
}

/// A token is one of a list of types only if its type stands in the list.
pub proof fn law_matched_only_listed(toks: Seq<SToken>, pos: int, ts: Seq<TokenType>)
    requires
        matched(toks, pos, ts),
    ensures
        !at_end(toks, pos),
        exists|j: int| 0 <= j < ts.len() && ts[j] == toks[pos].ttype,
{
}

/// After the left operand, a binary level whose operator is the current
/// token takes it and parses the right operand with `next`, going on from
/// there with the two joined under that operator.
pub open spec fn takes_operator(
    toks: Seq<SToken>,
    ps: PS,
    expr: SExpr,
    right: PExpr,
    rest: spec_fn(PS, SExpr) -> PExpr,
) -> PExpr {
    let (r, p1) = right;
    if !fwd(toks, adv(toks, ps), p1) {
        (r, p1)
    } else {
        match r {
            Err(m) => (Err(m), p1),
            Ok(r) => rest(p1, SExpr::Binary { left: Box::new(expr), right: Box::new(r), operator: toks[ps.pos] }),
        }
    }
}

/// Each of `>`, `>=`, `<` and `<=` is taken by a comparison, its right
/// operand a term.
pub proof fn law_comparison_operators(toks: Seq<SToken>, ps: PS, expr: SExpr)
    requires
        !at_end(toks, ps.pos),
        toks[ps.pos].ttype == TokenType::Greater || toks[ps.pos].ttype == TokenType::GreaterEqual
            || toks[ps.pos].ttype == TokenType::Less || toks[ps.pos].ttype == TokenType::LessEqual,
    ensures
        p_comparison_rest(toks, ps, expr) == takes_operator(
            toks,
            ps,
            expr,
            p_term(toks, adv(toks, ps)),
            |p: PS, e: SExpr| p_comparison_rest(toks, p, e),
        ),
{
    lemma_unfold_comparison_rest(toks, ps, expr);
    let ts = seq![TokenType::Greater, TokenType::GreaterEqual, TokenType::Less, TokenType::LessEqual];
    let t = toks[ps.pos].ttype;
    let j: int = if t == TokenType::Greater {
        0
    } else if t == TokenType::GreaterEqual {
        1
    } else if t == TokenType::Less {
        2
    } else {
        3
    };
    law_matched_any_position(toks, ps.pos, ts, j);
}

/// Each of `!=` and `==` is taken by an equality, its right operand a
/// comparison.
pub proof fn law_equality_operators(toks: Seq<SToken>, ps: PS, expr: SExpr)
    requires
        !at_end(toks, ps.pos),
        toks[ps.pos].ttype == TokenType::BangEqual || toks[ps.pos].ttype == TokenType::EqualEqual,
    ensures
        p_equality_rest(toks, ps, expr) == takes_operator(
            toks,
            ps,
            expr,
            p_comparison(toks, adv(toks, ps)),
            |p: PS, e: SExpr| p_equality_rest(toks, p, e),
        ),
{
    lemma_unfold_equality_rest(toks, ps, expr);
    let ts = seq![TokenType::BangEqual, TokenType::EqualEqual];
    let j: int = if toks[ps.pos].ttype == TokenType::BangEqual {
        0
    } else {
        1
    };
    law_matched_any_position(toks, ps.pos, ts, j);
}

/// Each of `+` and `-` is taken by a term, its right operand a factor.
pub proof fn law_term_operators(toks: Seq<SToken>, ps: PS, expr: SExpr)
    requires
        !at_end(toks, ps.pos),
        toks[ps.pos].ttype == TokenType::Plus || toks[ps.pos].ttype == TokenType::Minus,
    ensures
        p_term_rest(toks, ps, expr) == takes_operator(
            toks,
            ps,
            expr,
            p_factor(toks, adv(toks, ps)),
            |p: PS, e: SExpr| p_term_rest(toks, p, e),
        ),
{
    lemma_unfold_term_rest(toks, ps, expr);
    let ts = seq![TokenType::Plus, TokenType::Minus];
    let j: int = if toks[ps.pos].ttype == TokenType::Plus {
        0
    } else {
        1
    };
    law_matched_any_position(toks, ps.pos, ts, j);
}

/// Each of `*` and `/` is taken by a factor, its right operand a unary.
pub proof fn law_factor_operators(toks: Seq<SToken>, ps: PS, expr: SExpr)
    requires
        !at_end(toks, ps.pos),
        toks[ps.pos].ttype == TokenType::Star || toks[ps.pos].ttype == TokenType::Slash,
    ensures
        p_factor_rest(toks, ps, expr) == takes_operator(
            toks,
            ps,
            expr,
            p_unary(toks, adv(toks, ps)),
            |p: PS, e: SExpr| p_factor_rest(toks, p, e),
        ),
{
    lemma_unfold_factor_rest(toks, ps, expr);
    let ts = seq![TokenType::Star, TokenType::Slash];
    let j: int = if toks[ps.pos].ttype == TokenType::Star {
        0
    } else {
        1
    };
    law_matched_any_position(toks, ps.pos, ts, j);
}

} // verus!
