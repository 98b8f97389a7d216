//! The parser: turns tokens into statements, as the grammar in
//! `parser_spec` says.

use vstd::prelude::*;

use crate::ast::{exprs_model, stmts_model, tokens_model, Expr, SExpr, SStmt, Stmt};
use crate::parser_spec::{
    lemma_unfold_and, lemma_unfold_and_rest, lemma_unfold_arguments, lemma_unfold_assignment,
    lemma_unfold_block, lemma_unfold_block_rest, lemma_unfold_break_statement, lemma_unfold_call,
    lemma_unfold_call_rest, lemma_unfold_class_declaration, lemma_unfold_comparison,
    lemma_unfold_comparison_rest, lemma_unfold_continue_statement, lemma_unfold_declaration,
    lemma_unfold_equality, lemma_unfold_equality_rest, lemma_unfold_expression,
    lemma_unfold_expression_statement, lemma_unfold_factor, lemma_unfold_factor_rest, lemma_unfold_finish_call,
    lemma_unfold_for_initializer, lemma_unfold_for_rest, lemma_unfold_for_statement, lemma_unfold_function,
    lemma_unfold_if_statement, lemma_unfold_methods, lemma_unfold_or, lemma_unfold_or_rest,
    lemma_unfold_parameters, lemma_unfold_primary, lemma_unfold_print_statement, lemma_unfold_program,
    lemma_unfold_return_statement, lemma_unfold_statement, lemma_unfold_term, lemma_unfold_term_rest,
    lemma_unfold_unary, lemma_unfold_var_declaration, lemma_unfold_while_statement, PS, PExpr, PStmt, at_end,
    check, matched, adv, take_id, p_consume, token_type_text, p_primary, p_arguments, p_finish_call,
    p_call_rest, p_call, p_unary, p_factor_rest, p_factor, p_term_rest, p_term, p_comparison_rest,
    p_comparison, p_equality_rest, p_equality, p_and_rest, p_and, p_or_rest, p_or, p_assignment, p_expression,
    p_expression_statement, p_print_statement, p_return_statement, p_break_statement, p_continue_statement,
    p_block_rest, p_block, p_if_statement, p_while_statement, p_for_initializer, p_for_rest, p_for_statement,
    p_var_declaration, p_parameters, p_function, p_methods, p_class_declaration, p_statement, p_declaration,
    p_program, parse_result,
};
use crate::scanner::{eof_token, scan_from};
use crate::text::push_str;
use crate::token::{LiteralType, SToken, Token, TokenType};
use crate::utility::{error, error_string};

verus! {

/// The model of a parsed expression or of its error message.
pub open spec fn res_expr(r: Result<Expr, String>) -> Result<SExpr, Seq<char>> {
    match r {
        Ok(e) => Ok(e@),
        Err(m) => Err(m@),
    }
}

/// The model of a parsed statement or of its error message.
pub open spec fn res_stmt(r: Result<Stmt, String>) -> Result<SStmt, Seq<char>> {
    match r {
        Ok(s) => Ok(s@),
        Err(m) => Err(m@),
    }
}

/// The model of parsed statements or of the error message.
pub open spec fn res_stmts(r: Result<Vec<Stmt>, String>) -> Result<Seq<SStmt>, Seq<char>> {
    match r {
        Ok(s) => Ok(stmts_model(s@)),
        Err(m) => Err(m@),
    }
}

/// The texts of a sequence of strings.
pub open spec fn strings_model(v: Seq<String>) -> Seq<Seq<char>> {
    v.map_values(|s: String| s@)
}

/// The outcome of a parse, in the model.
pub open spec fn parse_outcome(r: Result<Vec<Stmt>, Vec<String>>) -> Result<Seq<SStmt>, Seq<Seq<char>>> {
    match r {
        Ok(s) => Ok(stmts_model(s@)),
        Err(e) => Err(strings_model(e@)),
    }
}

/// The texts of a sequence grow with it.
pub proof fn lemma_strings_model_push(s: Seq<String>, t: String)
    ensures
        strings_model(s.push(t)) == strings_model(s).push(t@),
{
    assert(strings_model(s.push(t)) =~= strings_model(s).push(t@));
}

/// The model of parsed tokens or of the error message.
pub open spec fn res_tokens(r: Result<Vec<Token>, String>) -> Result<Seq<SToken>, Seq<char>> {
    match r {
        Ok(t) => Ok(tokens_model(t@)),
        Err(m) => Err(m@),
    }
}

/// The model of an optional parsed statement or of the error message.
pub open spec fn res_opt_stmt(r: Result<Option<Stmt>, String>) -> Result<Option<SStmt>, Seq<char>> {
    match r {
        Ok(Some(s)) => Ok(Some(s@)),
        Ok(None) => Ok(None),
        Err(m) => Err(m@),
    }
}

/// The model of an expected token or of the error message.
pub open spec fn res_token(r: Result<Token, String>) -> Result<SToken, Seq<char>> {
    match r {
        Ok(t) => Ok(t@),
        Err(m) => Err(m@),
    }
}

/// The tokens hold an end-of-file token, which stops the parser.
pub open spec fn has_eof(toks: Seq<SToken>) -> bool {
    exists|k: int| 0 <= k < toks.len() && toks[k].ttype == TokenType::Eof
}

/// A parse may start at `pos`: there is a token before it or the end has
/// not been reached.
pub open spec fn startable(toks: Seq<SToken>, pos: int) -> bool {
    pos >= 1 || !at_end(toks, pos)
}

/// The model of a sequence of expressions grows with it.
pub proof fn lemma_exprs_model_push(s: Seq<Expr>, e: Expr)
    ensures
        exprs_model(s.push(e)) == exprs_model(s).push(e@),
{
    assert(s.push(e).drop_last() =~= s);
}

/// The model of a sequence of statements grows with it.
pub proof fn lemma_stmts_model_push(s: Seq<Stmt>, e: Stmt)
    ensures
        stmts_model(s.push(e)) == stmts_model(s).push(e@),
{
    assert(s.push(e).drop_last() =~= s);
}

/// The model of a sequence of tokens grows with it.
pub proof fn lemma_tokens_model_push(s: Seq<Token>, t: Token)
    ensures
        tokens_model(s.push(t)) == tokens_model(s).push(t@),
{
    assert(tokens_model(s.push(t)) =~= tokens_model(s).push(t@));
}

/// The tokens that the scanner returns, ended by its end-of-file token,
/// always hold one, so a parser made over them is ready to run.
pub proof fn law_scanned_tokens_parse(tokens: Seq<Token>, src: Seq<u8>, s: int, line: nat)
    requires
        tokens_model(tokens) == scan_from(src, s, line).tokens.push(eof_token(scan_from(src, s, line).line)),
    ensures
        has_eof(tokens_model(tokens)),
{
    let n = tokens_model(tokens).len();
    assert(tokens_model(tokens)[n - 1].ttype == TokenType::Eof);
}

/// A recursive-descent parser over a token sequence.
pub struct Parser {
    tokens: Vec<Token>,
    current: usize,
    is_loop_open: bool,
    next_id: usize,
}

impl Parser {
    /// The tokens being parsed.
    pub closed spec fn toks(&self) -> Seq<SToken> {
        tokens_model(self.tokens@)
    }

    /// The parser's state.
    pub closed spec fn ps(&self) -> PS {
        PS { pos: self.current as int, loop_open: self.is_loop_open, next_id: self.next_id as nat }
    }

    /// The position is within the tokens, an end-of-file token lies at or
    /// after it, and fewer expressions have been numbered than tokens read.
    pub closed spec fn wf(&self) -> bool {
        &&& self.current < self.tokens@.len()
        &&& exists|k: int| self.current <= k < self.tokens@.len() && self.tokens@[k].ttype == TokenType::Eof
        &&& self.next_id <= self.current
    }

    /// From `a` to `b` the tokens stay, the position does not go back, and
    /// no more expressions are numbered than tokens are read.
    pub closed spec fn grew(a: Parser, b: Parser) -> bool {
        &&& b.tokens@ == a.tokens@
        &&& a.current <= b.current
        &&& b.next_id - a.next_id <= b.current - a.current
    }

    pub closed spec fn expr_post(a: Parser, b: Parser, r: Result<Expr, String>, spec: PExpr) -> bool {
        &&& b.wf()
        &&& Parser::grew(a, b)
        &&& (res_expr(r), b.ps()) == spec
    }

    pub closed spec fn stmt_post(a: Parser, b: Parser, r: Result<Stmt, String>, spec: PStmt) -> bool {
        &&& b.wf()
        &&& Parser::grew(a, b)
        &&& (res_stmt(r), b.ps()) == spec
    }

    /// From `a` to `b` at least one token was read, unless `a` was at the end.
    pub closed spec fn progressed(a: Parser, b: Parser) -> bool {
        !at_end(a.toks(), a.current as int) ==> a.current < b.current
    }

    /// A parser at the first of `tokens`.
    pub fn new(tokens: Vec<Token>) -> (p: Self)
        ensures
            p.toks() == tokens_model(tokens@),
            p.ps() == (PS { pos: 0, loop_open: false, next_id: 0 }),
            has_eof(tokens_model(tokens@)) ==> p.wf(),
    {
        let p = Parser { tokens, current: 0, is_loop_open: false, next_id: 0 };
        proof {
            if has_eof(tokens_model(tokens@)) {
                let k = choose|k: int| 0 <= k < tokens_model(tokens@).len() && tokens_model(tokens@)[k].ttype == TokenType::Eof;
                assert(p.tokens@[k].ttype == TokenType::Eof);
            }
        }
        p
    }

    fn peek(&self) -> (t: &Token)
        requires
            self.wf(),
        ensures
            t@ == self.toks()[self.current as int],
    {
        &self.tokens[self.current]
    }

    /// Whether the parser can run: its position is on a token, an
    /// end-of-file token lies at or after it, and it has numbered no more
    /// expressions than tokens read. A parser over the tokens of
    /// `Scanner::scan_tokens` can always run.
    pub fn ready(&self) -> (b: bool)
        ensures
            b == self.wf(),
    {
        if self.next_id > self.current || self.current >= self.tokens.len() {
            return false;
        }
        let mut k = self.current;
        while k < self.tokens.len()
            invariant
                self.current <= k <= self.tokens@.len(),
                self.current < self.tokens@.len(),
                self.next_id <= self.current,
                forall|i: int| self.current <= i < k ==> self.tokens@[i].ttype != TokenType::Eof,
            decreases self.tokens@.len() - k,
        {
            if self.tokens[k].ttype == TokenType::Eof {
                assert(self.tokens@[k as int].ttype == TokenType::Eof);
                return true;
            }
            k += 1;
        }
        false
    }

    fn is_at_end(&self) -> (b: bool)
        requires
            self.wf(),
        ensures
            b == at_end(self.toks(), self.current as int),
    {
        self.peek().ttype == TokenType::Eof
    }

    fn check(&self, ttype: TokenType) -> (b: bool)
        requires
            self.wf(),
        ensures
            b == check(self.toks(), self.current as int, ttype),
    {
        if self.is_at_end() {
            return false;
        }
        self.peek().ttype == ttype
    }

    fn advance(&mut self)
        requires
            old(self).wf(),
        ensures
            final(self).wf(),
            Parser::grew(*old(self), *final(self)),
            final(self).ps() == adv(old(self).toks(), old(self).ps()),
            final(self).next_id == old(self).next_id,
    {
        if !self.is_at_end() {
            let n = self.tokens.len();
            proof {
                let k = choose|k: int| self.current <= k < self.tokens@.len() && self.tokens@[k].ttype == TokenType::Eof;
                assert(k != self.current);
            }
            self.current = self.current + 1;
        }
    }

    fn previous(&self) -> (t: Token)
        requires
            self.wf(),
            self.current >= 1,
        ensures
            t@ == self.toks()[self.current - 1],
    {
        self.tokens[self.current - 1].clone()
    }

    /// Moves past the current token when it has type `ttype`.
    fn match_token(&mut self, ttype: TokenType) -> (b: bool)
        requires
            old(self).wf(),
        ensures
            final(self).wf(),
            Parser::grew(*old(self), *final(self)),
            b == check(old(self).toks(), old(self).current as int, ttype),
            final(self).ps() == if b { adv(old(self).toks(), old(self).ps()) } else { old(self).ps() },
    {
        if self.check(ttype) {
            self.advance();
            true
        } else {
            false
        }
    }

    /// Moves past the current token when it has one of the types given.
    fn match_token_type(&mut self, token_types: &[TokenType]) -> (b: bool)
        requires
            old(self).wf(),
        ensures
            final(self).wf(),
            Parser::grew(*old(self), *final(self)),
            b == matched(old(self).toks(), old(self).current as int, token_types@),
            final(self).ps() == if b { adv(old(self).toks(), old(self).ps()) } else { old(self).ps() },
    {
        let mut i: usize = 0;
        while i < token_types.len()
            invariant
                self.wf(),
                *self == *old(self),
                0 <= i <= token_types.len(),
                forall|j: int| 0 <= j < i ==> !check(self.toks(), self.current as int, #[trigger] token_types@[j]),
            decreases token_types.len() - i,
        {
            if self.check(token_types[i]) {
                self.advance();
                return true;
            }
            i += 1;
        }
        proof {
            if matched(old(self).toks(), old(self).current as int, token_types@) {
                let j = choose|j: int| 0 <= j < token_types@.len() && token_types@[j] == old(self).toks()[old(self).current as int].ttype;
                assert(!check(self.toks(), self.current as int, token_types@[j]));
            }
        }
        false
    }

    fn consume(&mut self, ttype: TokenType, message: &str) -> (r: Result<Token, String>)
        requires
            old(self).wf(),
        ensures
            final(self).wf(),
            Parser::grew(*old(self), *final(self)),
            (res_token(r), final(self).ps()) == p_consume(old(self).toks(), old(self).ps(), ttype, message@),
    {
        if self.check(ttype) {
            self.advance();
            return Ok(self.previous());
        }
        Err(error(message, self.peek()))
    }

    fn get_next_id(&mut self) -> (id: usize)
        requires
            old(self).wf(),
            old(self).next_id < old(self).current,
        ensures
            final(self).wf(),
            id == old(self).next_id,
            final(self).ps() == take_id(old(self).ps()),
            final(self).tokens@ == old(self).tokens@,
            final(self).current == old(self).current,
            final(self).next_id == old(self).next_id + 1,
    {
        let id = self.next_id;
        self.next_id = self.next_id + 1;
        id
    }

    // -----------------------------------------------------------------
    // Expressions
    // -----------------------------------------------------------------

    fn expression(&mut self) -> (r: Result<Expr, String>)
        requires
            old(self).wf(),
            startable(old(self).toks(), old(self).current as int),
        ensures
            Parser::expr_post(*old(self), *final(self), r, p_expression(old(self).toks(), old(self).ps())),
            Parser::progressed(*old(self), *final(self)),
        decreases old(self).tokens@.len() - old(self).current, 21nat,
    {
        proof {
            lemma_unfold_expression(self.toks(), self.ps());
        }
        self.assignment()
    }

    fn assignment(&mut self) -> (r: Result<Expr, String>)
        requires
            old(self).wf(),
            startable(old(self).toks(), old(self).current as int),
        ensures
            Parser::expr_post(*old(self), *final(self), r, p_assignment(old(self).toks(), old(self).ps())),
            Parser::progressed(*old(self), *final(self)),
        decreases old(self).tokens@.len() - old(self).current, 20nat,
    {
        proof {
            lemma_unfold_assignment(self.toks(), self.ps());
        }
        let ghost toks = self.toks();
        let expr = match self.or() {
            Ok(v) => v,
            Err(m) => return Err(m),
        };
        let ghost p1 = self.current as int;
        if self.match_token(TokenType::Equal) {
            let equals_pos = self.current - 1;
            let value = match self.assignment() {
            Ok(v) => v,
            Err(m) => return Err(m),
        };
            match expr {
                Expr::Variable { name, .. } => {
                    let id = self.get_next_id();
                    return Ok(Expr::Assign { id, name, value: Box::new(value) });
                },
                Expr::Get { name, object } => {
                    return Ok(Expr::SetField { name, object, value: Box::new(value) });
                },
                _ => {
                    return Err(error("Invalid assignment target.", &self.tokens[equals_pos]));
                },
            }
        }
        Ok(expr)
    }

    fn or(&mut self) -> (r: Result<Expr, String>)
        requires
            old(self).wf(),
            startable(old(self).toks(), old(self).current as int),
        ensures
            Parser::expr_post(*old(self), *final(self), r, p_or(old(self).toks(), old(self).ps())),
            Parser::progressed(*old(self), *final(self)),
        decreases old(self).tokens@.len() - old(self).current, 19nat,
    {
        proof {
            lemma_unfold_or(self.toks(), self.ps());
        }
        let ghost toks = self.toks();
        let ghost target = p_or(toks, self.ps());
        let mut expr = match self.and() {
            Ok(v) => v,
            Err(m) => return Err(m),
        };
        loop
            invariant
                target == p_or(old(self).toks(), old(self).ps()),
                toks == old(self).toks(),
                self.wf(),
                Parser::grew(*old(self), *self),
                self.toks() == toks,
                old(self).current < self.current || at_end(toks, old(self).current as int),
                p_or_rest(toks, self.ps(), expr@) == target,
            ensures
                self.wf(),
                Parser::grew(*old(self), *self),
                old(self).current < self.current || at_end(toks, old(self).current as int),
                (Ok::<SExpr, Seq<char>>(expr@), self.ps()) == target,
            decreases self.tokens@.len() - self.current,
        {
            proof {
                lemma_unfold_or_rest(self.toks(), self.ps(), expr@);
            }
            if !self.match_token(TokenType::Or) {
                break;
            }
            let operator = self.previous();
            let right = match self.and() {
                Ok(v) => v,
                Err(m) => return Err(m),
            };
            expr = Expr::Logical { left: Box::new(expr), right: Box::new(right), operator };
        }
        Ok(expr)
    }

    fn and(&mut self) -> (r: Result<Expr, String>)
        requires
            old(self).wf(),
            startable(old(self).toks(), old(self).current as int),
        ensures
            Parser::expr_post(*old(self), *final(self), r, p_and(old(self).toks(), old(self).ps())),
            Parser::progressed(*old(self), *final(self)),
        decreases old(self).tokens@.len() - old(self).current, 18nat,
    {
        proof {
            lemma_unfold_and(self.toks(), self.ps());
        }
        let ghost toks = self.toks();
        let ghost target = p_and(toks, self.ps());
        let mut expr = match self.equality() {
            Ok(v) => v,
            Err(m) => return Err(m),
        };
        loop
            invariant
                target == p_and(old(self).toks(), old(self).ps()),
                toks == old(self).toks(),
                self.wf(),
                Parser::grew(*old(self), *self),
                self.toks() == toks,
                old(self).current < self.current || at_end(toks, old(self).current as int),
                p_and_rest(toks, self.ps(), expr@) == target,
            ensures
                self.wf(),
                Parser::grew(*old(self), *self),
                old(self).current < self.current || at_end(toks, old(self).current as int),
                (Ok::<SExpr, Seq<char>>(expr@), self.ps()) == target,
            decreases self.tokens@.len() - self.current,
        {
            proof {
                lemma_unfold_and_rest(self.toks(), self.ps(), expr@);
            }
            if !self.match_token(TokenType::And) {
                break;
            }
            let operator = self.previous();
            let right = match self.equality() {
                Ok(v) => v,
                Err(m) => return Err(m),
            };
            expr = Expr::Logical { left: Box::new(expr), right: Box::new(right), operator };
        }
        Ok(expr)
    }

    fn equality(&mut self) -> (r: Result<Expr, String>)
        requires
            old(self).wf(),
            startable(old(self).toks(), old(self).current as int),
        ensures
            Parser::expr_post(*old(self), *final(self), r, p_equality(old(self).toks(), old(self).ps())),
            Parser::progressed(*old(self), *final(self)),
        decreases old(self).tokens@.len() - old(self).current, 17nat,
    {
        proof {
            lemma_unfold_equality(self.toks(), self.ps());
        }
        let ghost toks = self.toks();
        let ghost target = p_equality(toks, self.ps());
        let mut expr = match self.comparison() {
            Ok(v) => v,
            Err(m) => return Err(m),
        };
        let ops = [TokenType::BangEqual, TokenType::EqualEqual];
        assert(ops@ == seq![TokenType::BangEqual, TokenType::EqualEqual]);
        loop
            invariant
                target == p_equality(old(self).toks(), old(self).ps()),
                toks == old(self).toks(),
                ops@ == seq![TokenType::BangEqual, TokenType::EqualEqual],
                self.wf(),
                Parser::grew(*old(self), *self),
                self.toks() == toks,
                old(self).current < self.current || at_end(toks, old(self).current as int),
                p_equality_rest(toks, self.ps(), expr@) == target,
            ensures
                self.wf(),
                Parser::grew(*old(self), *self),
                old(self).current < self.current || at_end(toks, old(self).current as int),
                (Ok::<SExpr, Seq<char>>(expr@), self.ps()) == target,
            decreases self.tokens@.len() - self.current,
        {
            proof {
                lemma_unfold_equality_rest(self.toks(), self.ps(), expr@);
            }
            if !self.match_token_type(&ops) {
                break;
            }
            let operator = self.previous();
            let expr_right = match self.comparison() {
            Ok(v) => v,
            Err(m) => return Err(m),
        };
            expr = Expr::Binary { left: Box::new(expr), right: Box::new(expr_right), operator };
        }
        Ok(expr)
    }

    fn comparison(&mut self) -> (r: Result<Expr, String>)
        requires
            old(self).wf(),
            startable(old(self).toks(), old(self).current as int),
        ensures
            Parser::expr_post(*old(self), *final(self), r, p_comparison(old(self).toks(), old(self).ps())),
            Parser::progressed(*old(self), *final(self)),
        decreases old(self).tokens@.len() - old(self).current, 15nat,
    {
        proof {
            lemma_unfold_comparison(self.toks(), self.ps());
        }
        let ghost toks = self.toks();
        let ghost target = p_comparison(toks, self.ps());
        let mut expr = match self.term() {
            Ok(v) => v,
            Err(m) => return Err(m),
        };
        let ops = [TokenType::Greater, TokenType::GreaterEqual, TokenType::Less, TokenType::LessEqual];
        assert(ops@ == seq![TokenType::Greater, TokenType::GreaterEqual, TokenType::Less, TokenType::LessEqual]);
        loop
            invariant
                target == p_comparison(old(self).toks(), old(self).ps()),
                toks == old(self).toks(),
                ops@ == seq![TokenType::Greater, TokenType::GreaterEqual, TokenType::Less, TokenType::LessEqual],
                self.wf(),
                Parser::grew(*old(self), *self),
                self.toks() == toks,
                old(self).current < self.current || at_end(toks, old(self).current as int),
                p_comparison_rest(toks, self.ps(), expr@) == target,
            ensures
                self.wf(),
                Parser::grew(*old(self), *self),
                old(self).current < self.current || at_end(toks, old(self).current as int),
                (Ok::<SExpr, Seq<char>>(expr@), self.ps()) == target,
            decreases self.tokens@.len() - self.current,
        {
            proof {
                lemma_unfold_comparison_rest(self.toks(), self.ps(), expr@);
            }
            if !self.match_token_type(&ops) {
                break;
            }
            let operator = self.previous();
            let expr_right = match self.term() {
            Ok(v) => v,
            Err(m) => return Err(m),
        };
            expr = Expr::Binary { left: Box::new(expr), right: Box::new(expr_right), operator };
        }
        Ok(expr)
    }

    fn term(&mut self) -> (r: Result<Expr, String>)
        requires
            old(self).wf(),
            startable(old(self).toks(), old(self).current as int),
        ensures
            Parser::expr_post(*old(self), *final(self), r, p_term(old(self).toks(), old(self).ps())),
            Parser::progressed(*old(self), *final(self)),
        decreases old(self).tokens@.len() - old(self).current, 13nat,
    {
        proof {
            lemma_unfold_term(self.toks(), self.ps());
        }
        let ghost toks = self.toks();
        let ghost target = p_term(toks, self.ps());
        let mut expr = match self.factor() {
            Ok(v) => v,
            Err(m) => return Err(m),
        };
        let ops = [TokenType::Plus, TokenType::Minus];
        assert(ops@ == seq![TokenType::Plus, TokenType::Minus]);
        loop
            invariant
                target == p_term(old(self).toks(), old(self).ps()),
                toks == old(self).toks(),
                ops@ == seq![TokenType::Plus, TokenType::Minus],
                self.wf(),
                Parser::grew(*old(self), *self),
                self.toks() == toks,
                old(self).current < self.current || at_end(toks, old(self).current as int),
                p_term_rest(toks, self.ps(), expr@) == target,
            ensures
                self.wf(),
                Parser::grew(*old(self), *self),
                old(self).current < self.current || at_end(toks, old(self).current as int),
                (Ok::<SExpr, Seq<char>>(expr@), self.ps()) == target,
            decreases self.tokens@.len() - self.current,
        {
            proof {
                lemma_unfold_term_rest(self.toks(), self.ps(), expr@);
            }
            if !self.match_token_type(&ops) {
                break;
            }
            let operator = self.previous();
            let expr_right = match self.factor() {
                Ok(v) => v,
                Err(m) => return Err(m),
            };
            expr = Expr::Binary { left: Box::new(expr), right: Box::new(expr_right), operator };
        }
        Ok(expr)
    }

    fn factor(&mut self) -> (r: Result<Expr, String>)
        requires
            old(self).wf(),
            startable(old(self).toks(), old(self).current as int),
        ensures
            Parser::expr_post(*old(self), *final(self), r, p_factor(old(self).toks(), old(self).ps())),
            Parser::progressed(*old(self), *final(self)),
        decreases old(self).tokens@.len() - old(self).current, 11nat,
    {
        proof {
            lemma_unfold_factor(self.toks(), self.ps());
        }
        let ghost toks = self.toks();
        let ghost target = p_factor(toks, self.ps());
        let mut expr = match self.unary() {
            Ok(v) => v,
            Err(m) => return Err(m),
        };
        let ops = [TokenType::Star, TokenType::Slash];
        assert(ops@ == seq![TokenType::Star, TokenType::Slash]);
        loop
            invariant
                target == p_factor(old(self).toks(), old(self).ps()),
                toks == old(self).toks(),
                ops@ == seq![TokenType::Star, TokenType::Slash],
                self.wf(),
                Parser::grew(*old(self), *self),
                self.toks() == toks,
                old(self).current < self.current || at_end(toks, old(self).current as int),
                p_factor_rest(toks, self.ps(), expr@) == target,
            ensures
                self.wf(),
                Parser::grew(*old(self), *self),
                old(self).current < self.current || at_end(toks, old(self).current as int),
                (Ok::<SExpr, Seq<char>>(expr@), self.ps()) == target,
            decreases self.tokens@.len() - self.current,
        {
            proof {
                lemma_unfold_factor_rest(self.toks(), self.ps(), expr@);
            }
            if !self.match_token_type(&ops) {
                break;
            }
            let operator = self.previous();
            let expr_right = match self.unary() {
            Ok(v) => v,
            Err(m) => return Err(m),
        };
            expr = Expr::Binary { left: Box::new(expr), right: Box::new(expr_right), operator };
        }
        Ok(expr)
    }

    fn unary(&mut self) -> (r: Result<Expr, String>)
        requires
            old(self).wf(),
            startable(old(self).toks(), old(self).current as int),
        ensures
            Parser::expr_post(*old(self), *final(self), r, p_unary(old(self).toks(), old(self).ps())),
            Parser::progressed(*old(self), *final(self)),
        decreases old(self).tokens@.len() - old(self).current, 9nat,
    {
        proof {
            lemma_unfold_unary(self.toks(), self.ps());
        }
        let ops = [TokenType::Bang, TokenType::Minus];
        assert(ops@ == seq![TokenType::Bang, TokenType::Minus]);
        if self.match_token_type(&ops) {
            let operator = self.previous();
            let expr_right = match self.unary() {
            Ok(v) => v,
            Err(m) => return Err(m),
        };
            Ok(Expr::Unary { right: Box::new(expr_right), operator })
        } else {
            self.call()
        }
    }

    fn call(&mut self) -> (r: Result<Expr, String>)
        requires
            old(self).wf(),
            startable(old(self).toks(), old(self).current as int),
        ensures
            Parser::expr_post(*old(self), *final(self), r, p_call(old(self).toks(), old(self).ps())),
            Parser::progressed(*old(self), *final(self)),
        decreases old(self).tokens@.len() - old(self).current, 8nat,
    {
        proof {
            lemma_unfold_call(self.toks(), self.ps());
        }
        let ghost toks = self.toks();
        let ghost target = p_call(toks, self.ps());
        let mut expr = match self.primary() {
            Ok(v) => v,
            Err(m) => return Err(m),
        };
        loop
            invariant_except_break
                p_call_rest(toks, self.ps(), expr@) == target,
            invariant
                target == p_call(old(self).toks(), old(self).ps()),
                toks == old(self).toks(),
                self.wf(),
                Parser::grew(*old(self), *self),
                self.toks() == toks,
                old(self).current < self.current || at_end(toks, old(self).current as int),
                self.current >= 1,
            ensures
                self.wf(),
                Parser::grew(*old(self), *self),
                old(self).current < self.current || at_end(toks, old(self).current as int),
                (Ok::<SExpr, Seq<char>>(expr@), self.ps()) == target,
            decreases self.tokens@.len() - self.current,
        {
            proof {
                lemma_unfold_call_rest(self.toks(), self.ps(), expr@);
            }
            let ghost q = self.ps();
            if self.match_token(TokenType::LeftParen) {
                expr = match self.finish_call(expr) {
                    Ok(v) => v,
                    Err(m) => return Err(m),
                };
            } else if self.match_token(TokenType::Dot) {
                let name = match self.consume(TokenType::Identifier, "Expected property name after '.'.") {
                    Ok(v) => v,
                    Err(m) => return Err(m),
                };
                expr = Expr::Get { name, object: Box::new(expr) };
            } else {
                break;
            }
        }
        Ok(expr)
    }

    fn finish_call(&mut self, callee: Expr) -> (r: Result<Expr, String>)
        requires
            old(self).wf(),
            old(self).current >= 1,
        ensures
            Parser::expr_post(*old(self), *final(self), r, p_finish_call(old(self).toks(), old(self).ps(), callee@)),
        decreases old(self).tokens@.len() - old(self).current, 23nat,
    {
        proof {
            lemma_unfold_finish_call(self.toks(), self.ps(), callee@);
        }
        let ghost toks = self.toks();
        let mut arguments: Vec<Expr> = Vec::new();
        if !self.check(TokenType::RightParen) {
            let ghost target = p_arguments(toks, self.ps(), seq![]);
            assert(exprs_model(arguments@) =~= Seq::<SExpr>::empty());
            loop
                invariant_except_break
                    p_arguments(toks, self.ps(), exprs_model(arguments@)) == target,
                invariant
                    target == p_arguments(old(self).toks(), old(self).ps(), Seq::<SExpr>::empty()),
                    !check(old(self).toks(), old(self).current as int, TokenType::RightParen),
                    toks == old(self).toks(),
                    self.wf(),
                    Parser::grew(*old(self), *self),
                    self.toks() == toks,
                    self.current >= 1,
                    arguments@.len() == exprs_model(arguments@).len(),
                ensures
                    self.wf(),
                    Parser::grew(*old(self), *self),
                    self.current >= 1,
                    (Ok::<Seq<SExpr>, Seq<char>>(exprs_model(arguments@)), self.ps()) == target,
                decreases self.tokens@.len() - self.current,
            {
                proof {
                    lemma_unfold_arguments(self.toks(), self.ps(), exprs_model(arguments@));
                    lemma_unfold_finish_call(old(self).toks(), old(self).ps(), callee@);
                }
                if arguments.len() >= 255 {
                    return Err(String::from_str("Cannot have more than 255 arguments."));
                }
                let expr = match self.expression() {
            Ok(v) => v,
            Err(m) => return Err(m),
        };
                proof {
                    lemma_exprs_model_push(arguments@, expr);
                }
                arguments.push(expr);
                if !self.match_token(TokenType::Comma) {
                    break;
                }
            }
        }
        let right_parenthesis = match self.consume(TokenType::RightParen, "Expected ')' after arguments.") {
            Ok(v) => v,
            Err(m) => return Err(m),
        };
        Ok(Expr::Call { callee: Box::new(callee), right_parenthesis, arguments })
    }

    fn primary(&mut self) -> (r: Result<Expr, String>)
        requires
            old(self).wf(),
            startable(old(self).toks(), old(self).current as int),
        ensures
            Parser::expr_post(*old(self), *final(self), r, p_primary(old(self).toks(), old(self).ps())),
            Parser::progressed(*old(self), *final(self)),
            final(self).current >= 1,
        decreases old(self).tokens@.len() - old(self).current, 6nat,
    {
        proof {
            lemma_unfold_primary(self.toks(), self.ps());
        }
        if self.match_token(TokenType::False) {
            return Ok(Expr::Literal { value: LiteralType::BoolValue(false) });
        }
        if self.match_token(TokenType::True) {
            return Ok(Expr::Literal { value: LiteralType::BoolValue(true) });
        }
        if self.match_token(TokenType::Nil) {
            return Ok(Expr::Literal { value: LiteralType::NoneValue });
        }
        let literals = [TokenType::Number, TokenType::String];
        assert(literals@ == seq![TokenType::Number, TokenType::String]);
        if self.match_token_type(&literals) {
            return Ok(Expr::Literal { value: self.previous().literal.clone() });
        }
        if self.match_token(TokenType::Super) {
            let keyword = self.previous();
            match self.consume(TokenType::Dot, "Expected '.' after 'super'.") {
                Ok(_) => {},
                Err(m) => return Err(m),
            }
            let method = match self.consume(TokenType::Identifier, "Expected superclass method name.") {
            Ok(v) => v,
            Err(m) => return Err(m),
        };
            let id = self.get_next_id();
            return Ok(Expr::Super { id, keyword, method });
        }
        if self.match_token(TokenType::This) {
            let id = self.get_next_id();
            return Ok(Expr::This { id, keyword: self.previous() });
        }
        if self.match_token(TokenType::Identifier) {
            let id = self.get_next_id();
            return Ok(Expr::Variable { id, name: self.previous() });
        }
        if self.match_token(TokenType::LeftParen) {
            let expr = match self.expression() {
            Ok(v) => v,
            Err(m) => return Err(m),
        };
            match self.consume(TokenType::RightParen, "Expect ')' after expression") {
                Ok(_) => {},
                Err(m) => return Err(m),
            }
            return Ok(Expr::Grouping { expression: Box::new(expr) });
        }
        self.advance();
        let prev = self.previous();
        let mut message = String::from_str("Unexpected primary token ");
        push_str(&mut message, token_type_name(prev.ttype));
        Err(error_string(&message, &prev))
    }


    // -----------------------------------------------------------------
    // Statements
    // -----------------------------------------------------------------

    /// Parses the whole token sequence: the statements when every
    /// declaration parsed, else the error message of each declaration that
    /// failed. It reads up to the end-of-file token.
    pub fn parse(&mut self) -> (r: Result<Vec<Stmt>, Vec<String>>)
        requires
            old(self).wf(),
        ensures
            final(self).wf(),
            final(self).toks() == old(self).toks(),
            at_end(final(self).toks(), final(self).ps().pos),
            parse_outcome(r) == parse_result(old(self).toks(), old(self).ps()),
    {
        let ghost toks = self.toks();
        let ghost target = p_program(toks, self.ps(), seq![], seq![]);
        let mut statements: Vec<Stmt> = Vec::new();
        let mut error_messages: Vec<String> = Vec::new();
        assert(stmts_model(statements@) =~= Seq::<SStmt>::empty());
        assert(strings_model(error_messages@) =~= Seq::<Seq<char>>::empty());
        while !self.is_at_end()
            invariant
                self.wf(),
                self.toks() == toks,
                toks == old(self).toks(),
                Parser::grew(*old(self), *self),
                target == p_program(toks, old(self).ps(), seq![], seq![]),
                p_program(toks, self.ps(), stmts_model(statements@), strings_model(error_messages@)) == target,
            decreases self.tokens@.len() - self.current,
        {
            proof {
                lemma_unfold_program(toks, self.ps(), stmts_model(statements@), strings_model(error_messages@));
            }
            let ghost s0 = statements@;
            let ghost e0 = error_messages@;
            match self.declaration() {
                Ok(stmt) => {
                    proof {
                        lemma_stmts_model_push(s0, stmt);
                    }
                    statements.push(stmt);
                },
                Err(message) => {
                    proof {
                        lemma_strings_model_push(e0, message);
                    }
                    error_messages.push(message);
                },
            }
        }
        proof {
            lemma_unfold_program(toks, self.ps(), stmts_model(statements@), strings_model(error_messages@));
        }
        if error_messages.len() == 0 {
            Ok(statements)
        } else {
            Err(error_messages)
        }
    }

    fn declaration(&mut self) -> (r: Result<Stmt, String>)
        requires
            old(self).wf(),
            startable(old(self).toks(), old(self).current as int),
        ensures
            Parser::stmt_post(*old(self), *final(self), r, p_declaration(old(self).toks(), old(self).ps())),
            Parser::progressed(*old(self), *final(self)),
        decreases old(self).tokens@.len() - old(self).current, 41nat,
    {
        proof {
            lemma_unfold_declaration(self.toks(), self.ps());
        }
        if self.match_token(TokenType::Class) {
            return self.class_declaration();
        }
        if self.match_token(TokenType::Fun) {
            return self.function_declaration("function");
        }
        if self.match_token(TokenType::Var) {
            return self.var_declaration();
        }
        self.statement()
    }

    fn class_declaration(&mut self) -> (r: Result<Stmt, String>)
        requires
            old(self).wf(),
            old(self).current >= 1,
        ensures
            Parser::stmt_post(*old(self), *final(self), r, p_class_declaration(old(self).toks(), old(self).ps())),
        decreases old(self).tokens@.len() - old(self).current, 32nat,
    {
        proof {
            lemma_unfold_class_declaration(self.toks(), self.ps());
        }
        let name = match self.consume(TokenType::Identifier, "Expected class name.") {
            Ok(v) => v,
            Err(m) => return Err(m),
        };
        let superclass = if self.match_token(TokenType::Less) {
            let sup = match self.consume(TokenType::Identifier, "Expected superclass name.") {
                Ok(v) => v,
                Err(m) => return Err(m),
            };
            let id = self.get_next_id();
            Some(Box::new(Expr::Variable { id, name: sup }))
        } else {
            None
        };
        match self.consume(TokenType::LeftBrace, "Expected '{' before class body.") {
            Ok(_) => {},
            Err(m) => return Err(m),
        }
        let methods = match self.methods() {
            Ok(v) => v,
            Err(m) => return Err(m),
        };
        match self.consume(TokenType::RightBrace, "Expected '}' after class body") {
            Ok(_) => {},
            Err(m) => return Err(m),
        }
        Ok(Stmt::Class { name, superclass, methods })
    }

    fn function_declaration(&mut self, kind: &str) -> (r: Result<Stmt, String>)
        requires
            old(self).wf(),
            old(self).current >= 1,
        ensures
            Parser::stmt_post(*old(self), *final(self), r, p_function(old(self).toks(), old(self).ps(), kind@)),
            r is Ok ==> old(self).current < final(self).current,
        decreases old(self).tokens@.len() - old(self).current, 30nat,
    {
        proof {
            lemma_unfold_function(self.toks(), self.ps(), kind@);
        }
        let mut message = String::from_str("Expected ");
        push_str(&mut message, kind);
        push_str(&mut message, " name.");
        let name = match self.consume(TokenType::Identifier, message.as_str()) {
            Ok(v) => v,
            Err(m) => return Err(m),
        };
        let mut message = String::from_str("Expected '(' after ");
        push_str(&mut message, kind);
        push_str(&mut message, " name.");
        match self.consume(TokenType::LeftParen, message.as_str()) {
            Ok(_) => {},
            Err(m) => return Err(m),
        }
        let parameters = if !self.check(TokenType::RightParen) {
            match self.parameters() {
                Ok(v) => v,
                Err(m) => return Err(m),
            }
        } else {
            let parameters: Vec<Token> = Vec::new();
            assert(tokens_model(parameters@) =~= Seq::<SToken>::empty());
            parameters
        };
        match self.consume(TokenType::RightParen, "Expected '(' after parameters.") {
            Ok(_) => {},
            Err(m) => return Err(m),
        }
        let mut message = String::from_str("Expected '{' before ");
        push_str(&mut message, kind);
        push_str(&mut message, " body.");
        match self.consume(TokenType::LeftBrace, message.as_str()) {
            Ok(_) => {},
            Err(m) => return Err(m),
        }
        let body = match self.block_statement() {
            Ok(v) => v,
            Err(m) => return Err(m),
        };
        Ok(Stmt::Function { name, parameters, body })
    }

    fn parameters(&mut self) -> (r: Result<Vec<Token>, String>)
        requires
            old(self).wf(),
            old(self).current >= 1,
        ensures
            final(self).wf(),
            Parser::grew(*old(self), *final(self)),
            (res_tokens(r), final(self).ps()) == p_parameters(old(self).toks(), old(self).ps(), seq![]),
        decreases old(self).tokens@.len() - old(self).current, 26nat,
    {
        let ghost toks = self.toks();
        let ghost target = p_parameters(toks, self.ps(), seq![]);
        let mut parameters: Vec<Token> = Vec::new();
        assert(tokens_model(parameters@) =~= Seq::<SToken>::empty());
        loop
            invariant_except_break
                p_parameters(toks, self.ps(), tokens_model(parameters@)) == target,
            invariant
                self.wf(),
                self.toks() == toks,
                toks == old(self).toks(),
                Parser::grew(*old(self), *self),
                self.current >= 1,
                target == p_parameters(toks, old(self).ps(), seq![]),
            ensures
                self.wf(),
                Parser::grew(*old(self), *self),
                (Ok::<Seq<SToken>, Seq<char>>(tokens_model(parameters@)), self.ps()) == target,
            decreases self.tokens@.len() - self.current,
        {
            proof {
                lemma_unfold_parameters(toks, self.ps(), tokens_model(parameters@));
            }
            if parameters.len() >= 255 {
                return Err(String::from_str("Cannot have more than 255 parameters."));
            }
            let param_name = match self.consume(TokenType::Identifier, "Expected parameter name.") {
                Ok(v) => v,
                Err(m) => return Err(m),
            };
            proof {
                lemma_tokens_model_push(parameters@, param_name);
            }
            parameters.push(param_name);
            if !self.match_token(TokenType::Comma) {
                break;
            }
        }
        Ok(parameters)
    }

    fn methods(&mut self) -> (r: Result<Vec<Stmt>, String>)
        requires
            old(self).wf(),
            old(self).current >= 1,
        ensures
            final(self).wf(),
            Parser::grew(*old(self), *final(self)),
            (res_stmts(r), final(self).ps()) == p_methods(old(self).toks(), old(self).ps(), seq![]),
        decreases old(self).tokens@.len() - old(self).current, 31nat,
    {
        let ghost toks = self.toks();
        let ghost target = p_methods(toks, self.ps(), seq![]);
        let mut methods: Vec<Stmt> = Vec::new();
        assert(stmts_model(methods@) =~= Seq::<SStmt>::empty());
        while !self.check(TokenType::RightBrace) && !self.is_at_end()
            invariant
                self.wf(),
                self.toks() == toks,
                toks == old(self).toks(),
                Parser::grew(*old(self), *self),
                self.current >= 1,
                target == p_methods(toks, old(self).ps(), seq![]),
                p_methods(toks, self.ps(), stmts_model(methods@)) == target,
            decreases self.tokens@.len() - self.current,
        {
            proof {
                lemma_unfold_methods(toks, self.ps(), stmts_model(methods@));
            }
            let fun = match self.function_declaration("method") {
                Ok(v) => v,
                Err(m) => return Err(m),
            };
            proof {
                lemma_stmts_model_push(methods@, fun);
            }
            methods.push(fun);
        }
        proof {
            lemma_unfold_methods(toks, self.ps(), stmts_model(methods@));
        }
        Ok(methods)
    }

    fn var_declaration(&mut self) -> (r: Result<Stmt, String>)
        requires
            old(self).wf(),
            old(self).current >= 1,
        ensures
            Parser::stmt_post(*old(self), *final(self), r, p_var_declaration(old(self).toks(), old(self).ps())),
        decreases old(self).tokens@.len() - old(self).current, 26nat,
    {
        proof {
            lemma_unfold_var_declaration(self.toks(), self.ps());
        }
        let name = match self.consume(TokenType::Identifier, "Expected variable name.") {
            Ok(v) => v,
            Err(m) => return Err(m),
        };
        let mut initializer = None;
        if self.match_token(TokenType::Equal) {
            let expr = match self.expression() {
                Ok(v) => v,
                Err(m) => return Err(m),
            };
            initializer = Some(Box::new(expr));
        }
        match self.consume(TokenType::Semicolon, "Expected ';' after variable declaration.") {
            Ok(_) => {},
            Err(m) => return Err(m),
        }
        Ok(Stmt::Var { name, initializer })
    }

    fn statement(&mut self) -> (r: Result<Stmt, String>)
        requires
            old(self).wf(),
            startable(old(self).toks(), old(self).current as int),
        ensures
            Parser::stmt_post(*old(self), *final(self), r, p_statement(old(self).toks(), old(self).ps())),
            Parser::progressed(*old(self), *final(self)),
        decreases old(self).tokens@.len() - old(self).current, 40nat,
    {
        proof {
            lemma_unfold_statement(self.toks(), self.ps());
        }
        if self.match_token(TokenType::Break) {
            return self.break_statement();
        }
        if self.match_token(TokenType::Continue) {
            return self.continue_statement();
        }
        if self.match_token(TokenType::For) {
            return self.for_statement();
        }
        if self.match_token(TokenType::If) {
            return self.if_statement();
        }
        if self.match_token(TokenType::Print) {
            return self.print_statement();
        }
        if self.match_token(TokenType::Return) {
            return self.return_statement();
        }
        if self.match_token(TokenType::While) {
            return self.while_statement();
        }
        if self.match_token(TokenType::LeftBrace) {
            let statements = match self.block_statement() {
                Ok(v) => v,
                Err(m) => return Err(m),
            };
            return Ok(Stmt::Block { statements });
        }
        self.expression_statement()
    }

    fn break_statement(&mut self) -> (r: Result<Stmt, String>)
        requires
            old(self).wf(),
        ensures
            Parser::stmt_post(*old(self), *final(self), r, p_break_statement(old(self).toks(), old(self).ps())),
    {
        proof {
            lemma_unfold_break_statement(self.toks(), self.ps());
        }
        match self.consume(TokenType::Semicolon, "Missing ';' after 'break'.") {
            Ok(_) => {},
            Err(m) => return Err(m),
        }
        if self.is_loop_open {
            Ok(Stmt::Break)
        } else {
            Err(String::from_str("'break' outside loop."))
        }
    }

    fn continue_statement(&mut self) -> (r: Result<Stmt, String>)
        requires
            old(self).wf(),
        ensures
            Parser::stmt_post(*old(self), *final(self), r, p_continue_statement(old(self).toks(), old(self).ps())),
    {
        proof {
            lemma_unfold_continue_statement(self.toks(), self.ps());
        }
        match self.consume(TokenType::Semicolon, "Missing ';' after 'continue'.") {
            Ok(_) => {},
            Err(m) => return Err(m),
        }
        if self.is_loop_open {
            Ok(Stmt::Continue)
        } else {
            Err(String::from_str("'continue' is outside loop"))
        }
    }

    #[verifier::spinoff_prover]
    #[verifier::rlimit(30)]
    fn for_statement(&mut self) -> (r: Result<Stmt, String>)
        requires
            old(self).wf(),
            old(self).current >= 1,
        ensures
            Parser::stmt_post(*old(self), *final(self), r, p_for_statement(old(self).toks(), old(self).ps())),
        decreases old(self).tokens@.len() - old(self).current, 29nat,
    {
        proof {
            lemma_unfold_for_statement(self.toks(), self.ps());
        }
        match self.consume(TokenType::LeftParen, "Expected '(' after 'for'.") {
            Ok(_) => {},
            Err(m) => return Err(m),
        }
        let initializer = match self.for_initializer() {
            Ok(v) => v,
            Err(m) => return Err(m),
        };
        let body = match self.for_rest() {
            Ok(v) => v,
            Err(m) => return Err(m),
        };
        match initializer {
            Some(init) => {
                let mut statements: Vec<Stmt> = Vec::new();
                proof {
                    lemma_stmts_model_push(statements@, init);
                }
                statements.push(init);
                proof {
                    lemma_stmts_model_push(statements@, body);
                }
                statements.push(body);
                assert(stmts_model(statements@) =~= seq![init@, body@]);
                Ok(Stmt::Block { statements })
            },
            None => Ok(body),
        }
    }

    fn for_initializer(&mut self) -> (r: Result<Option<Stmt>, String>)
        requires
            old(self).wf(),
            old(self).current >= 1,
        ensures
            final(self).wf(),
            Parser::grew(*old(self), *final(self)),
            (res_opt_stmt(r), final(self).ps()) == p_for_initializer(old(self).toks(), old(self).ps()),
        decreases old(self).tokens@.len() - old(self).current, 27nat,
    {
        proof {
            lemma_unfold_for_initializer(self.toks(), self.ps());
        }
        let initializer: Option<Stmt> = if self.match_token(TokenType::Semicolon) {
            None
        } else if self.match_token(TokenType::Var) {
            let var_stmt = match self.var_declaration() {
                Ok(v) => v,
                Err(m) => return Err(m),
            };
            Some(var_stmt)
        } else {
            let expr_stmt = match self.expression_statement() {
                Ok(v) => v,
                Err(m) => return Err(m),
            };
            Some(expr_stmt)
        };
        Ok(initializer)
    }

    fn for_rest(&mut self) -> (r: Result<Stmt, String>)
        requires
            old(self).wf(),
            old(self).current >= 1,
        ensures
            Parser::stmt_post(*old(self), *final(self), r, p_for_rest(old(self).toks(), old(self).ps())),
        decreases old(self).tokens@.len() - old(self).current, 28nat,
    {
        proof {
            lemma_unfold_for_rest(self.toks(), self.ps());
        }
        let condition = if !self.check(TokenType::Semicolon) {
            match self.expression() {
                Ok(v) => v,
                Err(m) => return Err(m),
            }
        } else {
            Expr::Literal { value: LiteralType::BoolValue(true) }
        };
        match self.consume(TokenType::Semicolon, "Expect ';' after loop condition.") {
            Ok(_) => {},
            Err(m) => return Err(m),
        }
        let increment = if !self.check(TokenType::RightParen) {
            match self.expression() {
                Ok(v) => Some(v),
                Err(m) => return Err(m),
            }
        } else {
            None
        };
        match self.consume(TokenType::RightParen, "Expected ')' after 'for' clauses.") {
            Ok(_) => {},
            Err(m) => return Err(m),
        }
        let is_outer_loop_open = self.is_loop_open;
        self.is_loop_open = true;
        let body = match self.statement() {
            Ok(v) => v,
            Err(m) => return Err(m),
        };
        self.is_loop_open = is_outer_loop_open;
        Ok(Stmt::While { condition: Box::new(condition), body: Box::new(body), increment })
    }

    fn if_statement(&mut self) -> (r: Result<Stmt, String>)
        requires
            old(self).wf(),
            old(self).current >= 1,
        ensures
            Parser::stmt_post(*old(self), *final(self), r, p_if_statement(old(self).toks(), old(self).ps())),
        decreases old(self).tokens@.len() - old(self).current, 26nat,
    {
        proof {
            lemma_unfold_if_statement(self.toks(), self.ps());
        }
        match self.consume(TokenType::LeftParen, "Expected '(' after 'if'.") {
            Ok(_) => {},
            Err(m) => return Err(m),
        }
        let condition = match self.expression() {
            Ok(v) => v,
            Err(m) => return Err(m),
        };
        match self.consume(TokenType::RightParen, "Expected ')' after if condition.") {
            Ok(_) => {},
            Err(m) => return Err(m),
        }
        let then_branch = match self.statement() {
            Ok(v) => v,
            Err(m) => return Err(m),
        };
        let else_branch = if self.match_token(TokenType::Else) {
            match self.statement() {
                Ok(v) => Some(Box::new(v)),
                Err(m) => return Err(m),
            }
        } else {
            None
        };
        Ok(Stmt::If { condition: Box::new(condition), then_branch: Box::new(then_branch), else_branch })
    }

    fn print_statement(&mut self) -> (r: Result<Stmt, String>)
        requires
            old(self).wf(),
            old(self).current >= 1,
        ensures
            Parser::stmt_post(*old(self), *final(self), r, p_print_statement(old(self).toks(), old(self).ps())),
        decreases old(self).tokens@.len() - old(self).current, 25nat,
    {
        proof {
            lemma_unfold_print_statement(self.toks(), self.ps());
        }
        let expr = match self.expression() {
            Ok(v) => v,
            Err(m) => return Err(m),
        };
        match self.consume(TokenType::Semicolon, "Expected ';' after value.") {
            Ok(_) => {},
            Err(m) => return Err(m),
        }
        Ok(Stmt::Print { expression: Box::new(expr) })
    }

    fn return_statement(&mut self) -> (r: Result<Stmt, String>)
        requires
            old(self).wf(),
            old(self).current >= 1,
        ensures
            Parser::stmt_post(*old(self), *final(self), r, p_return_statement(old(self).toks(), old(self).ps())),
        decreases old(self).tokens@.len() - old(self).current, 25nat,
    {
        proof {
            lemma_unfold_return_statement(self.toks(), self.ps());
        }
        let keyword = self.previous();
        let value = if self.check(TokenType::Semicolon) {
            Expr::Literal { value: LiteralType::NoneValue }
        } else {
            match self.expression() {
                Ok(v) => v,
                Err(m) => return Err(m),
            }
        };
        match self.consume(TokenType::Semicolon, "Expected ';' after return values") {
            Ok(_) => {},
            Err(m) => return Err(m),
        }
        Ok(Stmt::Return { keyword, value: Box::new(value) })
    }

    fn while_statement(&mut self) -> (r: Result<Stmt, String>)
        requires
            old(self).wf(),
            old(self).current >= 1,
        ensures
            Parser::stmt_post(*old(self), *final(self), r, p_while_statement(old(self).toks(), old(self).ps())),
        decreases old(self).tokens@.len() - old(self).current, 26nat,
    {
        proof {
            lemma_unfold_while_statement(self.toks(), self.ps());
        }
        let is_outer_loop_open = self.is_loop_open;
        self.is_loop_open = true;
        match self.consume(TokenType::LeftParen, "Expected '(' after 'while'.") {
            Ok(_) => {},
            Err(m) => return Err(m),
        }
        let condition = match self.expression() {
            Ok(v) => v,
            Err(m) => return Err(m),
        };
        match self.consume(TokenType::RightParen, "Expected ')' after condition") {
            Ok(_) => {},
            Err(m) => return Err(m),
        }
        let body = match self.statement() {
            Ok(v) => v,
            Err(m) => return Err(m),
        };
        self.is_loop_open = is_outer_loop_open;
        Ok(Stmt::While { condition: Box::new(condition), body: Box::new(body), increment: None })
    }

    fn expression_statement(&mut self) -> (r: Result<Stmt, String>)
        requires
            old(self).wf(),
            startable(old(self).toks(), old(self).current as int),
        ensures
            Parser::stmt_post(*old(self), *final(self), r, p_expression_statement(old(self).toks(), old(self).ps())),
            Parser::progressed(*old(self), *final(self)),
        decreases old(self).tokens@.len() - old(self).current, 24nat,
    {
        proof {
            lemma_unfold_expression_statement(self.toks(), self.ps());
        }
        let expr = match self.expression() {
            Ok(v) => v,
            Err(m) => return Err(m),
        };
        match self.consume(TokenType::Semicolon, "Expected ';' after expression.") {
            Ok(_) => {},
            Err(m) => return Err(m),
        }
        Ok(Stmt::Expression { expression: Box::new(expr) })
    }

    fn block_statement(&mut self) -> (r: Result<Vec<Stmt>, String>)
        requires
            old(self).wf(),
            old(self).current >= 1,
        ensures
            final(self).wf(),
            Parser::grew(*old(self), *final(self)),
            (res_stmts(r), final(self).ps()) == p_block(old(self).toks(), old(self).ps()),
        decreases old(self).tokens@.len() - old(self).current, 43nat,
    {
        proof {
            lemma_unfold_block(self.toks(), self.ps());
        }
        let ghost toks = self.toks();
        let ghost target = p_block_rest(toks, self.ps(), seq![]);
        let mut statements: Vec<Stmt> = Vec::new();
        assert(stmts_model(statements@) =~= Seq::<SStmt>::empty());
        while !self.check(TokenType::RightBrace) && !self.is_at_end()
            invariant
                self.wf(),
                self.toks() == toks,
                toks == old(self).toks(),
                Parser::grew(*old(self), *self),
                self.current >= 1,
                target == p_block_rest(toks, old(self).ps(), seq![]),
                p_block(toks, old(self).ps()) == target,
                p_block_rest(toks, self.ps(), stmts_model(statements@)) == target,
            decreases self.tokens@.len() - self.current,
        {
            proof {
                lemma_unfold_block_rest(toks, self.ps(), stmts_model(statements@));
            }
            let decl = match self.declaration() {
                Ok(v) => v,
                Err(m) => return Err(m),
            };
            proof {
                lemma_stmts_model_push(statements@, decl);
            }
            statements.push(decl);
        }
        proof {
            lemma_unfold_block_rest(toks, self.ps(), stmts_model(statements@));
        }
        match self.consume(TokenType::RightBrace, "Expect '}' after block") {
            Ok(_) => {},
            Err(m) => return Err(m),
        }
        Ok(statements)
    }
}

/// The name of a token type, as its debug form spells it.
pub fn token_type_name(t: TokenType) -> (s: &'static str)
    ensures
        s@ == token_type_text(t),
{
    match t {
        TokenType::LeftParen => "LeftParen",
        TokenType::RightParen => "RightParen",
        TokenType::LeftBrace => "LeftBrace",
        TokenType::RightBrace => "RightBrace",
        TokenType::Comma => "Comma",
        TokenType::Dot => "Dot",
        TokenType::Minus => "Minus",
        TokenType::Plus => "Plus",
        TokenType::Semicolon => "Semicolon",
        TokenType::Slash => "Slash",
        TokenType::Star => "Star",
        TokenType::Bang => "Bang",
        TokenType::BangEqual => "BangEqual",
        TokenType::Equal => "Equal",
        TokenType::EqualEqual => "EqualEqual",
        TokenType::Greater => "Greater",
        TokenType::GreaterEqual => "GreaterEqual",
        TokenType::Less => "Less",
        TokenType::LessEqual => "LessEqual",
        TokenType::Identifier => "Identifier",
        TokenType::String => "String",
        TokenType::Number => "Number",
        TokenType::And => "And",
        TokenType::Break => "Break",
        TokenType::Class => "Class",
        TokenType::Continue => "Continue",
        TokenType::Else => "Else",
        TokenType::False => "False",
        TokenType::Fun => "Fun",
        TokenType::For => "For",
        TokenType::If => "If",
        TokenType::Nil => "Nil",
        TokenType::Or => "Or",
        TokenType::Print => "Print",
        TokenType::Return => "Return",
        TokenType::Static => "Static",
        TokenType::Super => "Super",
        TokenType::This => "This",
        TokenType::True => "True",
        TokenType::Var => "Var",
        TokenType::While => "While",
        TokenType::Eof => "Eof",
    }
}

} // verus!
