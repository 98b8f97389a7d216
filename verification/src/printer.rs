//! Text forms of literals, tokens and expressions: an expression prints as
//! a parenthesised prefix form, as in `(* (- 123) (group 45.67))`.

use vstd::prelude::*;
use vstd::string::StrSliceExecFns;

use crate::ast::{exprs_model, Expr, SExpr};
use crate::parser::token_type_name;
use crate::parser_spec::token_type_text;
use crate::text::{push_char, push_str};
use crate::token::{LiteralType, SLiteral, SToken, Token};

verus! {

/// The index of the first '.' of `t`, or -1.
pub open spec fn dot_index(t: Seq<char>) -> int
    decreases t.len(),
{
    if t.len() == 0 {
        -1
    } else if dot_index(t.drop_last()) >= 0 {
        dot_index(t.drop_last())
    } else if t.last() == '.' {
        t.len() - 1
    } else {
        -1
    }
}

/// `s` without its leading zeros, keeping at least one character.
pub open spec fn trim_leading_zeros(s: Seq<char>) -> Seq<char>
    decreases s.len(),
{
    if s.len() >= 2 && s[0] == '0' {
        trim_leading_zeros(s.subrange(1, s.len() as int))
    } else {
        s
    }
}

/// `s` without its trailing zeros.
pub open spec fn trim_trailing_zeros(s: Seq<char>) -> Seq<char>
    decreases s.len(),
{
    if s.len() >= 1 && s.last() == '0' {
        trim_trailing_zeros(s.drop_last())
    } else {
        s
    }
}

/// The shortest form of the number written `t`: without leading zeros in
/// its whole part, without trailing zeros in its fraction, and without a
/// point when no fraction is left, as `007.50` gives `7.5` and `3.0` gives
/// `3`. A number prints so when `short_number` holds of it; a longer one
/// prints as the nearest double-precision value, which this library does
/// not compute.
pub open spec fn number_text(t: Seq<char>) -> Seq<char> {
    let d = dot_index(t);
    if d < 0 {
        trim_leading_zeros(t)
    } else {
        let whole = trim_leading_zeros(t.take(d));
        let frac = trim_trailing_zeros(t.skip(d + 1));
        if frac.len() == 0 {
            whole
        } else {
            whole + seq!['.'] + frac
        }
    }
}

/// The number written `t` has at most 15 digits, not counting the leading
/// zeros of its whole part: a double-precision value holds it exactly
/// enough that it prints as `number_text(t)`.
pub open spec fn short_number(t: Seq<char>) -> bool {
    let d = dot_index(t);
    if d < 0 {
        trim_leading_zeros(t).len() <= 15
    } else {
        trim_leading_zeros(t.take(d)).len() + (t.len() - d - 1) <= 15
    }
}

/// The literal is no number, or a number that `short_number` admits.
pub open spec fn literal_printable(l: SLiteral) -> bool {
    match l {
        SLiteral::Num(t) => short_number(t),
        _ => true,
    }
}

/// Every number literal in `e` is one that `short_number` admits.
pub open spec fn expr_printable(e: SExpr) -> bool
    decreases e, 0nat,
{
    match e {
        SExpr::Assign { value, .. } => expr_printable(*value),
        SExpr::Binary { left, right, .. } => expr_printable(*left) && expr_printable(*right),
        SExpr::Call { callee, arguments, .. } => expr_printable(*callee) && exprs_printable(arguments),
        SExpr::Get { object, .. } => expr_printable(*object),
        SExpr::Grouping { expression } => expr_printable(*expression),
        SExpr::Literal { value } => literal_printable(value),
        SExpr::Logical { left, right, .. } => expr_printable(*left) && expr_printable(*right),
        SExpr::SetField { object, value, .. } => expr_printable(*object) && expr_printable(*value),
        SExpr::Unary { right, .. } => expr_printable(*right),
        _ => true,
    }
}

/// Every expression of `es` is printable.
pub open spec fn exprs_printable(es: Seq<SExpr>) -> bool
    decreases es, 0nat,
{
    if es.len() == 0 {
        true
    } else {
        exprs_printable(es.drop_last()) && expr_printable(es.last())
    }
}

/// How a literal value prints; nothing prints as the empty text.
pub open spec fn literal_text(l: SLiteral) -> Seq<char> {
    match l {
        SLiteral::Str(s) => s,
        SLiteral::Num(t) => number_text(t),
        SLiteral::Bool(b) => if b {
            "true"@
        } else {
            "false"@
        },
        SLiteral::Nothing => Seq::empty(),
    }
}

/// How a token prints: its type, its text, and its literal value if it has
/// one, separated by spaces.
pub open spec fn token_text(t: SToken) -> Seq<char> {
    if t.literal == SLiteral::Nothing {
        token_type_text(t.ttype) + " "@ + t.lexeme
    } else {
        token_type_text(t.ttype) + " "@ + t.lexeme + " "@ + literal_text(t.literal)
    }
}

/// `(name a b ...)` over the texts of the operands.
pub open spec fn parenthesized(name: Seq<char>, operands: Seq<Seq<char>>) -> Seq<char>
    decreases operands.len(),
{
    if operands.len() == 0 {
        seq!['('] + name + seq![')']
    } else {
        parenthesized(name, operands.drop_last()).drop_last() + seq![' '] + operands.last() + seq![')']
    }
}

/// How an expression prints.
pub open spec fn expr_text(e: SExpr) -> Seq<char>
    decreases e, 0nat,
{
    match e {
        SExpr::Assign { name, value, .. } => name.lexeme + " = "@ + expr_text(*value),
        SExpr::Binary { left, right, operator } => parenthesized(
            operator.lexeme,
            seq![expr_text(*left), expr_text(*right)],
        ),
        SExpr::Call { callee, arguments, .. } => expr_text(*callee) + seq!['('] + joined(arguments) + seq![')'],
        SExpr::Get { name, object } => expr_text(*object) + seq!['.'] + name.lexeme,
        SExpr::Grouping { expression } => parenthesized("group"@, seq![expr_text(*expression)]),
        SExpr::Literal { value } => if value == SLiteral::Nothing {
            "nil"@
        } else {
            literal_text(value)
        },
        SExpr::Logical { left, right, operator } => parenthesized(
            operator.lexeme,
            seq![expr_text(*left), expr_text(*right)],
        ),
        SExpr::SetField { name, object, value } => expr_text(*object) + seq!['.'] + name.lexeme + " = "@
            + expr_text(*value),
        SExpr::Super { method, .. } => "super."@ + method.lexeme,
        SExpr::This { .. } => "this"@,
        SExpr::Unary { right, operator } => parenthesized(operator.lexeme, seq![expr_text(*right)]),
        SExpr::Variable { name, .. } => "var "@ + name.lexeme,
    }
}

/// The texts of `es` joined with ", ".
pub open spec fn joined(es: Seq<SExpr>) -> Seq<char>
    decreases es, 0nat,
{
    if es.len() == 0 {
        Seq::empty()
    } else if es.len() == 1 {
        expr_text(es[0])
    } else {
        joined(es.drop_last()) + ", "@ + expr_text(es.last())
    }
}

proof fn lemma_parenthesized_one(name: Seq<char>, a: Seq<char>)
    ensures
        parenthesized(name, seq![a]) == seq!['('] + name + seq![' '] + a + seq![')'],
{
    assert(seq![a].drop_last() =~= Seq::<Seq<char>>::empty());
    assert(parenthesized(name, Seq::<Seq<char>>::empty()) == seq!['('] + name + seq![')']);
    assert((seq!['('] + name + seq![')']).drop_last() =~= seq!['('] + name);
    assert(seq![a].last() == a);
    assert(parenthesized(name, seq![a]) == parenthesized(name, seq![a].drop_last()).drop_last() + seq![' '] + a + seq![')']);
}

proof fn lemma_parenthesized_two(name: Seq<char>, a: Seq<char>, b: Seq<char>)
    ensures
        parenthesized(name, seq![a, b]) == seq!['('] + name + seq![' '] + a + seq![' '] + b + seq![')'],
{
    lemma_parenthesized_one(name, a);
    assert(seq![a, b].drop_last() =~= seq![a]);
    assert((seq!['('] + name + seq![' '] + a + seq![')']).drop_last() =~= seq!['('] + name + seq![' '] + a);
}

proof fn lemma_dot_index(t: Seq<char>)
    ensures
        -1 <= dot_index(t) < t.len(),
        dot_index(t) >= 0 ==> t[dot_index(t)] == '.',
    decreases t.len(),
{
    if t.len() > 0 {
        lemma_dot_index(t.drop_last());
    }
}

proof fn lemma_dot_index_prefix(t: Seq<char>, k: int)
    requires
        0 <= k <= t.len(),
        dot_index(t.take(k)) >= 0,
    ensures
        dot_index(t) == dot_index(t.take(k)),
    decreases t.len(),
{
    if k == t.len() {
        assert(t.take(k) =~= t);
    } else {
        assert(t.drop_last().take(k) =~= t.take(k));
        lemma_dot_index_prefix(t.drop_last(), k);
    }
}

/// Appends the characters `s[from..to]` of `s` to `out`.
fn push_range(out: &mut String, s: &str, from: usize, to: usize)
    requires
        from <= to <= s@.len(),
    ensures
        final(out)@ == old(out)@ + s@.subrange(from as int, to as int),
{
    let mut i = from;
    while i < to
        invariant
            from <= i <= to,
            to <= s@.len(),
            out@ == old(out)@ + s@.subrange(from as int, i as int),
        decreases to - i,
    {
        let c = s.get_char(i);
        push_char(out, c);
        proof {
            assert(old(out)@ + s@.subrange(from as int, i + 1) =~= old(out)@ + s@.subrange(from as int, i as int)
                + seq![c]);
        }
        i += 1;
    }
}

/// Appends the printed form of the number written `t`.
pub(crate) fn push_number(out: &mut String, t: &str)
    ensures
        final(out)@ == old(out)@ + number_text(t@),
{
    let n = t.unicode_len();
    let ghost w = t@;
    let mut d: usize = 0;
    assert(w.take(0) =~= Seq::<char>::empty());
    while d < n && t.get_char(d) != '.'
        invariant
            d <= n,
            n == w.len(),
            w == t@,
            dot_index(w.take(d as int)) == -1,
        decreases n - d,
    {
        proof {
            assert(w.take(d + 1).drop_last() =~= w.take(d as int));
        }
        d += 1;
    }
    proof {
        lemma_dot_index(w);
        if d < n {
            assert(w.take(d + 1).drop_last() =~= w.take(d as int));
            lemma_dot_index_prefix(w, d + 1);
        } else {
            assert(w.take(n as int) =~= w);
        }
    }
    let mut start: usize = 0;
    assert(w.take(d as int).subrange(0, d as int) =~= w.take(d as int));
    while start + 1 < d && t.get_char(start) == '0'
        invariant
            start < d || d == 0,
            start <= d,
            d <= n,
            n == w.len(),
            w == t@,
            trim_leading_zeros(w.take(d as int)) == trim_leading_zeros(w.subrange(start as int, d as int)),
        decreases d - start,
    {
        proof {
            assert(w.subrange(start as int, d as int).subrange(1, d - start) =~= w.subrange(start + 1, d as int));
        }
        start += 1;
    }
    assert(trim_leading_zeros(w.subrange(start as int, d as int)) == w.subrange(start as int, d as int));
    push_range(out, t, start, d);
    if d < n {
        let mut e: usize = n;
        assert(w.skip(d + 1) =~= w.subrange(d + 1, n as int));
        while e > d + 1 && t.get_char(e - 1) == '0'
            invariant
                d + 1 <= e <= n,
                n == w.len(),
                w == t@,
                trim_trailing_zeros(w.skip(d + 1)) == trim_trailing_zeros(w.subrange(d + 1, e as int)),
            decreases e,
        {
            proof {
                assert(w.subrange(d + 1, e as int).drop_last() =~= w.subrange(d + 1, e - 1));
            }
            e -= 1;
        }
        assert(trim_trailing_zeros(w.subrange(d + 1, e as int)) == w.subrange(d + 1, e as int));
        if e > d + 1 {
            push_char(out, '.');
            push_range(out, t, d + 1, e);
        }
    }
    proof {
        assert(final(out)@ =~= old(out)@ + number_text(t@));
    }
}

impl LiteralType {
    /// Appends the printed form of the value.
    fn write_to(&self, out: &mut String)
        ensures
            final(out)@ == old(out)@ + literal_text(self@),
    {
        match self {
            LiteralType::StringValue(s) => push_str(out, s.as_str()),
            LiteralType::NumberValue(t) => push_number(out, t.as_str()),
            LiteralType::BoolValue(b) => if *b {
                push_str(out, "true");
            } else {
                push_str(out, "false");
            },
            LiteralType::NoneValue => {
                proof {
                    assert(old(out)@ + Seq::<char>::empty() =~= old(out)@);
                }
            },
        }
    }

    /// The printed form of the value: a string as it is, a number without
    /// needless zeros, `true` or `false`, and nothing for no value. Of a
    /// number with more than 15 digits, nothing is stated.
    pub fn to_string(&self) -> (s: String)
        ensures
            literal_printable(self@) ==> s@ == literal_text(self@),
    {
        let mut s = String::new();
        self.write_to(&mut s);
        proof {
            assert(Seq::<char>::empty() + literal_text(self@) =~= literal_text(self@));
        }
        s
    }
}

impl Token {
    /// The printed form of the token: type, text and literal value. Of a
    /// number literal with more than 15 digits, nothing is stated.
    pub fn to_string(&self) -> (s: String)
        ensures
            literal_printable(self@.literal) ==> s@ == token_text(self@),
    {
        let mut s = String::new();
        push_str(&mut s, token_type_name(self.ttype));
        push_str(&mut s, " ");
        push_str(&mut s, self.lexeme.as_str());
        match self.literal {
            LiteralType::NoneValue => {},
            _ => {
                push_str(&mut s, " ");
                self.literal.write_to(&mut s);
            },
        }
        proof {
            assert(s@ =~= token_text(self@));
        }
        s
    }
}

impl Expr {
    /// Appends the printed form of the expression.
    fn write_to(&self, out: &mut String)
        ensures
            final(out)@ == old(out)@ + expr_text(self@),
        decreases self, 0nat,
    {
        let ghost o = out@;
        match self {
            Expr::Assign { name, value, .. } => {
                push_str(out, name.lexeme.as_str());
                push_str(out, " = ");
                value.write_to(out);
            },
            Expr::Binary { left, right, operator } => {
                push_char(out, '(');
                push_str(out, operator.lexeme.as_str());
                push_char(out, ' ');
                left.write_to(out);
                push_char(out, ' ');
                right.write_to(out);
                push_char(out, ')');
                proof {
                    lemma_parenthesized_two(operator.lexeme@, expr_text(left@), expr_text(right@));
                    assert(out@ =~= o + expr_text(self@));
                }
            },
            Expr::Call { callee, arguments, .. } => {
                callee.write_to(out);
                push_char(out, '(');
                Expr::write_joined(arguments, out);
                push_char(out, ')');
                assert(out@ =~= o + expr_text(self@));
            },
            Expr::Get { name, object } => {
                object.write_to(out);
                push_char(out, '.');
                push_str(out, name.lexeme.as_str());
            },
            Expr::Grouping { expression } => {
                push_char(out, '(');
                push_str(out, "group");
                push_char(out, ' ');
                expression.write_to(out);
                push_char(out, ')');
                proof {
                    lemma_parenthesized_one("group"@, expr_text(expression@));
                    assert(out@ =~= o + expr_text(self@));
                }
            },
            Expr::Literal { value } => {
                match value {
                    LiteralType::NoneValue => push_str(out, "nil"),
                    _ => value.write_to(out),
                }
                assert(out@ =~= o + expr_text(self@));
            },
            Expr::Logical { left, right, operator } => {
                push_char(out, '(');
                push_str(out, operator.lexeme.as_str());
                push_char(out, ' ');
                left.write_to(out);
                push_char(out, ' ');
                right.write_to(out);
                push_char(out, ')');
                proof {
                    lemma_parenthesized_two(operator.lexeme@, expr_text(left@), expr_text(right@));
                    assert(out@ =~= o + expr_text(self@));
                }
            },
            Expr::SetField { name, object, value } => {
                object.write_to(out);
                push_char(out, '.');
                push_str(out, name.lexeme.as_str());
                push_str(out, " = ");
                value.write_to(out);
            },
            Expr::Super { method, .. } => {
                push_str(out, "super.");
                push_str(out, method.lexeme.as_str());
            },
            Expr::This { .. } => push_str(out, "this"),
            Expr::Unary { right, operator } => {
                push_char(out, '(');
                push_str(out, operator.lexeme.as_str());
                push_char(out, ' ');
                right.write_to(out);
                push_char(out, ')');
                proof {
                    lemma_parenthesized_one(operator.lexeme@, expr_text(right@));
                    assert(out@ =~= o + expr_text(self@));
                }
            },
            Expr::Variable { name, .. } => {
                push_str(out, "var ");
                push_str(out, name.lexeme.as_str());
            },
        }
        proof {
            assert(out@ =~= o + expr_text(self@));
        }
    }

    /// Appends the printed forms of `es`, joined with ", ".
    fn write_joined(es: &Vec<Expr>, out: &mut String)
        ensures
            final(out)@ == old(out)@ + joined(exprs_model(es@)),
        decreases es, 0nat,
    {
        let ghost o = out@;
        let mut i: usize = 0;
        assert(exprs_model(es@.take(0)) =~= Seq::<SExpr>::empty());
        while i < es.len()
            invariant
                i <= es@.len(),
                out@ == o + joined(exprs_model(es@.take(i as int))),
            decreases es@.len() - i,
        {
            proof {
                assert(es@.take(i + 1) =~= es@.take(i as int).push(es@[i as int]));
                crate::parser::lemma_exprs_model_push(es@.take(i as int), es@[i as int]);
                assert(exprs_model(es@.take(i + 1)).drop_last() =~= exprs_model(es@.take(i as int)));
                assert(decreases_to!(es => es@[i as int]));
            }
            if i > 0 {
                push_str(out, ", ");
            }
            es[i].write_to(out);
            proof {
                if i == 0 {
                    assert(exprs_model(es@.take(1))[0] == es@[0]@);
                }
                assert(out@ =~= o + joined(exprs_model(es@.take(i + 1))));
            }
            i += 1;
        }
        assert(es@.take(es@.len() as int) =~= es@);
    }

    /// The printed form of the expression, a parenthesised prefix form.
    /// Where it holds a number literal of more than 15 digits, nothing is
    /// stated.
    pub fn to_string(&self) -> (s: String)
        ensures
            expr_printable(self@) ==> s@ == expr_text(self@),
    {
        let mut s = String::new();
        self.write_to(&mut s);
        proof {
            assert(Seq::<char>::empty() + expr_text(self@) =~= expr_text(self@));
        }
        s
    }
}

} // verus!
