//! The interpreter's rules that do not depend on the numbers themselves:
//! which values are true, what an operator does to operands of given kinds,
//! when a logical operator stops early, and how `break`, `continue` and
//! `return` end loops and blocks. The arithmetic itself is done on
//! floating-point numbers by the program that runs the interpreter.

use vstd::prelude::*;

use crate::parser::token_type_name;
use crate::parser_spec::token_type_text;
use crate::text::{decimal, push_decimal, push_str};
use crate::token::{SToken, Token, TokenType};
use crate::utility::{error_string, error_text};

verus! {

/// The kind of a runtime value, with the truth of a boolean.
#[derive(Debug, PartialEq, Eq, Clone, Copy, Structural)]
pub enum ValueKind {
    Nil,
    Bool(bool),
    Number,
    Str,
    Callable,
    Instance,
}

/// `false` and `nil` are false; every other value is true.
pub open spec fn truthy(k: ValueKind) -> bool {
    match k {
        ValueKind::Nil => false,
        ValueKind::Bool(b) => b,
        _ => true,
    }
}

/// Whether a value of kind `k` counts as true.
pub fn is_truthy(k: ValueKind) -> (b: bool)
    ensures
        b == truthy(k),
{
    match k {
        ValueKind::Nil => false,
        ValueKind::Bool(b) => b,
        _ => true,
    }
}

/// What a binary operator does to its two operands.
#[derive(Debug, PartialEq, Eq, Clone, Copy, Structural)]
pub enum BinaryAction {
    NotEqual,
    Equal,
    Concatenate,
    Subtract,
    Add,
    Divide,
    Multiply,
    Greater,
    GreaterEqual,
    Less,
    LessEqual,
    Unsupported,
}

/// The rule for a binary operator: equality tests apply to any operands,
/// `+` joins two strings, the arithmetic and comparison operators apply to
/// two numbers, and nothing else is supported.
pub open spec fn binary_rule(op: TokenType, left: ValueKind, right: ValueKind) -> BinaryAction {
    if op == TokenType::BangEqual {
        BinaryAction::NotEqual
    } else if op == TokenType::EqualEqual {
        BinaryAction::Equal
    } else if left == ValueKind::Str && right == ValueKind::Str && op == TokenType::Plus {
        BinaryAction::Concatenate
    } else if left == ValueKind::Number && right == ValueKind::Number {
        match op {
            TokenType::Minus => BinaryAction::Subtract,
            TokenType::Plus => BinaryAction::Add,
            TokenType::Slash => BinaryAction::Divide,
            TokenType::Star => BinaryAction::Multiply,
            TokenType::Greater => BinaryAction::Greater,
            TokenType::GreaterEqual => BinaryAction::GreaterEqual,
            TokenType::Less => BinaryAction::Less,
            TokenType::LessEqual => BinaryAction::LessEqual,
            _ => BinaryAction::Unsupported,
        }
    } else {
        BinaryAction::Unsupported
    }
}

/// What the binary operator `op` does to operands of kinds `left` and
/// `right`.
pub fn binary_action(op: TokenType, left: ValueKind, right: ValueKind) -> (a: BinaryAction)
    ensures
        a == binary_rule(op, left, right),
{
    if op == TokenType::BangEqual {
        return BinaryAction::NotEqual;
    }
    if op == TokenType::EqualEqual {
        return BinaryAction::Equal;
    }
    if left == ValueKind::Str && right == ValueKind::Str && op == TokenType::Plus {
        return BinaryAction::Concatenate;
    }
    if left == ValueKind::Number && right == ValueKind::Number {
        return match op {
            TokenType::Minus => BinaryAction::Subtract,
            TokenType::Plus => BinaryAction::Add,
            TokenType::Slash => BinaryAction::Divide,
            TokenType::Star => BinaryAction::Multiply,
            TokenType::Greater => BinaryAction::Greater,
            TokenType::GreaterEqual => BinaryAction::GreaterEqual,
            TokenType::Less => BinaryAction::Less,
            TokenType::LessEqual => BinaryAction::LessEqual,
            _ => BinaryAction::Unsupported,
        };
    }
    BinaryAction::Unsupported
}

/// Each binary action comes from exactly one kind of operation: the
/// equality tests from `==` and `!=` on any operands, concatenation from `+`
/// on two strings, and each arithmetic or comparison action from its own
/// operator on two numbers (`-` subtracts, `+` adds, `/` divides, `*`
/// multiplies, `>`, `>=`, `<`, `<=` compare). Everything else is
/// unsupported.
pub proof fn law_binary_action_table(op: TokenType, left: ValueKind, right: ValueKind)
    ensures
        (binary_rule(op, left, right) == BinaryAction::NotEqual) <==> op == TokenType::BangEqual,
        (binary_rule(op, left, right) == BinaryAction::Equal) <==> op == TokenType::EqualEqual,
        (binary_rule(op, left, right) == BinaryAction::Concatenate) <==> (op == TokenType::Plus
            && left == ValueKind::Str && right == ValueKind::Str),
        (binary_rule(op, left, right) == BinaryAction::Subtract) <==> (op == TokenType::Minus
            && left == ValueKind::Number && right == ValueKind::Number),
        (binary_rule(op, left, right) == BinaryAction::Add) <==> (op == TokenType::Plus && left
            == ValueKind::Number && right == ValueKind::Number),
        (binary_rule(op, left, right) == BinaryAction::Divide) <==> (op == TokenType::Slash
            && left == ValueKind::Number && right == ValueKind::Number),
        (binary_rule(op, left, right) == BinaryAction::Multiply) <==> (op == TokenType::Star
            && left == ValueKind::Number && right == ValueKind::Number),
        (binary_rule(op, left, right) == BinaryAction::Greater) <==> (op == TokenType::Greater
            && left == ValueKind::Number && right == ValueKind::Number),
        (binary_rule(op, left, right) == BinaryAction::GreaterEqual) <==> (op
            == TokenType::GreaterEqual && left == ValueKind::Number && right == ValueKind::Number),
        (binary_rule(op, left, right) == BinaryAction::Less) <==> (op == TokenType::Less && left
            == ValueKind::Number && right == ValueKind::Number),
        (binary_rule(op, left, right) == BinaryAction::LessEqual) <==> (op == TokenType::LessEqual
            && left == ValueKind::Number && right == ValueKind::Number),
{
}

/// What a unary operator does to its operand.
#[derive(Debug, PartialEq, Eq, Clone, Copy, Structural)]
pub enum UnaryAction {
    /// `-` on a number.
    Negate,
    /// `!` on any value: the opposite of its truth.
    Not,
    /// `-` on a value that is no number.
    NotANumber,
    /// Any other operator.
    Unsupported,
}

/// The rule for a unary operator.
pub open spec fn unary_rule(op: TokenType, operand: ValueKind) -> UnaryAction {
    if op == TokenType::Minus {
        if operand == ValueKind::Number {
            UnaryAction::Negate
        } else {
            UnaryAction::NotANumber
        }
    } else if op == TokenType::Bang {
        UnaryAction::Not
    } else {
        UnaryAction::Unsupported
    }
}

/// What the unary operator `op` does to an operand of kind `operand`.
pub fn unary_action(op: TokenType, operand: ValueKind) -> (a: UnaryAction)
    ensures
        a == unary_rule(op, operand),
{
    match op {
        TokenType::Minus => if operand == ValueKind::Number {
            UnaryAction::Negate
        } else {
            UnaryAction::NotANumber
        },
        TokenType::Bang => UnaryAction::Not,
        _ => UnaryAction::Unsupported,
    }
}

/// `-` negates exactly a number and refuses any other operand, `!` applies
/// to every operand, and no other operator has a unary action.
pub proof fn law_unary_action_table(op: TokenType, operand: ValueKind)
    ensures
        (unary_rule(op, operand) == UnaryAction::Negate) <==> (op == TokenType::Minus && operand
            == ValueKind::Number),
        (unary_rule(op, operand) == UnaryAction::NotANumber) <==> (op == TokenType::Minus
            && operand != ValueKind::Number),
        (unary_rule(op, operand) == UnaryAction::Not) <==> op == TokenType::Bang,
        (unary_rule(op, operand) == UnaryAction::Unsupported) <==> (op != TokenType::Minus && op
            != TokenType::Bang),
{
}

/// The message for an operator that no unary rule supports.
pub open spec fn unsupported_unary_message(operator: SToken) -> Seq<char> {
    "Unsupported unary operator "@ + token_type_text(operator.ttype) + ".\n[line "@ + decimal(operator.line)
        + "]"@
}

/// The error for the unary `operator` that no rule supports.
pub fn unsupported_unary_error(operator: &Token) -> (m: String)
    ensures
        m@ == unsupported_unary_message(operator@),
{
    let mut m = String::from_str("Unsupported unary operator ");
    push_str(&mut m, token_type_name(operator.ttype));
    push_str(&mut m, ".\n[line ");
    push_decimal(&mut m, operator.line as u64);
    push_str(&mut m, "]");
    proof {
        assert(m@ =~= unsupported_unary_message(operator@));
    }
    m
}

/// Whether a logical operator stops at its left operand: `or` when the
/// left is true, `and` (any other operator) when it is false.
pub open spec fn stops_early(op: TokenType, left_truthy: bool) -> bool {
    if op == TokenType::Or {
        left_truthy
    } else {
        !left_truthy
    }
}

/// Whether the logical operator `op` gives its left operand, whose truth is
/// `left_truthy`, without evaluating the right one.
pub fn short_circuits(op: TokenType, left_truthy: bool) -> (b: bool)
    ensures
        b == stops_early(op, left_truthy),
{
    if op == TokenType::Or {
        left_truthy
    } else {
        !left_truthy
    }
}

/// The message for a call with the wrong number of arguments.
pub open spec fn arity_message(expected: nat, got: nat, paren: SToken) -> Seq<char> {
    error_text("Expected "@ + decimal(expected) + " arguments but got "@ + decimal(got), paren)
}

/// The error for a call, closed by `paren`, that passes `got` arguments to
/// a callable that takes `expected`.
pub fn arity_error(expected: u8, got: usize, paren: &Token) -> (m: String)
    ensures
        m@ == arity_message(expected as nat, got as nat, paren@),
{
    let mut text = String::from_str("Expected ");
    push_decimal(&mut text, expected as u64);
    push_str(&mut text, " arguments but got ");
    push_decimal(&mut text, got as u64);
    let m = error_string(&text, paren);
    proof {
        assert(text@ =~= "Expected "@ + decimal(expected as nat) + " arguments but got "@ + decimal(got as nat));
    }
    m
}

/// The signals by which `break`, `continue` and `return` end the statements
/// around them.
pub struct Flags {
    pub break_flag: bool,
    pub continue_flag: bool,
    pub return_flag: bool,
}

/// What a loop does after running its body once.
#[derive(Debug, PartialEq, Eq, Clone, Copy, Structural)]
pub enum LoopStep {
    /// Leave the loop.
    Exit,
    /// Run the increment, if any, and test the condition again.
    Again,
}

impl Flags {
    /// No signal raised.
    pub fn new() -> (f: Self)
        ensures
            !f.break_flag && !f.continue_flag && !f.return_flag,
    {
        Flags { break_flag: false, continue_flag: false, return_flag: false }
    }

    /// Whether a block stops before its next statement: when any signal is
    /// raised.
    pub fn block_stops(&self) -> (b: bool)
        ensures
            b == (self.break_flag || self.continue_flag || self.return_flag),
    {
        self.break_flag || self.continue_flag || self.return_flag
    }

    /// After a loop's body: a `break` ends the loop and is consumed there, a
    /// `return` ends the loop and goes on outwards, and otherwise the loop
    /// goes on. A `continue` stays raised until `end_iteration`, after the
    /// loop's increment.
    pub fn after_loop_body(&mut self) -> (step: LoopStep)
        ensures
            old(self).break_flag ==> step == LoopStep::Exit && !final(self).break_flag && final(self).continue_flag
                == old(self).continue_flag && final(self).return_flag == old(self).return_flag,
            !old(self).break_flag && old(self).return_flag ==> step == LoopStep::Exit && *final(self) == *old(self),
            !old(self).break_flag && !old(self).return_flag ==> step == LoopStep::Again && *final(self)
                == *old(self),
    {
        if self.break_flag {
            self.break_flag = false;
            return LoopStep::Exit;
        }
        if self.return_flag {
            return LoopStep::Exit;
        }
        LoopStep::Again
    }

    /// The end of a loop iteration that goes on, once the increment has
    /// run: a `continue` is consumed.
    pub fn end_iteration(&mut self)
        ensures
            !final(self).continue_flag,
            final(self).break_flag == old(self).break_flag,
            final(self).return_flag == old(self).return_flag,
    {
        self.continue_flag = false;
    }
}

} // verus!
