//! Error messages that point at a token.

use vstd::prelude::*;

use crate::text::{decimal, push_decimal, push_str};
use crate::token::{SToken, Token, TokenType};

verus! {

/// The message for an error at token `t`: "at end" for the end-of-file
/// token, else the token's text.
pub open spec fn error_text(message: Seq<char>, t: SToken) -> Seq<char> {
    if t.ttype == TokenType::Eof {
        "[line "@ + decimal(t.line) + "] Error at end: "@ + message
    } else {
        "[line "@ + decimal(t.line) + "] Error at '"@ + t.lexeme + "': "@ + message
    }
}

/// Formats an error at `token` with `message`.
pub fn error(message: &str, token: &Token) -> (r: String)
    ensures
        r@ == error_text(message@, token@),
{
    let mut r = String::from_str("[line ");
    push_decimal(&mut r, token.line as u64);
    if token.ttype == TokenType::Eof {
        push_str(&mut r, "] Error at end: ");
    } else {
        push_str(&mut r, "] Error at '");
        push_str(&mut r, token.lexeme.as_str());
        push_str(&mut r, "': ");
    }
    push_str(&mut r, message);
    assert(r@ =~= error_text(message@, token@));
    r
}

/// Formats an error at `token` with `message`, where `message` is a string.
pub fn error_string(message: &String, token: &Token) -> (r: String)
    ensures
        r@ == error_text(message@, token@),
{
    error(message.as_str(), token)
}

} // verus!
