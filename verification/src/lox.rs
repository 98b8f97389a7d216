//! Error reporting for a run of the interpreter.

use vstd::prelude::*;

use crate::text::{push_signed_decimal, push_str, signed_decimal};

verus! {

/// The report line for an error at `line`, in `source`, with `message`.
pub open spec fn report_text(line: int, source: Seq<char>, message: Seq<char>) -> Seq<char> {
    "[line "@ + signed_decimal(line) + "] Error "@ + source + ": "@ + message
}

/// A run of the interpreter, which remembers whether an error was reported.
pub struct Lox {
    pub had_error: bool,
}

impl Lox {
    /// A run with no error reported yet.
    pub fn new() -> (r: Self)
        ensures
            !r.had_error,
    {
        Lox { had_error: false }
    }

    /// Reports an error at `line`: records that an error happened and
    /// returns the line of text to show.
    pub fn error(&mut self, line: i64, message: &str) -> (text: String)
        ensures
            final(self).had_error,
            text@ == report_text(line as int, Seq::<char>::empty(), message@),
    {
        proof {
            reveal_strlit("");
        }
        self.report(line, "", message)
    }

    /// Reports an error at `line` in `source`: records that an error
    /// happened and returns the line of text to show.
    pub fn report(&mut self, line: i64, source: &str, message: &str) -> (text: String)
        ensures
            final(self).had_error,
            text@ == report_text(line as int, source@, message@),
    {
        let mut text = String::from_str("[line ");
        push_signed_decimal(&mut text, line);
        push_str(&mut text, "] Error ");
        push_str(&mut text, source);
        push_str(&mut text, ": ");
        push_str(&mut text, message);
        self.had_error = true;
        assert(text@ =~= report_text(line as int, source@, message@));
        text
    }
}

} // verus!
