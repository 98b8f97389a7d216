//! The scanner: turns Lox source text into tokens.
//!
//! The scanner reads the source byte by byte. Its behaviour is stated by
//! `lex_step`, which says what one token (or one skipped piece of text)
//! starting at a position is, and by `scan_from`, which strings the steps
//! together up to the end of the source. The text of a token is the
//! decoding of its bytes, which are always valid UTF-8.

use vstd::prelude::*;
use vstd::string::StringSliceAdditionalSpecFns;
use vstd::utf8::{
    decode_utf8, encode_utf8_valid_utf8, is_char_boundary, is_char_boundary_iff_not_is_continuation_byte,
    length_of_first_scalar, pop_first_scalar, valid_utf8, valid_utf8_split,
};

use crate::text::{push_char, push_decimal, push_str, text_of_bytes, decimal};
use crate::token::{LiteralType, SLiteral, SToken, Token, TokenType};

verus! {

// The bytes of the characters that the scanner tells apart.
pub const LEFT_PAREN: u8 = 40;
pub const RIGHT_PAREN: u8 = 41;
pub const LEFT_BRACE: u8 = 123;
pub const RIGHT_BRACE: u8 = 125;
pub const COMMA: u8 = 44;
pub const DOT: u8 = 46;
pub const MINUS: u8 = 45;
pub const PLUS: u8 = 43;
pub const SEMICOLON: u8 = 59;
pub const STAR: u8 = 42;
pub const BANG: u8 = 33;
pub const EQUAL: u8 = 61;
pub const LESS: u8 = 60;
pub const GREATER: u8 = 62;
pub const SLASH: u8 = 47;
pub const SPACE: u8 = 32;
pub const CARRIAGE_RETURN: u8 = 13;
pub const TAB: u8 = 9;
pub const NEWLINE: u8 = 10;
pub const QUOTE: u8 = 34;
pub const UNDERSCORE: u8 = 95;

/// The byte at `i`, or 0 past either end (the scanner's "peek").
pub open spec fn byte_at(src: Seq<u8>, i: int) -> u8 {
    if 0 <= i < src.len() {
        src[i]
    } else {
        0
    }
}

pub open spec fn is_digit(b: u8) -> bool {
    48 <= b <= 57
}

pub open spec fn is_alpha(b: u8) -> bool {
    (65 <= b <= 90) || (97 <= b <= 122)
}

/// A byte that may continue an identifier.
pub open spec fn is_word_byte(b: u8) -> bool {
    is_digit(b) || is_alpha(b) || b == UNDERSCORE
}

/// The end of a line comment whose text starts at `i`: the next newline, or
/// the end of the source.
pub open spec fn comment_end(src: Seq<u8>, i: int) -> int
    decreases src.len() - i,
{
    if i < src.len() && byte_at(src, i) != NEWLINE {
        comment_end(src, i + 1)
    } else {
        i
    }
}

/// Scanning a string body from `i` on line `line`: the position of the
/// closing quote (or the end of the source) and the line reached there.
pub open spec fn string_scan(src: Seq<u8>, i: int, line: nat) -> (int, nat)
    decreases src.len() - i,
{
    if i < src.len() && byte_at(src, i) != QUOTE {
        string_scan(src, i + 1, if byte_at(src, i) == NEWLINE { line + 1 } else { line })
    } else {
        (i, line)
    }
}

/// The end of a run of digits that starts at `i`.
pub open spec fn digits_end(src: Seq<u8>, i: int) -> int
    decreases src.len() - i,
{
    if i < src.len() && is_digit(byte_at(src, i)) {
        digits_end(src, i + 1)
    } else {
        i
    }
}

/// The end of a number whose first digit is at `s`: digits, then a fraction
/// only where a dot is followed by a digit.
pub open spec fn number_end(src: Seq<u8>, s: int) -> int {
    let e = digits_end(src, s + 1);
    if byte_at(src, e) == DOT && is_digit(byte_at(src, e + 1)) {
        digits_end(src, e + 1)
    } else {
        e
    }
}

/// The end of a run of identifier bytes that starts at `i`.
pub open spec fn word_end(src: Seq<u8>, i: int) -> int
    decreases src.len() - i,
{
    if i < src.len() && is_word_byte(byte_at(src, i)) {
        word_end(src, i + 1)
    } else {
        i
    }
}

/// The token type of a word: a keyword, or an identifier.
pub open spec fn keyword_type(w: Seq<u8>) -> TokenType {
    if w == seq![97u8, 110, 100] {
        TokenType::And
    } else if w == seq![98u8, 114, 101, 97, 107] {
        TokenType::Break
    } else if w == seq![99u8, 108, 97, 115, 115] {
        TokenType::Class
    } else if w == seq![99u8, 111, 110, 116, 105, 110, 117, 101] {
        TokenType::Continue
    } else if w == seq![101u8, 108, 115, 101] {
        TokenType::Else
    } else if w == seq![102u8, 97, 108, 115, 101] {
        TokenType::False
    } else if w == seq![102u8, 111, 114] {
        TokenType::For
    } else if w == seq![102u8, 117, 110] {
        TokenType::Fun
    } else if w == seq![105u8, 102] {
        TokenType::If
    } else if w == seq![110u8, 105, 108] {
        TokenType::Nil
    } else if w == seq![111u8, 114] {
        TokenType::Or
    } else if w == seq![112u8, 114, 105, 110, 116] {
        TokenType::Print
    } else if w == seq![114u8, 101, 116, 117, 114, 110] {
        TokenType::Return
    } else if w == seq![115u8, 116, 97, 116, 105, 99] {
        TokenType::Static
    } else if w == seq![115u8, 117, 112, 101, 114] {
        TokenType::Super
    } else if w == seq![116u8, 104, 105, 115] {
        TokenType::This
    } else if w == seq![116u8, 114, 117, 101] {
        TokenType::True
    } else if w == seq![118u8, 97, 114] {
        TokenType::Var
    } else if w == seq![119u8, 104, 105, 108, 101] {
        TokenType::While
    } else {
        TokenType::Identifier
    }
}

/// What one step of the scanner finds.
pub enum Lexeme {
    /// A token without a literal value.
    Plain(TokenType),
    /// A string literal.
    Str,
    /// A number literal.
    Num,
    /// Whitespace or a comment.
    Skip,
    /// A newline.
    NewLine,
    /// A byte that starts no token.
    Bad,
    /// A string without its closing quote.
    Unterminated,
}

/// A one- or two-byte operator: `two` when the next byte is `=`.
pub open spec fn op_step(src: Seq<u8>, s: int, one: TokenType, two: TokenType) -> (Lexeme, int) {
    if byte_at(src, s + 1) == EQUAL {
        (Lexeme::Plain(two), s + 2)
    } else {
        (Lexeme::Plain(one), s + 1)
    }
}

/// One step of the scanner at `s` (with `s` before the end): what it finds
/// and where the next step starts.
pub open spec fn lex_step(src: Seq<u8>, s: int) -> (Lexeme, int) {
    let c = byte_at(src, s);
    if c == LEFT_PAREN {
        (Lexeme::Plain(TokenType::LeftParen), s + 1)
    } else if c == RIGHT_PAREN {
        (Lexeme::Plain(TokenType::RightParen), s + 1)
    } else if c == LEFT_BRACE {
        (Lexeme::Plain(TokenType::LeftBrace), s + 1)
    } else if c == RIGHT_BRACE {
        (Lexeme::Plain(TokenType::RightBrace), s + 1)
    } else if c == COMMA {
        (Lexeme::Plain(TokenType::Comma), s + 1)
    } else if c == DOT {
        (Lexeme::Plain(TokenType::Dot), s + 1)
    } else if c == MINUS {
        (Lexeme::Plain(TokenType::Minus), s + 1)
    } else if c == PLUS {
        (Lexeme::Plain(TokenType::Plus), s + 1)
    } else if c == SEMICOLON {
        (Lexeme::Plain(TokenType::Semicolon), s + 1)
    } else if c == STAR {
        (Lexeme::Plain(TokenType::Star), s + 1)
    } else if c == BANG {
        op_step(src, s, TokenType::Bang, TokenType::BangEqual)
    } else if c == EQUAL {
        op_step(src, s, TokenType::Equal, TokenType::EqualEqual)
    } else if c == LESS {
        op_step(src, s, TokenType::Less, TokenType::LessEqual)
    } else if c == GREATER {
        op_step(src, s, TokenType::Greater, TokenType::GreaterEqual)
    } else if c == SLASH {
        if byte_at(src, s + 1) == SLASH {
            (Lexeme::Skip, comment_end(src, s + 2))
        } else {
            (Lexeme::Plain(TokenType::Slash), s + 1)
        }
    } else if c == SPACE || c == CARRIAGE_RETURN || c == TAB {
        (Lexeme::Skip, s + 1)
    } else if c == NEWLINE {
        (Lexeme::NewLine, s + 1)
    } else if c == QUOTE {
        let close = string_scan(src, s + 1, 0).0;
        if close >= src.len() {
            (Lexeme::Unterminated, close)
        } else {
            (Lexeme::Str, close + 1)
        }
    } else if is_digit(c) {
        (Lexeme::Num, number_end(src, s))
    } else if is_alpha(c) || c == UNDERSCORE {
        let e = word_end(src, s + 1);
        (Lexeme::Plain(keyword_type(src.subrange(s, e))), e)
    } else {
        (Lexeme::Bad, s + 1)
    }
}

/// The line after the step at `s` on line `line`.
pub open spec fn line_after(src: Seq<u8>, s: int, line: nat) -> nat {
    let c = byte_at(src, s);
    if c == NEWLINE {
        line + 1
    } else if c == QUOTE {
        string_scan(src, s + 1, line).1
    } else {
        line
    }
}

/// The error message for a byte that starts no token.
pub open spec fn bad_byte_message(b: u8, line: nat) -> Seq<char> {
    "Unsupported character '"@ + seq![b as char] + "' at line "@ + decimal(line)
}

/// The token that the step at `s`, ending at `e`, adds on line `line`
/// (the line after the step), if any.
pub open spec fn step_token(src: Seq<u8>, s: int, k: Lexeme, e: int, line: nat) -> Option<SToken> {
    match k {
        Lexeme::Plain(t) => Some(
            SToken {
                ttype: t,
                lexeme: decode_utf8(src.subrange(s, e)),
                literal: SLiteral::Nothing,
                line,
            },
        ),
        Lexeme::Str => Some(
            SToken {
                ttype: TokenType::String,
                lexeme: decode_utf8(src.subrange(s, e)),
                literal: SLiteral::Str(decode_utf8(src.subrange(s + 1, e - 1))),
                line,
            },
        ),
        Lexeme::Num => Some(
            SToken {
                ttype: TokenType::Number,
                lexeme: decode_utf8(src.subrange(s, e)),
                literal: SLiteral::Num(decode_utf8(src.subrange(s, e))),
                line,
            },
        ),
        _ => None,
    }
}

/// The result of scanning: the tokens, the error messages, the final line,
/// and whether an unterminated string stopped the scan.
pub struct Scan {
    pub tokens: Seq<SToken>,
    pub errors: Seq<Seq<char>>,
    pub line: nat,
    pub unterminated: bool,
}

pub proof fn lemma_ends_advance(src: Seq<u8>, i: int, line: nat)
    ensures
        comment_end(src, i) >= i,
        string_scan(src, i, line).0 >= i,
        string_scan(src, i, line).1 >= line,
        digits_end(src, i) >= i,
        word_end(src, i) >= i,
    decreases src.len() - i,
{
    if i < src.len() {
        lemma_ends_advance(src, i + 1, line);
        lemma_ends_advance(src, i + 1, line + 1);
    }
}

/// The string scan raises the line by at most the number of bytes it reads.
pub proof fn lemma_string_scan_lines(src: Seq<u8>, i: int, line: nat)
    requires
        i <= src.len(),
    ensures
        string_scan(src, i, line).1 <= line + (string_scan(src, i, line).0 - i),
    decreases src.len() - i,
{
    if i < src.len() && byte_at(src, i) != QUOTE {
        lemma_string_scan_lines(
            src,
            i + 1,
            if byte_at(src, i) == NEWLINE { line + 1 } else { line },
        );
    }
}

/// The string scan finds the same closing quote whatever line it starts on.
pub proof fn lemma_string_scan_close(src: Seq<u8>, i: int, line1: nat, line2: nat)
    ensures
        string_scan(src, i, line1).0 == string_scan(src, i, line2).0,
    decreases src.len() - i,
{
    if i < src.len() && byte_at(src, i) != QUOTE {
        lemma_string_scan_close(
            src,
            i + 1,
            if byte_at(src, i) == NEWLINE { line1 + 1 } else { line1 },
            if byte_at(src, i) == NEWLINE { line2 + 1 } else { line2 },
        );
    }
}

pub proof fn lemma_step_advances(src: Seq<u8>, s: int)
    requires
        0 <= s < src.len(),
    ensures
        s < lex_step(src, s).1 <= src.len(),
{
    lemma_ends_advance(src, s + 1, 0);
    lemma_ends_advance(src, s + 2, 0);
    lemma_ends_bounded(src, s + 1, 0);
    lemma_ends_bounded(src, s + 2, 0);
    let e = digits_end(src, s + 1);
    lemma_ends_advance(src, e + 1, 0);
    lemma_ends_bounded(src, e + 1, 0);
}

pub proof fn lemma_ends_bounded(src: Seq<u8>, i: int, line: nat)
    ensures
        i <= src.len() ==> comment_end(src, i) <= src.len(),
        i <= src.len() ==> string_scan(src, i, line).0 <= src.len(),
        i <= src.len() ==> digits_end(src, i) <= src.len(),
        i <= src.len() ==> word_end(src, i) <= src.len(),
    decreases src.len() - i,
{
    if i < src.len() {
        lemma_ends_bounded(src, i + 1, line);
        lemma_ends_bounded(src, i + 1, line + 1);
    }
}

/// Scanning from position `s` on line `line` to the end of the source.
pub open spec fn scan_from(src: Seq<u8>, s: int, line: nat) -> Scan
    decreases src.len() - s,
{
    if s < 0 || s >= src.len() {
        Scan { tokens: seq![], errors: seq![], line, unterminated: false }
    } else {
        let (k, e) = lex_step(src, s);
        let line2 = line_after(src, s, line);
        proof {
            lemma_step_advances(src, s);
        }
        if k is Unterminated {
            Scan { tokens: seq![], errors: seq![], line: line2, unterminated: true }
        } else {
            let rest = scan_from(src, e, line2);
            match step_token(src, s, k, e, line2) {
                Some(t) => Scan { tokens: seq![t] + rest.tokens, ..rest },
                None => if k is Bad {
                    Scan { errors: seq![bad_byte_message(src[s], line)] + rest.errors, ..rest }
                } else {
                    rest
                },
            }
        }
    }
}

/// No token of `ts` is an end-of-file token.
pub open spec fn no_eof(ts: Seq<SToken>) -> bool {
    forall|k: int| 0 <= k < ts.len() ==> #[trigger] ts[k].ttype != TokenType::Eof
}

/// The lines of `ts` are at least `line` and do not go down.
pub open spec fn lines_from(ts: Seq<SToken>, line: nat) -> bool {
    &&& forall|k: int| 0 <= k < ts.len() ==> line <= #[trigger] ts[k].line
    &&& forall|i: int, j: int| 0 <= i <= j < ts.len() ==> ts[i].line <= ts[j].line
}

/// Scanning never makes an end-of-file token of the source itself, the
/// tokens' lines never go down from the line it starts on, and the line it
/// ends on is at least that of every token: so the token sequence that
/// `scan_tokens` returns has its one end-of-file token last, on the last
/// line.
pub proof fn law_scan_tokens_ordered(src: Seq<u8>, s: int, line: nat)
    ensures
        no_eof(scan_from(src, s, line).tokens),
        lines_from(scan_from(src, s, line).tokens, line),
        line <= scan_from(src, s, line).line,
        forall|k: int| 0 <= k < scan_from(src, s, line).tokens.len()
            ==> #[trigger] scan_from(src, s, line).tokens[k].line <= scan_from(src, s, line).line,
    decreases src.len() - s,
{
    if 0 <= s < src.len() {
        let (k, e) = lex_step(src, s);
        let line2 = line_after(src, s, line);
        lemma_step_advances(src, s);
        lemma_ends_advance(src, s + 1, line);
        assert(line <= line2);
        if !(k is Unterminated) {
            law_scan_tokens_ordered(src, e, line2);
            let rest = scan_from(src, e, line2);
            match step_token(src, s, k, e, line2) {
                Some(t) => {
                    assert(t.ttype != TokenType::Eof);
                    let ts = seq![t] + rest.tokens;
                    assert(ts == scan_from(src, s, line).tokens);
                    assert forall|i: int| 0 <= i < ts.len() implies #[trigger] ts[i].ttype != TokenType::Eof by {
                        if i > 0 {
                            assert(ts[i] == rest.tokens[i - 1]);
                        }
                    }
                    assert forall|i: int| 0 <= i < ts.len() implies line <= #[trigger] ts[i].line && ts[i].line
                        <= rest.line by {
                        if i > 0 {
                            assert(ts[i] == rest.tokens[i - 1]);
                        }
                    }
                    assert forall|i: int, j: int| 0 <= i <= j < ts.len() implies ts[i].line <= ts[j].line by {
                        if j > 0 {
                            assert(ts[j] == rest.tokens[j - 1]);
                        }
                        if i > 0 {
                            assert(ts[i] == rest.tokens[i - 1]);
                        }
                    }
                },
                None => {},
            }
        }
    }
}

/// An ASCII letter, digit or underscore, written out byte by byte.
pub open spec fn letter_digit_or_underscore(b: u8) -> bool {
    (48 <= b && b <= 57) || (65 <= b && b <= 90) || (97 <= b && b <= 122) || b == 95
}

proof fn lemma_word_end_extent(src: Seq<u8>, i: int)
    requires
        0 <= i <= src.len(),
    ensures
        i <= word_end(src, i) <= src.len(),
        forall|k: int| i <= k < word_end(src, i) ==> letter_digit_or_underscore(#[trigger] src[k]),
        word_end(src, i) < src.len() ==> !letter_digit_or_underscore(src[word_end(src, i)]),
    decreases src.len() - i,
{
    if i < src.len() && is_word_byte(byte_at(src, i)) {
        lemma_word_end_extent(src, i + 1);
    }
}

/// A word (an identifier or a keyword) starts at a letter or underscore,
/// runs over every letter, digit and underscore that follows, and ends at
/// the first other byte or at the end of the source.
pub proof fn law_word_extent(src: Seq<u8>, s: int)
    requires
        0 <= s < src.len(),
        (65 <= src[s] && src[s] <= 90) || (97 <= src[s] && src[s] <= 122) || src[s] == 95,
    ensures
        lex_step(src, s).0 is Plain,
        s < lex_step(src, s).1 <= src.len(),
        forall|k: int| s <= k < lex_step(src, s).1 ==> letter_digit_or_underscore(#[trigger] src[k]),
        lex_step(src, s).1 < src.len() ==> !letter_digit_or_underscore(src[lex_step(src, s).1]),
{
    lemma_word_end_extent(src, s + 1);
}

/// The end-of-file token on line `line`.
pub open spec fn eof_token(line: nat) -> SToken {
    SToken { ttype: TokenType::Eof, lexeme: seq![], literal: SLiteral::Nothing, line }
}

pub open spec fn tokens_view(v: Seq<Token>) -> Seq<SToken> {
    v.map_values(|t: Token| t@)
}

pub open spec fn strings_view(v: Seq<String>) -> Seq<Seq<char>> {
    v.map_values(|s: String| s@)
}


/// After a one-byte character that starts at a character boundary comes
/// another boundary.
proof fn lemma_boundary_after_ascii(b: Seq<u8>, i: int)
    requires
        valid_utf8(b),
        0 <= i < b.len(),
        is_char_boundary(b, i),
        b[i] <= 0x7f,
    ensures
        is_char_boundary(b, i + 1),
    decreases b.len(),
{
    let n = length_of_first_scalar(b);
    let rest = pop_first_scalar(b);
    if i == 0 {
        assert(n == 1);
        assert(is_char_boundary(rest, 0));
    } else {
        assert(is_char_boundary(rest, i - n));
        assert(0 <= i - n < rest.len());
        assert(rest[i - n] == b[i]);
        lemma_boundary_after_ascii(rest, i - n);
    }
}

/// The bytes between two character boundaries of valid UTF-8 are valid.
proof fn lemma_slice_valid(b: Seq<u8>, i: int, j: int)
    requires
        valid_utf8(b),
        0 <= i <= j <= b.len(),
        is_char_boundary(b, i),
        is_char_boundary(b, j),
    ensures
        valid_utf8(b.subrange(i, j)),
{
    valid_utf8_split(b, i);
    let suffix = b.subrange(i, b.len() as int);
    if j == b.len() {
        assert(suffix =~= b.subrange(i, j));
    } else {
        is_char_boundary_iff_not_is_continuation_byte(b, j);
        assert(suffix[j - i] == b[j]);
        is_char_boundary_iff_not_is_continuation_byte(suffix, j - i);
        valid_utf8_split(suffix, j - i);
        assert(suffix.subrange(0, j - i) =~= b.subrange(i, j));
    }
}

/// In valid UTF-8, the bytes from a one-byte character up to and with
/// another one are valid.
proof fn lemma_ascii_ends_valid(b: Seq<u8>, i: int, j: int)
    requires
        valid_utf8(b),
        0 <= i < j <= b.len(),
        b[i] <= 0x7f,
        b[j - 1] <= 0x7f,
    ensures
        valid_utf8(b.subrange(i, j)),
{
    is_char_boundary_iff_not_is_continuation_byte(b, i);
    is_char_boundary_iff_not_is_continuation_byte(b, j - 1);
    lemma_boundary_after_ascii(b, j - 1);
    lemma_slice_valid(b, i, j);
}

/// In valid UTF-8, the bytes strictly between two one-byte characters are
/// valid.
proof fn lemma_ascii_inner_valid(b: Seq<u8>, i: int, j: int)
    requires
        valid_utf8(b),
        0 <= i < j < b.len(),
        b[i] <= 0x7f,
        b[j] <= 0x7f,
    ensures
        valid_utf8(b.subrange(i + 1, j)),
{
    is_char_boundary_iff_not_is_continuation_byte(b, i);
    lemma_boundary_after_ascii(b, i);
    is_char_boundary_iff_not_is_continuation_byte(b, j);
    lemma_slice_valid(b, i + 1, j);
}

/// A scanner over Lox source text.
pub struct Scanner {
    source: Vec<u8>,
    tokens: Vec<Token>,
    start: usize,
    current: usize,
    line: usize,
}

impl Scanner {
    /// The source bytes.
    pub closed spec fn source_bytes(&self) -> Seq<u8> {
        self.source@
    }

    /// The tokens scanned so far.
    pub closed spec fn scanned(&self) -> Seq<SToken> {
        tokens_view(self.tokens@)
    }

    /// The position the next scan starts from.
    pub closed spec fn position(&self) -> nat {
        self.current as nat
    }

    /// The line the next scan starts on.
    pub closed spec fn current_line(&self) -> nat {
        self.line as nat
    }

    /// The scanner's positions are within the source, its line count is
    /// bounded by the bytes read, and the source is valid UTF-8.
    pub closed spec fn wf(&self) -> bool {
        &&& self.start <= self.current <= self.source@.len()
        &&& 1 <= self.line <= self.current + 1
        &&& valid_utf8(self.source@)
    }

    /// A scanner over `source`, before any token.
    pub fn new(source: &str) -> (s: Self)
        ensures
            s.wf(),
            s.source_bytes() == source.spec_bytes(),
            s.scanned() == Seq::<SToken>::empty(),
            s.position() == 0,
            s.current_line() == 1,
    {
        let s = Scanner {
            source: vstd::slice::slice_to_vec(source.as_bytes()),
            tokens: Vec::new(),
            start: 0,
            current: 0,
            line: 1,
        };
        assert(tokens_view(s.tokens@) =~= Seq::<SToken>::empty());
        proof {
            encode_utf8_valid_utf8(source@);
        }
        s
    }

    /// Scans the whole remaining source. Returns the tokens scanned so far,
    /// ended by an end-of-file token, and one error message for each byte
    /// that starts no token.
    pub fn scan_tokens(&mut self) -> (r: (&Vec<Token>, Vec<String>))
        requires
            old(self).wf(),
            old(self).source_bytes().len() < usize::MAX,
            !scan_from(old(self).source_bytes(), old(self).position() as int, old(self).current_line()).unterminated,
        ensures
            final(self).wf(),
            ({
                let total = scan_from(old(self).source_bytes(), old(self).position() as int, old(self).current_line());
                &&& final(self).source_bytes() == old(self).source_bytes()
                &&& final(self).position() == old(self).source_bytes().len()
                &&& final(self).current_line() == total.line
                &&& final(self).scanned() == old(self).scanned() + total.tokens.push(eof_token(total.line))
                &&& strings_view(r.1@) == total.errors
            }),
            tokens_view(r.0@) == final(self).scanned(),
    {
        let ghost src = self.source@;
        let ghost total = scan_from(src, self.current as int, self.line as nat);
        let ghost old_tokens = tokens_view(self.tokens@);
        let mut errors: Vec<String> = Vec::new();
        assert(strings_view(errors@) + total.errors =~= total.errors);
        assert(old_tokens + total.tokens =~= old_tokens + total.tokens);
        while !self.is_at_end()
            invariant
                self.wf(),
                self.source@ == src,
                src.len() < usize::MAX,
                tokens_view(self.tokens@) + scan_from(src, self.current as int, self.line as nat).tokens
                    == old_tokens + total.tokens,
                strings_view(errors@) + scan_from(src, self.current as int, self.line as nat).errors
                    == total.errors,
                scan_from(src, self.current as int, self.line as nat).line == total.line,
                !scan_from(src, self.current as int, self.line as nat).unterminated,
            decreases src.len() - self.current,
        {
            self.start = self.current;
            let ghost before = tokens_view(self.tokens@);
            let ghost s0 = self.current as int;
            let ghost l0 = self.line as nat;
            let ghost errs0 = strings_view(errors@);
            proof {
                lemma_step_advances(src, s0);
            }
            let res = self.scan_token();
            let ghost rest = scan_from(src, self.current as int, self.line as nat);
            match res {
                Err(message) => {
                    errors.push(message);
                    assert(strings_view(errors@) =~= errs0.push(bad_byte_message(src[s0], l0)));
                    assert(strings_view(errors@) + rest.errors =~= errs0 + (seq![bad_byte_message(src[s0], l0)] + rest.errors));
                },
                Ok(()) => {},
            }
            let ghost k = lex_step(src, s0).0;
            let ghost e = lex_step(src, s0).1;
            let ghost t = step_token(src, s0, k, e, self.line as nat);
            proof {
                if t is Some {
                    assert(tokens_view(self.tokens@) + rest.tokens =~= before + (seq![t.unwrap()] + rest.tokens));
                }
            }
        }
        let ghost before = self.tokens@;
        assert(scan_from(src, self.current as int, self.line as nat).tokens =~= Seq::<SToken>::empty());
        let eof = Token {
            ttype: TokenType::Eof,
            lexeme: String::new(),
            literal: LiteralType::NoneValue,
            line: self.line,
        };
        self.tokens.push(eof);
        assert(tokens_view(self.tokens@) =~= tokens_view(before).push(eof_token(total.line)));
        assert(tokens_view(self.tokens@) =~= old_tokens + total.tokens.push(eof_token(total.line)));
        (&self.tokens, errors)
    }

    /// Whether the step at the current position meets a string that is
    /// never closed.
    fn step_unterminated(&self) -> (b: bool)
        requires
            self.current < self.source@.len(),
        ensures
            b == (lex_step(self.source@, self.current as int).0 is Unterminated),
    {
        let ghost src = self.source@;
        let n = self.source.len();
        if self.source[self.current] != QUOTE {
            return false;
        }
        let mut i = self.current + 1;
        let ghost mut l: nat = 0;
        while i < self.source.len() && self.source[i] != QUOTE
            invariant
                self.current + 1 <= i <= src.len(),
                src == self.source@,
                string_scan(src, self.current + 1, 0) == string_scan(src, i as int, l),
            decreases src.len() - i,
        {
            proof {
                l = if src[i as int] == NEWLINE {
                    l + 1
                } else {
                    l
                };
            }
            i += 1;
        }
        i >= self.source.len()
    }

    /// Whether scanning the rest of the source would meet a string that is
    /// never closed, on which `scan_tokens` cannot go on.
    pub fn open_string_ahead(&self) -> (b: bool)
        requires
            self.wf(),
            self.source_bytes().len() < usize::MAX,
        ensures
            b == scan_from(self.source_bytes(), self.position() as int, self.current_line()).unterminated,
    {
        let ghost src = self.source@;
        let mut probe = Scanner {
            source: vstd::slice::slice_to_vec(self.source.as_slice()),
            tokens: Vec::new(),
            start: self.current,
            current: self.current,
            line: self.line,
        };
        while !probe.is_at_end()
            invariant
                probe.wf(),
                probe.source@ == src,
                src == self.source@,
                src.len() < usize::MAX,
                scan_from(src, self.current as int, self.line as nat).unterminated == scan_from(
                    src,
                    probe.current as int,
                    probe.line as nat,
                ).unterminated,
            decreases src.len() - probe.current,
        {
            if probe.step_unterminated() {
                assert(scan_from(src, probe.current as int, probe.line as nat).unterminated);
                return true;
            }
            probe.start = probe.current;
            proof {
                lemma_step_advances(src, probe.current as int);
            }
            let _ = probe.scan_token();
        }
        false
    }

    fn is_at_end(&self) -> (b: bool)
        ensures
            b == (self.current >= self.source@.len()),
            self.source@.len() <= usize::MAX,
    {
        self.current >= self.source.len()
    }

    fn peek(&self) -> (b: u8)
        ensures
            b == byte_at(self.source@, self.current as int),
    {
        if self.is_at_end() {
            0
        } else {
            self.source[self.current]
        }
    }

    fn peek_next(&self) -> (b: u8)
        ensures
            b == byte_at(self.source@, self.current + 1),
    {
        if self.current >= self.source.len() || self.current + 1 >= self.source.len() {
            0
        } else {
            self.source[self.current + 1]
        }
    }

    fn advance(&mut self) -> (b: u8)
        requires
            old(self).current < old(self).source@.len(),
        ensures
            b == old(self).source@[old(self).current as int],
            final(self).current == old(self).current + 1,
            final(self).source@ == old(self).source@,
            final(self).tokens@ == old(self).tokens@,
            final(self).start == old(self).start,
            final(self).line == old(self).line,
    {
        let n = self.source.len();
        let b = self.source[self.current];
        self.current = self.current + 1;
        b
    }

    fn match_current_char(&mut self, expected: u8) -> (b: bool)
        requires
            expected != 0,
        ensures
            b == (byte_at(old(self).source@, old(self).current as int) == expected),
            final(self).current == if b { old(self).current + 1 } else { old(self).current as int },
            final(self).source@ == old(self).source@,
            final(self).tokens@ == old(self).tokens@,
            final(self).start == old(self).start,
            final(self).line == old(self).line,
    {
        if self.is_at_end() {
            return false;
        }
        if self.source[self.current] != expected {
            return false;
        }
        let n = self.source.len();
        self.current = self.current + 1;
        true
    }

    fn add_token(&mut self, ttype: TokenType)
        requires
            old(self).start < old(self).current <= old(self).source@.len(),
            old(self).source@[old(self).start as int] <= 0x7f,
            old(self).source@[old(self).current - 1] <= 0x7f,
            valid_utf8(old(self).source@),
        ensures
            final(self).tokens@.len() == old(self).tokens@.len() + 1,
            tokens_view(final(self).tokens@) == tokens_view(old(self).tokens@).push(
                SToken {
                    ttype,
                    lexeme: decode_utf8(old(self).source@.subrange(old(self).start as int, old(self).current as int)),
                    literal: SLiteral::Nothing,
                    line: old(self).line as nat,
                },
            ),
            final(self).current == old(self).current,
            final(self).source@ == old(self).source@,
            final(self).start == old(self).start,
            final(self).line == old(self).line,
    {
        self.add_token_literal(ttype, LiteralType::NoneValue);
    }

    fn add_token_literal(&mut self, ttype: TokenType, literal: LiteralType)
        requires
            old(self).start < old(self).current <= old(self).source@.len(),
            old(self).source@[old(self).start as int] <= 0x7f,
            old(self).source@[old(self).current - 1] <= 0x7f,
            valid_utf8(old(self).source@),
        ensures
            tokens_view(final(self).tokens@) == tokens_view(old(self).tokens@).push(
                SToken {
                    ttype,
                    lexeme: decode_utf8(old(self).source@.subrange(old(self).start as int, old(self).current as int)),
                    literal: literal@,
                    line: old(self).line as nat,
                },
            ),
            final(self).tokens@.len() == old(self).tokens@.len() + 1,
            final(self).current == old(self).current,
            final(self).source@ == old(self).source@,
            final(self).start == old(self).start,
            final(self).line == old(self).line,
    {
        proof {
            lemma_ascii_ends_valid(self.source@, self.start as int, self.current as int);
        }
        let text = text_of_bytes(vstd::slice::slice_subrange(self.source.as_slice(), self.start, self.current));
        let ghost before = self.tokens@;
        self.tokens.push(Token { ttype, lexeme: text, literal, line: self.line });
        assert(tokens_view(self.tokens@) =~= tokens_view(before).push(
            SToken {
                ttype,
                lexeme: decode_utf8(self.source@.subrange(self.start as int, self.current as int)),
                literal: literal@,
                line: self.line as nat,
            },
        ));
    }

    fn scan_token(&mut self) -> (r: Result<(), String>)
        requires
            old(self).wf(),
            old(self).start == old(self).current,
            old(self).current < old(self).source@.len(),
            old(self).source@.len() < usize::MAX,
            !(lex_step(old(self).source@, old(self).start as int).0 is Unterminated),
        ensures
            ({
                let src = old(self).source@;
                let s = old(self).start as int;
                let k = lex_step(src, s).0;
                let e = lex_step(src, s).1;
                let line2 = line_after(src, s, old(self).line as nat);
                &&& final(self).wf()
                &&& final(self).source@ == old(self).source@
                &&& final(self).start == old(self).start
                &&& final(self).current == e
                &&& final(self).line == line2
                &&& tokens_view(final(self).tokens@) == match step_token(src, s, k, e, line2) {
                    Some(t) => tokens_view(old(self).tokens@).push(t),
                    None => tokens_view(old(self).tokens@),
                }
                &&& (r is Err <==> k is Bad)
                &&& (r matches Err(m) ==> m@ == bad_byte_message(src[s], old(self).line as nat))
            }),
    {
        let ghost src = self.source@;
        let ghost s = self.start as int;
        proof {
            lemma_step_advances(src, s);
        }
        let c = self.advance();
        if c == LEFT_PAREN {
            self.add_token(TokenType::LeftParen);
        } else if c == RIGHT_PAREN {
            self.add_token(TokenType::RightParen);
        } else if c == LEFT_BRACE {
            self.add_token(TokenType::LeftBrace);
        } else if c == RIGHT_BRACE {
            self.add_token(TokenType::RightBrace);
        } else if c == COMMA {
            self.add_token(TokenType::Comma);
        } else if c == DOT {
            self.add_token(TokenType::Dot);
        } else if c == MINUS {
            self.add_token(TokenType::Minus);
        } else if c == PLUS {
            self.add_token(TokenType::Plus);
        } else if c == SEMICOLON {
            self.add_token(TokenType::Semicolon);
        } else if c == STAR {
            self.add_token(TokenType::Star);
        } else if c == BANG {
            let t = if self.match_current_char(EQUAL) {
                TokenType::BangEqual
            } else {
                TokenType::Bang
            };
            self.add_token(t);
        } else if c == EQUAL {
            let t = if self.match_current_char(EQUAL) {
                TokenType::EqualEqual
            } else {
                TokenType::Equal
            };
            self.add_token(t);
        } else if c == LESS {
            let t = if self.match_current_char(EQUAL) {
                TokenType::LessEqual
            } else {
                TokenType::Less
            };
            self.add_token(t);
        } else if c == GREATER {
            let t = if self.match_current_char(EQUAL) {
                TokenType::GreaterEqual
            } else {
                TokenType::Greater
            };
            self.add_token(t);
        } else if c == SLASH {
            if self.match_current_char(SLASH) {
                while self.peek() != NEWLINE && !self.is_at_end()
                    invariant
                        self.source@ == src,
                        self.start == s,
                        s + 2 <= self.current <= src.len(),
                        comment_end(src, self.current as int) == comment_end(src, s + 2),
                        self.line == old(self).line,
                        self.tokens@ == old(self).tokens@,
                    decreases src.len() - self.current,
                {
                    self.advance();
                }
            } else {
                self.add_token(TokenType::Slash);
            }
        } else if c == SPACE || c == CARRIAGE_RETURN || c == TAB {
        } else if c == NEWLINE {
            self.line = self.line + 1;
        } else if c == QUOTE {
            self.string();
        } else if 48 <= c && c <= 57 {
            self.number();
        } else if (65 <= c && c <= 90) || (97 <= c && c <= 122) || c == UNDERSCORE {
            self.identifier();
        } else {
            let mut message = String::from_str("Unsupported character '");
            push_char(&mut message, c as char);
            push_str(&mut message, "' at line ");
            push_decimal(&mut message, self.line as u64);
            assert(message@ =~= bad_byte_message(src[s], old(self).line as nat));
            return Err(message);
        }
        Ok(())
    }

    fn string(&mut self)
        requires
            old(self).wf(),
            old(self).start + 1 == old(self).current,
            old(self).line <= old(self).start + 1,
            old(self).source@.len() < usize::MAX,
            byte_at(old(self).source@, old(self).start as int) == QUOTE,
            string_scan(old(self).source@, old(self).current as int, 0).0 < old(self).source@.len(),
        ensures
            ({
                let src = old(self).source@;
                let s = old(self).start as int;
                let close = string_scan(src, s + 1, 0).0;
                let line2 = string_scan(src, s + 1, old(self).line as nat).1;
                &&& final(self).wf()
                &&& final(self).source@ == old(self).source@
                &&& final(self).start == old(self).start
                &&& final(self).current == close + 1
                &&& final(self).line == line2
                &&& tokens_view(final(self).tokens@) == tokens_view(old(self).tokens@).push(
                    SToken {
                        ttype: TokenType::String,
                        lexeme: decode_utf8(src.subrange(s, close + 1)),
                        literal: SLiteral::Str(decode_utf8(src.subrange(s + 1, close))),
                        line: line2,
                    },
                )
            }),
    {
        let ghost src = self.source@;
        let ghost s = self.start as int;
        let ghost l0 = self.line as nat;
        proof {
            lemma_string_scan_close(src, s + 1, 0, l0);
            lemma_string_scan_lines(src, s + 1, l0);
        }
        while self.peek() != QUOTE && !self.is_at_end()
            invariant
                self.source@ == src,
                self.start == s,
                s + 1 <= self.current <= src.len(),
                string_scan(src, self.current as int, self.line as nat) == string_scan(src, s + 1, l0),
                self.line <= l0 + (self.current - (s + 1)),
                1 <= l0 <= self.line,
                l0 <= s + 1,
                self.tokens@ == old(self).tokens@,
                string_scan(src, s + 1, l0).0 < src.len(),
                src.len() < usize::MAX,
            decreases src.len() - self.current,
        {
            if self.peek() == NEWLINE {
                self.line = self.line + 1;
            }
            self.advance();
        }
        let closing = self.advance();
        proof {
            assert(closing == QUOTE);
            lemma_ascii_inner_valid(src, s, self.current - 1);
        }
        let value = text_of_bytes(vstd::slice::slice_subrange(self.source.as_slice(), self.start + 1, self.current - 1));
        self.add_token_literal(TokenType::String, LiteralType::StringValue(value));
    }

    fn number(&mut self)
        requires
            old(self).wf(),
            old(self).start + 1 == old(self).current,
            is_digit(byte_at(old(self).source@, old(self).start as int)),
        ensures
            ({
                let src = old(self).source@;
                let s = old(self).start as int;
                let e = number_end(src, s);
                &&& final(self).wf()
                &&& final(self).source@ == old(self).source@
                &&& final(self).start == old(self).start
                &&& final(self).current == e
                &&& final(self).line == old(self).line
                &&& tokens_view(final(self).tokens@) == tokens_view(old(self).tokens@).push(
                    SToken {
                        ttype: TokenType::Number,
                        lexeme: decode_utf8(src.subrange(s, e)),
                        literal: SLiteral::Num(decode_utf8(src.subrange(s, e))),
                        line: old(self).line as nat,
                    },
                )
            }),
    {
        let ghost src = self.source@;
        let ghost s = self.start as int;
        while 48 <= self.peek() && self.peek() <= 57
            invariant
                self.source@ == src,
                self.start == s,
                s + 1 <= self.current <= src.len(),
                src[self.current - 1] <= 0x7f,
                digits_end(src, self.current as int) == digits_end(src, s + 1),
                self.line == old(self).line,
                self.tokens@ == old(self).tokens@,
            decreases src.len() - self.current,
        {
            self.advance();
        }
        if self.peek() == DOT && 48 <= self.peek_next() && self.peek_next() <= 57 {
            let ghost e1 = self.current as int;
            self.advance();
            while 48 <= self.peek() && self.peek() <= 57
                invariant
                    self.source@ == src,
                    self.start == s,
                    s + 1 <= self.current <= src.len(),
                    src[self.current - 1] <= 0x7f,
                    digits_end(src, self.current as int) == digits_end(src, e1 + 1),
                    self.line == old(self).line,
                    self.tokens@ == old(self).tokens@,
                decreases src.len() - self.current,
            {
                self.advance();
            }
        }
        proof {
            lemma_ascii_ends_valid(src, s, self.current as int);
        }
        let text = text_of_bytes(vstd::slice::slice_subrange(self.source.as_slice(), self.start, self.current));
        self.add_token_literal(TokenType::Number, LiteralType::NumberValue(text));
    }

    fn identifier(&mut self)
        requires
            old(self).wf(),
            old(self).start + 1 == old(self).current,
            old(self).source@[old(self).start as int] <= 0x7f,
        ensures
            ({
                let src = old(self).source@;
                let s = old(self).start as int;
                let e = word_end(src, s + 1);
                &&& final(self).wf()
                &&& final(self).source@ == old(self).source@
                &&& final(self).start == old(self).start
                &&& final(self).current == e
                &&& final(self).line == old(self).line
                &&& tokens_view(final(self).tokens@) == tokens_view(old(self).tokens@).push(
                    SToken {
                        ttype: keyword_type(src.subrange(s, e)),
                        lexeme: decode_utf8(src.subrange(s, e)),
                        literal: SLiteral::Nothing,
                        line: old(self).line as nat,
                    },
                )
            }),
    {
        let ghost src = self.source@;
        let ghost s = self.start as int;
        loop
            invariant
                self.source@ == src,
                self.start == s,
                s + 1 <= self.current <= src.len(),
                src[s] <= 0x7f,
                src[self.current - 1] <= 0x7f,
                word_end(src, self.current as int) == word_end(src, s + 1),
                self.line == old(self).line,
                self.tokens@ == old(self).tokens@,
            ensures
                self.source@ == src,
                self.start == s,
                s + 1 <= self.current <= src.len(),
                src[s] <= 0x7f,
                src[self.current - 1] <= 0x7f,
                self.current == word_end(src, s + 1),
                self.line == old(self).line,
                self.tokens@ == old(self).tokens@,
            decreases src.len() - self.current,
        {
            let b = self.peek();
            if !((48 <= b && b <= 57) || (65 <= b && b <= 90) || (97 <= b && b <= 122) || b == UNDERSCORE) {
                break;
            }
            self.advance();
        }
        let ttype = keyword_of(vstd::slice::slice_subrange(self.source.as_slice(), self.start, self.current));
        self.add_token(ttype);
    }
}


fn same_bytes(w: &[u8], k: &[u8]) -> (b: bool)
    ensures
        b == (w@ == k@),
{
    if w.len() != k.len() {
        return false;
    }
    let mut i: usize = 0;
    while i < w.len()
        invariant
            0 <= i <= w.len(),
            w.len() == k.len(),
            forall|j: int| 0 <= j < i ==> w@[j] == k@[j],
        decreases w.len() - i,
    {
        if w[i] != k[i] {
            return false;
        }
        i += 1;
    }
    assert(w@ =~= k@);
    true
}

/// The token type of a scanned word.
fn keyword_of(w: &[u8]) -> (t: TokenType)
    ensures
        t == keyword_type(w@),
{
    let k_and: [u8; 3] = [97, 110, 100];
    let k_break: [u8; 5] = [98, 114, 101, 97, 107];
    let k_class: [u8; 5] = [99, 108, 97, 115, 115];
    let k_continue: [u8; 8] = [99, 111, 110, 116, 105, 110, 117, 101];
    let k_else: [u8; 4] = [101, 108, 115, 101];
    let k_false: [u8; 5] = [102, 97, 108, 115, 101];
    let k_for: [u8; 3] = [102, 111, 114];
    let k_fun: [u8; 3] = [102, 117, 110];
    let k_if: [u8; 2] = [105, 102];
    let k_nil: [u8; 3] = [110, 105, 108];
    let k_or: [u8; 2] = [111, 114];
    let k_print: [u8; 5] = [112, 114, 105, 110, 116];
    let k_return: [u8; 6] = [114, 101, 116, 117, 114, 110];
    let k_static: [u8; 6] = [115, 116, 97, 116, 105, 99];
    let k_super: [u8; 5] = [115, 117, 112, 101, 114];
    let k_this: [u8; 4] = [116, 104, 105, 115];
    let k_true: [u8; 4] = [116, 114, 117, 101];
    let k_var: [u8; 3] = [118, 97, 114];
    let k_while: [u8; 5] = [119, 104, 105, 108, 101];
    assert(k_and@ == seq![97u8, 110, 100]);
    assert(k_break@ == seq![98u8, 114, 101, 97, 107]);
    assert(k_class@ == seq![99u8, 108, 97, 115, 115]);
    assert(k_continue@ == seq![99u8, 111, 110, 116, 105, 110, 117, 101]);
    assert(k_else@ == seq![101u8, 108, 115, 101]);
    assert(k_false@ == seq![102u8, 97, 108, 115, 101]);
    assert(k_for@ == seq![102u8, 111, 114]);
    assert(k_fun@ == seq![102u8, 117, 110]);
    assert(k_if@ == seq![105u8, 102]);
    assert(k_nil@ == seq![110u8, 105, 108]);
    assert(k_or@ == seq![111u8, 114]);
    assert(k_print@ == seq![112u8, 114, 105, 110, 116]);
    assert(k_return@ == seq![114u8, 101, 116, 117, 114, 110]);
    assert(k_static@ == seq![115u8, 116, 97, 116, 105, 99]);
    assert(k_super@ == seq![115u8, 117, 112, 101, 114]);
    assert(k_this@ == seq![116u8, 104, 105, 115]);
    assert(k_true@ == seq![116u8, 114, 117, 101]);
    assert(k_var@ == seq![118u8, 97, 114]);
    assert(k_while@ == seq![119u8, 104, 105, 108, 101]);
    if same_bytes(w, &k_and) {
        TokenType::And
    } else if same_bytes(w, &k_break) {
        TokenType::Break
    } else if same_bytes(w, &k_class) {
        TokenType::Class
    } else if same_bytes(w, &k_continue) {
        TokenType::Continue
    } else if same_bytes(w, &k_else) {
        TokenType::Else
    } else if same_bytes(w, &k_false) {
        TokenType::False
    } else if same_bytes(w, &k_for) {
        TokenType::For
    } else if same_bytes(w, &k_fun) {
        TokenType::Fun
    } else if same_bytes(w, &k_if) {
        TokenType::If
    } else if same_bytes(w, &k_nil) {
        TokenType::Nil
    } else if same_bytes(w, &k_or) {
        TokenType::Or
    } else if same_bytes(w, &k_print) {
        TokenType::Print
    } else if same_bytes(w, &k_return) {
        TokenType::Return
    } else if same_bytes(w, &k_static) {
        TokenType::Static
    } else if same_bytes(w, &k_super) {
        TokenType::Super
    } else if same_bytes(w, &k_this) {
        TokenType::This
    } else if same_bytes(w, &k_true) {
        TokenType::True
    } else if same_bytes(w, &k_var) {
        TokenType::Var
    } else if same_bytes(w, &k_while) {
        TokenType::While
    } else {
        TokenType::Identifier
    }
}

} // verus!
