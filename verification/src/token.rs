//! The `token` character class of
//! [RFC 7230, Appendix B](https://tools.ietf.org/html/rfc7230#appendix-B).
//!
//! Method names and header field names are tokens: sequences of `tchar`. A
//! `tchar` is any visible ASCII character that is not a delimiter.

use vstd::prelude::*;

verus! {

/// Whether `b` is a visible (printing, non-blank) ASCII character, `VCHAR`.
pub open spec fn is_visible(b: u8) -> bool {
    0x21 <= b <= 0x7e
}

/// Whether `b` is one of the delimiters `"(),/:;<=>?@[\]{}`.
pub open spec fn is_delimiter(b: u8) -> bool {
    ||| b == '"' as u8
    ||| b == '(' as u8
    ||| b == ')' as u8
    ||| b == ',' as u8
    ||| b == '/' as u8
    ||| b == ':' as u8
    ||| b == ';' as u8
    ||| b == '<' as u8
    ||| b == '=' as u8
    ||| b == '>' as u8
    ||| b == '?' as u8
    ||| b == '@' as u8
    ||| b == '[' as u8
    ||| b == '\\' as u8
    ||| b == ']' as u8
    ||| b == '{' as u8
    ||| b == '}' as u8
}

/// Whether `b` is a `tchar`: a visible character other than a delimiter.
pub open spec fn is_tchar(b: u8) -> bool {
    is_visible(b) && !is_delimiter(b)
}

/// Whether every byte of `s` is a `tchar`.
pub open spec fn is_token(s: Seq<u8>) -> bool {
    forall|i: int| 0 <= i < s.len() ==> is_tchar(#[trigger] s[i])
}

/// A byte, classified as a token character or not.
#[derive(Clone, Copy, Debug, PartialEq, Eq, Structural)]
pub enum TokenType {
    /// A `tchar`: a digit, a letter, or one of ``!#$%&'*+-.^_`|~``.
    TChar(u8),
    /// Any other byte.
    Invalid(u8),
}

impl TokenType {
    /// The classification of `c`.
    pub open spec fn of(c: u8) -> TokenType {
        if is_tchar(c) {
            TokenType::TChar(c)
        } else {
            TokenType::Invalid(c)
        }
    }

    /// Classifies `c`, keeping the byte in either case.
    pub fn from(c: u8) -> (t: TokenType)
        ensures
            t == TokenType::of(c),
    {
        match c {
            // ! # $ % & '
            0x21 | 0x23 | 0x24 | 0x25 | 0x26 | 0x27 => TokenType::TChar(c),
            // * + - .
            0x2a | 0x2b | 0x2d | 0x2e => TokenType::TChar(c),
            // ^ _ ` | ~
            0x5e | 0x5f | 0x60 | 0x7c | 0x7e => TokenType::TChar(c),
            // 0-9, A-Z, a-z
            0x30..=0x39 | 0x41..=0x5a | 0x61..=0x7a => TokenType::TChar(c),
            _ => TokenType::Invalid(c),
        }
    }
}

} // verus!
