//! The single-byte tokens of the transaction language.
use crate::matcher::Match;
use vstd::prelude::*;

verus! {

/// A token that is one byte long.
#[derive(Debug, Clone, Copy, PartialEq, Eq)]
pub enum Token {
    /// The `(` character
    OpenParen,
    /// The `)` character
    CloseParen,
    /// The `"` character
    DoubleQuote,
    /// The `=` character
    Equal,
    /// The `>` character
    GreaterThan,
    /// The `<` character
    LessThan,
    /// The `\n` character
    Ln,
    /// The space character
    Whitespace,
    /// The `\t` character
    Tab,
}

impl Token {
    /// The byte that the token is written with.
    pub open spec fn byte(self) -> u8 {
        match self {
            Token::OpenParen => '(' as u8,
            Token::CloseParen => ')' as u8,
            Token::DoubleQuote => '"' as u8,
            Token::Equal => '=' as u8,
            Token::GreaterThan => '>' as u8,
            Token::LessThan => '<' as u8,
            Token::Ln => '\n' as u8,
            Token::Whitespace => ' ' as u8,
            Token::Tab => '\t' as u8,
        }
    }
}

/// Calls elyze's `recognizer::recognize` with the token of elyze that has
/// the same name, on a fresh elyze scanner over `data`. It succeeds where
/// `data` is not empty and begins with the token's byte; on empty input it
/// reports the end of input, on another byte an unexpected token.
#[verifier::external_body]
pub(crate) fn recognize(token: Token, data: &[u8]) -> (found: bool)
    ensures
        found == (data@.len() > 0 && data@[0] == token.byte()),
{
    let token = match token {
        Token::OpenParen => elyze::bytes::token::Token::OpenParen,
        Token::CloseParen => elyze::bytes::token::Token::CloseParen,
        Token::DoubleQuote => elyze::bytes::token::Token::DoubleQuote,
        Token::Equal => elyze::bytes::token::Token::Equal,
        Token::GreaterThan => elyze::bytes::token::Token::GreaterThan,
        Token::LessThan => elyze::bytes::token::Token::LessThan,
        Token::Ln => elyze::bytes::token::Token::Ln,
        Token::Whitespace => elyze::bytes::token::Token::Whitespace,
        Token::Tab => elyze::bytes::token::Token::Tab,
    };
    elyze::recognizer::recognize(token, &mut elyze::scanner::Scanner::new(data)).is_ok()
}

impl Match for Token {
    open spec fn matches(&self, s: Seq<u8>) -> bool {
        s.len() > 0 && s[0] == self.byte()
    }

    open spec fn length(&self) -> nat {
        1
    }

    proof fn lemma_match_fits(&self, s: Seq<u8>) {
    }

    fn is_matching(&self, data: &[u8]) -> (r: (bool, usize)) {
        if recognize(*self, data) {
            (true, 1)
        } else {
            (false, 0)
        }
    }

    fn size(&self) -> (n: usize) {
        1
    }
}

} // verus!
