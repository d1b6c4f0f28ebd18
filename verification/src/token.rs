//! Lexical tokens.

use vstd::prelude::*;
use crate::lit::{Lit, LitV};
use crate::token_type::TokenType;

verus! {

/// One lexical unit: its kind, the exact source substring it was scanned
/// from, an optional literal payload (numbers and strings only), and the
/// 1-based source line it started on. Immutable once produced.
#[derive(Debug, Clone)]
pub struct Token {
    pub ttype: TokenType,
    pub lexeme: String,
    pub literal: Option<Lit>,
    pub line: usize,
}

/// The mathematical shape of a token.
pub struct TokenV {
    pub ttype: TokenType,
    pub lexeme: Seq<char>,
    pub literal: Option<LitV>,
    pub line: nat,
}

impl View for Token {
    type V = TokenV;

    open spec fn view(&self) -> TokenV {
        TokenV {
            ttype: self.ttype,
            lexeme: self.lexeme@,
            literal: match self.literal {
                Some(l) => Some(l@),
                None => None,
            },
            line: self.line as nat,
        }
    }
}

impl Token {
    pub fn new(ttype: TokenType, lexeme: &str, literal: Option<Lit>, line: usize) -> (t: Token)
        ensures
            t@ == (TokenV {
                ttype,
                lexeme: lexeme@,
                literal: match literal {
                    Some(l) => Some(l@),
                    None => None,
                },
                line: line as nat,
            }),
    {
        Token { ttype, lexeme: lexeme.to_owned(), literal, line }
    }

    /// The synthetic end-of-input token that closes every token sequence.
    pub fn eof(line: usize) -> (t: Token)
        ensures
            t@ == (TokenV {
                ttype: TokenType::Eof,
                lexeme: Seq::<char>::empty(),
                literal: None,
                line: line as nat,
            }),
    {
        Token { ttype: TokenType::Eof, lexeme: String::new(), literal: None, line }
    }

    /// A copy of this token, equal to the original.
    pub fn dup(&self) -> (t: Token)
        ensures
            t == *self,
    {
        Token {
            ttype: self.ttype,
            lexeme: self.lexeme.clone(),
            literal: match &self.literal {
                Some(l) => Some(l.dup()),
                None => None,
            },
            line: self.line,
        }
    }

    pub fn is(&self, tt: TokenType) -> (r: bool)
        ensures
            r == (self.ttype == tt),
    {
        self.ttype == tt
    }
}

} // verus!
