//! Diagnostics: lexical, parse and runtime errors.
//!
//! An error value carries enough context (a 1-based source line, and for
//! parse and runtime errors the offending token) to render one diagnostic
//! line. Rendering is pure: `report` returns the line, and the caller owns
//! the stream it goes to.

use vstd::prelude::*;
use vstd::string::StringExecFns;
use crate::token::{Token, TokenV};
use crate::token_type::TokenType;

verus! {

/// The decimal digit character for `d`.
pub open spec fn spec_digit_char(d: nat) -> char {
    if d == 0 {
        '0'
    } else if d == 1 {
        '1'
    } else if d == 2 {
        '2'
    } else if d == 3 {
        '3'
    } else if d == 4 {
        '4'
    } else if d == 5 {
        '5'
    } else if d == 6 {
        '6'
    } else if d == 7 {
        '7'
    } else if d == 8 {
        '8'
    } else {
        '9'
    }
}

/// The decimal rendering of a natural number, most significant digit
/// first.
pub open spec fn spec_dec(n: nat) -> Seq<char>
    decreases n,
{
    if n < 10 {
        seq![spec_digit_char(n)]
    } else {
        spec_dec(n / 10).push(spec_digit_char(n % 10))
    }
}

fn digit_str(d: usize) -> (r: &'static str)
    requires
        d < 10,
    ensures
        r@ == seq![spec_digit_char(d as nat)],
{
    proof {
        reveal_strlit("0");
        reveal_strlit("1");
        reveal_strlit("2");
        reveal_strlit("3");
        reveal_strlit("4");
        reveal_strlit("5");
        reveal_strlit("6");
        reveal_strlit("7");
        reveal_strlit("8");
        reveal_strlit("9");
    }
    let r: &'static str = if d == 0 {
        "0"
    } else if d == 1 {
        "1"
    } else if d == 2 {
        "2"
    } else if d == 3 {
        "3"
    } else if d == 4 {
        "4"
    } else if d == 5 {
        "5"
    } else if d == 6 {
        "6"
    } else if d == 7 {
        "7"
    } else if d == 8 {
        "8"
    } else {
        "9"
    };
    proof {
        assert(r@ =~= seq![spec_digit_char(d as nat)]);
    }
    r
}

/// Renders `n` in decimal.
pub fn decimal(n: usize) -> (r: String)
    ensures
        r@ == spec_dec(n as nat),
    decreases n,
{
    if n < 10 {
        String::from_str(digit_str(n))
    } else {
        let mut s = decimal(n / 10);
        s.append(digit_str(n % 10));
        proof {
            assert(s@ =~= spec_dec(n as nat));
        }
        s
    }
}

/// An error raised by the scanner, the parser or the interpreter.
#[derive(Debug, Clone)]
pub enum LoxResult {
    ParseError { token: Token, message: String },
    RuntimeError { token: Token, message: String },
    Error { line: usize, message: String },
}

/// The mathematical shape of an error.
pub enum LoxResultV {
    ParseError { token: TokenV, message: Seq<char> },
    RuntimeError { token: TokenV, message: Seq<char> },
    Error { line: nat, message: Seq<char> },
}

impl View for LoxResult {
    type V = LoxResultV;

    open spec fn view(&self) -> LoxResultV {
        match self {
            LoxResult::ParseError { token, message } => LoxResultV::ParseError {
                token: token@,
                message: message@,
            },
            LoxResult::RuntimeError { token, message } => LoxResultV::RuntimeError {
                token: token@,
                message: message@,
            },
            LoxResult::Error { line, message } => LoxResultV::Error {
                line: *line as nat,
                message: message@,
            },
        }
    }
}

/// The one diagnostic line an error renders to: the source line, the
/// offending lexeme (or an end-of-input marker), and the message.
pub open spec fn spec_report(e: LoxResultV, loc: Seq<char>) -> Seq<char> {
    match e {
        LoxResultV::Error { line, message } => "[line: "@ + spec_dec(line) + "] Error"@ + loc
            + ": "@ + message,
        LoxResultV::ParseError { token, message } | LoxResultV::RuntimeError {
            token,
            message,
        } => if token.ttype == TokenType::Eof {
            spec_dec(token.line) + " at end "@ + message
        } else {
            spec_dec(token.line) + " at '"@ + token.lexeme + "' "@ + message
        },
    }
}

impl LoxResult {
    /// A lexical error at `line`.
    pub fn error(line: usize, message: &str) -> (e: LoxResult)
        ensures
            e@ == (LoxResultV::Error { line: line as nat, message: message@ }),
    {
        LoxResult::Error { line, message: message.to_owned() }
    }

    /// A parse error at `token`.
    pub fn parse_error(token: Token, message: &str) -> (e: LoxResult)
        ensures
            e@ == (LoxResultV::ParseError { token: token@, message: message@ }),
    {
        LoxResult::ParseError { token, message: message.to_owned() }
    }

    /// A runtime error at `token`.
    pub fn runtime_error(token: Token, message: &str) -> (e: LoxResult)
        ensures
            e@ == (LoxResultV::RuntimeError { token: token@, message: message@ }),
    {
        LoxResult::RuntimeError { token, message: message.to_owned() }
    }

    /// Renders the diagnostic line for this error; `loc` is extra location
    /// context spliced into lexical-error reports.
    pub fn report(&self, loc: &str) -> (r: String)
        ensures
            r@ == spec_report(self@, loc@),
    {
        match self {
            LoxResult::Error { line, message } => {
                let mut out = String::from_str("[line: ");
                out.append(decimal(*line).as_str());
                out.append("] Error");
                out.append(loc);
                out.append(": ");
                out.append(message.as_str());
                proof {
                    assert(out@ =~= spec_report(self@, loc@));
                }
                out
            },
            LoxResult::ParseError { token, message } | LoxResult::RuntimeError {
                token,
                message,
            } => {
                let mut out = decimal(token.line);
                if token.is(TokenType::Eof) {
                    out.append(" at end ");
                    out.append(message.as_str());
                } else {
                    out.append(" at '");
                    out.append(token.lexeme.as_str());
                    out.append("' ");
                    out.append(message.as_str());
                }
                proof {
                    assert(out@ =~= spec_report(self@, loc@));
                }
                out
            },
        }
    }
}

} // verus!
