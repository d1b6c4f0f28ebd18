//! The lexical scanner.
//!
//! One left-to-right pass over the source turns it into a token sequence,
//! always closed by a synthetic end-of-input token. Errors (an unexpected
//! character, an unterminated string, an unterminated block comment) are
//! collected and scanning continues. The meaning of the pass is the
//! recursive function `scan_spec`, built from the one-lexeme function
//! `scan_step`; `scan_tokens` returns exactly what it says. Identifiers
//! are ASCII: a letter, then letters and digits; `//` comments run to the
//! line's end and `/* */` comments nest to any depth.

use vstd::prelude::*;
use vstd::string::StrSliceExecFns;
use crate::error::{LoxResult, LoxResultV};
use crate::lit::{Lit, LitV};
use crate::num::{num_parse, parse_bits, spec_is_digit};
use crate::token::{Token, TokenV};
use crate::token_type::TokenType;

verus! {

pub open spec fn spec_is_alpha(c: char) -> bool {
    ('a' <= c && c <= 'z') || ('A' <= c && c <= 'Z')
}

pub open spec fn spec_is_alnum(c: char) -> bool {
    spec_is_alpha(c) || spec_is_digit(c)
}

/// The index of the first `"` at or after `i`, if any.
pub open spec fn find_quote(src: Seq<char>, i: int) -> Option<int>
    decreases src.len() - i,
{
    if i < 0 || i >= src.len() {
        None
    } else if src[i] == '"' {
        Some(i)
    } else {
        find_quote(src, i + 1)
    }
}

/// The index of the first newline at or after `i`, or the source's end.
pub open spec fn find_newline(src: Seq<char>, i: int) -> int
    decreases src.len() - i,
{
    if i < 0 || i >= src.len() {
        src.len() as int
    } else if src[i] == '\n' {
        i
    } else {
        find_newline(src, i + 1)
    }
}

/// The index just past the run of digits starting at `i`.
pub open spec fn skip_digits(src: Seq<char>, i: int) -> int
    decreases src.len() - i,
{
    if 0 <= i < src.len() && spec_is_digit(src[i]) {
        skip_digits(src, i + 1)
    } else {
        i
    }
}

/// The index just past the run of letters and digits starting at `i`.
pub open spec fn skip_alnum(src: Seq<char>, i: int) -> int
    decreases src.len() - i,
{
    if 0 <= i < src.len() && spec_is_alnum(src[i]) {
        skip_alnum(src, i + 1)
    } else {
        i
    }
}

/// The index just past the `*/` that closes `depth` nested block comments
/// entered before `i`, if the source closes them all.
pub open spec fn block_comment_end(src: Seq<char>, i: int, depth: nat) -> Option<int>
    decreases src.len() - i,
{
    if i < 0 || i >= src.len() {
        None
    } else if src[i] == '*' && i + 1 < src.len() && src[i + 1] == '/' {
        if depth <= 1 {
            Some(i + 2)
        } else {
            block_comment_end(src, i + 2, (depth - 1) as nat)
        }
    } else if src[i] == '/' && i + 1 < src.len() && src[i + 1] == '*' {
        block_comment_end(src, i + 2, depth + 1)
    } else {
        block_comment_end(src, i + 1, depth)
    }
}

/// How many newlines lie in `src[a..b)`.
pub open spec fn count_newlines(src: Seq<char>, a: int, b: int) -> nat
    decreases b - a,
{
    if a < 0 || a >= b || b > src.len() {
        0
    } else {
        (if src[a] == '\n' {
            1nat
        } else {
            0nat
        }) + count_newlines(src, a + 1, b)
    }
}

/// The fixed keyword table; any other identifier is plain.
pub open spec fn keyword_of(s: Seq<char>) -> Option<TokenType> {
    if s == "and"@ {
        Some(TokenType::And)
    } else if s == "class"@ {
        Some(TokenType::Class)
    } else if s == "else"@ {
        Some(TokenType::Else)
    } else if s == "false"@ {
        Some(TokenType::False)
    } else if s == "for"@ {
        Some(TokenType::For)
    } else if s == "fun"@ {
        Some(TokenType::Fun)
    } else if s == "if"@ {
        Some(TokenType::If)
    } else if s == "nil"@ {
        Some(TokenType::Nil)
    } else if s == "or"@ {
        Some(TokenType::Or)
    } else if s == "print"@ {
        Some(TokenType::Print)
    } else if s == "return"@ {
        Some(TokenType::Return)
    } else if s == "super"@ {
        Some(TokenType::Super)
    } else if s == "this"@ {
        Some(TokenType::This)
    } else if s == "true"@ {
        Some(TokenType::True)
    } else if s == "var"@ {
        Some(TokenType::Var)
    } else if s == "while"@ {
        Some(TokenType::While)
    } else {
        None
    }
}

/// A token without a literal payload, spanning `src[i..j)`.
pub open spec fn plain_tok(src: Seq<char>, i: int, j: int, line: int, ttype: TokenType) -> TokenV {
    TokenV { ttype, lexeme: src.subrange(i, j), literal: None, line: line as nat }
}

pub open spec fn lex_err(line: int, msg: Seq<char>) -> LoxResultV {
    LoxResultV::Error { line: line as nat, message: msg }
}

/// What one scanning step does, looking at `src[i]` on line `line`: where
/// the cursor and line counter move, and the token or error it yields.
#[verifier::ext_equal]
pub struct StepV {
    pub next: int,
    pub line2: int,
    pub tok: Option<TokenV>,
    pub err: Option<LoxResultV>,
}

pub open spec fn step_tok(next: int, line2: int, t: TokenV) -> StepV {
    StepV { next, line2, tok: Some(t), err: None }
}

pub open spec fn step_skip(next: int, line2: int) -> StepV {
    StepV { next, line2, tok: None, err: None }
}

pub open spec fn step_err(next: int, line2: int, e: LoxResultV) -> StepV {
    StepV { next, line2, tok: None, err: Some(e) }
}

/// One lexeme's worth of scanning, with the cursor at `i` (which must be
/// in range) and the line counter at `line`.
pub open spec fn scan_step(src: Seq<char>, i: int, line: int) -> StepV {
    let c = src[i];
    if c == '(' {
        step_tok(i + 1, line, plain_tok(src, i, i + 1, line, TokenType::LeftParen))
    } else if c == ')' {
        step_tok(i + 1, line, plain_tok(src, i, i + 1, line, TokenType::RightParen))
    } else if c == '{' {
        step_tok(i + 1, line, plain_tok(src, i, i + 1, line, TokenType::LeftBrace))
    } else if c == '}' {
        step_tok(i + 1, line, plain_tok(src, i, i + 1, line, TokenType::RightBrace))
    } else if c == ',' {
        step_tok(i + 1, line, plain_tok(src, i, i + 1, line, TokenType::Comma))
    } else if c == '.' {
        step_tok(i + 1, line, plain_tok(src, i, i + 1, line, TokenType::Dot))
    } else if c == '-' {
        step_tok(i + 1, line, plain_tok(src, i, i + 1, line, TokenType::Minus))
    } else if c == '+' {
        step_tok(i + 1, line, plain_tok(src, i, i + 1, line, TokenType::Plus))
    } else if c == ';' {
        step_tok(i + 1, line, plain_tok(src, i, i + 1, line, TokenType::Semicolon))
    } else if c == '*' {
        step_tok(i + 1, line, plain_tok(src, i, i + 1, line, TokenType::Star))
    } else if c == '!' {
        if i + 1 < src.len() && src[i + 1] == '=' {
            step_tok(i + 2, line, plain_tok(src, i, i + 2, line, TokenType::BangEqual))
        } else {
            step_tok(i + 1, line, plain_tok(src, i, i + 1, line, TokenType::Bang))
        }
    } else if c == '=' {
        if i + 1 < src.len() && src[i + 1] == '=' {
            step_tok(i + 2, line, plain_tok(src, i, i + 2, line, TokenType::EqualEqual))
        } else {
            step_tok(i + 1, line, plain_tok(src, i, i + 1, line, TokenType::Equal))
        }
    } else if c == '<' {
        if i + 1 < src.len() && src[i + 1] == '=' {
            step_tok(i + 2, line, plain_tok(src, i, i + 2, line, TokenType::LessEqual))
        } else {
            step_tok(i + 1, line, plain_tok(src, i, i + 1, line, TokenType::Less))
        }
    } else if c == '>' {
        if i + 1 < src.len() && src[i + 1] == '=' {
            step_tok(i + 2, line, plain_tok(src, i, i + 2, line, TokenType::GreaterEqual))
        } else {
            step_tok(i + 1, line, plain_tok(src, i, i + 1, line, TokenType::Greater))
        }
    } else if c == '/' {
        if i + 1 < src.len() && src[i + 1] == '/' {
            step_skip(find_newline(src, i + 2), line)
        } else if i + 1 < src.len() && src[i + 1] == '*' {
            match block_comment_end(src, i + 2, 1) {
                Some(j) => step_skip(j, line + count_newlines(src, i + 2, j)),
                None => step_err(
                    src.len() as int,
                    line + count_newlines(src, i + 2, src.len() as int),
                    lex_err(
                        line + count_newlines(src, i + 2, src.len() as int),
                        "Unterminated block comment."@,
                    ),
                ),
            }
        } else {
            step_tok(i + 1, line, plain_tok(src, i, i + 1, line, TokenType::Slash))
        }
    } else if c == ' ' || c == '\r' || c == '\t' {
        step_skip(i + 1, line)
    } else if c == '\n' {
        step_skip(i + 1, line + 1)
    } else if c == '"' {
        match find_quote(src, i + 1) {
            Some(j) => {
                let line2 = line + count_newlines(src, i + 1, j);
                step_tok(
                    j + 1,
                    line2,
                    TokenV {
                        ttype: TokenType::String,
                        lexeme: src.subrange(i, j + 1),
                        literal: Some(LitV::Str(src.subrange(i + 1, j))),
                        line: line2 as nat,
                    },
                )
            },
            None => {
                let line2 = line + count_newlines(src, i + 1, src.len() as int);
                step_err(src.len() as int, line2, lex_err(line2, "Unterminated String."@))
            },
        }
    } else if spec_is_digit(c) {
        let k1 = skip_digits(src, i + 1);
        let end = if k1 < src.len() && src[k1] == '.' && k1 + 1 < src.len() && spec_is_digit(
            src[k1 + 1],
        ) {
            skip_digits(src, k1 + 1)
        } else {
            k1
        };
        step_tok(
            end,
            line,
            TokenV {
                ttype: TokenType::Number,
                lexeme: src.subrange(i, end),
                literal: Some(LitV::Num(parse_bits(src.subrange(i, end)))),
                line: line as nat,
            },
        )
    } else if spec_is_alpha(c) {
        let end = skip_alnum(src, i + 1);
        let ttype = match keyword_of(src.subrange(i, end)) {
            Some(k) => k,
            None => TokenType::Identifier,
        };
        step_tok(end, line, plain_tok(src, i, end, line, ttype))
    } else {
        step_err(i + 1, line, lex_err(line, "Unexpected character."@))
    }
}

pub proof fn lemma_find_quote_ge(src: Seq<char>, i: int)
    ensures
        find_quote(src, i) matches Some(j) ==> i <= j < src.len(),
    decreases src.len() - i,
{
    if 0 <= i < src.len() && src[i] != '"' {
        lemma_find_quote_ge(src, i + 1);
    }
}

pub proof fn lemma_find_newline_ge(src: Seq<char>, i: int)
    ensures
        i <= src.len() ==> find_newline(src, i) >= i,
        find_newline(src, i) <= src.len(),
    decreases src.len() - i,
{
    if 0 <= i < src.len() && src[i] != '\n' {
        lemma_find_newline_ge(src, i + 1);
    }
}

pub proof fn lemma_skip_digits_ge(src: Seq<char>, i: int)
    ensures
        skip_digits(src, i) >= i,
        i <= src.len() ==> skip_digits(src, i) <= src.len(),
    decreases src.len() - i,
{
    if 0 <= i < src.len() && spec_is_digit(src[i]) {
        lemma_skip_digits_ge(src, i + 1);
    }
}

pub proof fn lemma_skip_alnum_ge(src: Seq<char>, i: int)
    ensures
        skip_alnum(src, i) >= i,
        i <= src.len() ==> skip_alnum(src, i) <= src.len(),
    decreases src.len() - i,
{
    if 0 <= i < src.len() && spec_is_alnum(src[i]) {
        lemma_skip_alnum_ge(src, i + 1);
    }
}

pub proof fn lemma_block_comment_end_ge(src: Seq<char>, i: int, depth: nat)
    ensures
        block_comment_end(src, i, depth) matches Some(j) ==> i < j <= src.len(),
    decreases src.len() - i,
{
    if 0 <= i < src.len() {
        if src[i] == '*' && i + 1 < src.len() && src[i + 1] == '/' {
            if depth > 1 {
                lemma_block_comment_end_ge(src, i + 2, (depth - 1) as nat);
            }
        } else if src[i] == '/' && i + 1 < src.len() && src[i + 1] == '*' {
            lemma_block_comment_end_ge(src, i + 2, depth + 1);
        } else {
            lemma_block_comment_end_ge(src, i + 1, depth);
        }
    }
}

/// Every step moves the cursor strictly forward and keeps it in range.
pub proof fn lemma_scan_step_advances(src: Seq<char>, i: int, line: int)
    requires
        0 <= i < src.len(),
    ensures
        i < scan_step(src, i, line).next <= src.len(),
{
    lemma_find_quote_ge(src, i + 1);
    lemma_find_newline_ge(src, i + 2);
    lemma_skip_digits_ge(src, i + 1);
    lemma_skip_alnum_ge(src, i + 1);
    lemma_block_comment_end_ge(src, i + 2, 1);
    let k1 = skip_digits(src, i + 1);
    lemma_skip_digits_ge(src, k1 + 1);
}

/// The whole pass from position `i` on line `line`: the tokens and the
/// errors it yields, in source order, the token stream closed by an
/// end-of-input token carrying the final line number.
pub open spec fn scan_spec(src: Seq<char>, i: int, line: int) -> (Seq<TokenV>, Seq<LoxResultV>)
    decreases src.len() - i,
    when 0 <= i
    via scan_spec_decreases
{
    if i >= src.len() {
        (
            seq![
                TokenV {
                    ttype: TokenType::Eof,
                    lexeme: Seq::empty(),
                    literal: None,
                    line: line as nat,
                },
            ],
            Seq::empty(),
        )
    } else {
        let st = scan_step(src, i, line);
        let (ts, es) = scan_spec(src, st.next, st.line2);
        (
            match st.tok {
                Some(t) => seq![t] + ts,
                None => ts,
            },
            match st.err {
                Some(e) => seq![e] + es,
                None => es,
            },
        )
    }
}

#[via_fn]
proof fn scan_spec_decreases(src: Seq<char>, i: int, line: int) {
    if 0 <= i < src.len() {
        lemma_scan_step_advances(src, i, line);
    }
}

/// A linear scan that saw no `"` in `[i, j)` has not passed the first one.
proof fn lemma_find_quote_scan(src: Seq<char>, i: int, j: int)
    requires
        0 <= i <= j <= src.len(),
        forall|k: int| i <= k < j ==> src[k] != '"',
    ensures
        find_quote(src, i) == find_quote(src, j),
    decreases j - i,
{
    if i < j {
        lemma_find_quote_scan(src, i + 1, j);
    }
}

proof fn lemma_find_newline_scan(src: Seq<char>, i: int, j: int)
    requires
        0 <= i <= j <= src.len(),
        forall|k: int| i <= k < j ==> src[k] != '\n',
    ensures
        find_newline(src, i) == find_newline(src, j),
    decreases j - i,
{
    if i < j {
        lemma_find_newline_scan(src, i + 1, j);
    }
}

/// A linear scan over digits computes `skip_digits`.
proof fn lemma_skip_digits_scan(src: Seq<char>, i: int, j: int)
    requires
        0 <= i <= j <= src.len(),
        forall|k: int| i <= k < j ==> spec_is_digit(#[trigger] src[k]),
        j == src.len() || !spec_is_digit(src[j]),
    ensures
        skip_digits(src, i) == j,
    decreases j - i,
{
    if i < j {
        lemma_skip_digits_scan(src, i + 1, j);
    }
}

proof fn lemma_skip_alnum_scan(src: Seq<char>, i: int, j: int)
    requires
        0 <= i <= j <= src.len(),
        forall|k: int| i <= k < j ==> spec_is_alnum(#[trigger] src[k]),
        j == src.len() || !spec_is_alnum(src[j]),
    ensures
        skip_alnum(src, i) == j,
    decreases j - i,
{
    if i < j {
        lemma_skip_alnum_scan(src, i + 1, j);
    }
}

/// Counting one more character on the right.
proof fn lemma_count_newlines_snoc(src: Seq<char>, a: int, b: int)
    requires
        0 <= a <= b < src.len(),
    ensures
        count_newlines(src, a, b + 1) == count_newlines(src, a, b) + (if src[b] == '\n' {
            1nat
        } else {
            0nat
        }),
    decreases b - a,
{
    if a < b {
        lemma_count_newlines_snoc(src, a + 1, b);
    } else {
        assert(count_newlines(src, a + 1, b + 1) == 0);
    }
}

/// How the tokens of a `Vec<Token>` look as mathematical tokens.
pub open spec fn tokens_view(v: Seq<Token>) -> Seq<TokenV> {
    v.map_values(|t: Token| t@)
}

/// How collected errors look as mathematical errors.
pub open spec fn errors_view(v: Seq<LoxResult>) -> Seq<LoxResultV> {
    v.map_values(|e: LoxResult| e@)
}

/// The scanner: one pass over an in-memory source string.
pub struct Scanner {
    source: String,
    tokens: Vec<Token>,
    start: usize,
    current: usize,
    line: usize,
}

impl Scanner {
    /// The source as a character sequence.
    pub closed spec fn src(&self) -> Seq<char> {
        self.source@
    }

    pub closed spec fn cur(&self) -> int {
        self.current as int
    }

    pub closed spec fn line_no(&self) -> int {
        self.line as int
    }

    pub closed spec fn lex_start(&self) -> int {
        self.start as int
    }

    /// The tokens produced so far.
    pub closed spec fn toks(&self) -> Seq<TokenV> {
        tokens_view(self.tokens@)
    }

    /// The cursor stays in range, and the line counter cannot overflow:
    /// it grows by at most one per remaining character.
    pub closed spec fn inv(&self) -> bool {
        &&& self.current <= self.source@.len()
        &&& self.source@.len() < usize::MAX
        &&& self.line as int + (self.source@.len() - self.current as int) <= usize::MAX as int
        &&& self.line >= 1
    }

    /// A scanner at the start of `source`. The length bound is what keeps
    /// line counting within machine integers.
    pub fn new(source: String) -> (s: Scanner)
        requires
            source@.len() < usize::MAX,
        ensures
            s.inv(),
            s.src() == source@,
            s.cur() == 0,
            s.lex_start() == 0,
            s.line_no() == 1,
            s.toks() =~= Seq::<TokenV>::empty(),
    {
        Scanner { source, tokens: Vec::new(), start: 0, current: 0, line: 1 }
    }

    pub fn is_at_end(&self) -> (r: bool)
        requires
            self.inv(),
        ensures
            r == (self.cur() >= self.src().len()),
    {
        self.current >= self.source.as_str().unicode_len()
    }

    /// The next character, if any; does not consume it.
    pub fn peek(&self) -> (r: Option<char>)
        requires
            self.inv(),
        ensures
            match r {
                Some(c) => self.cur() < self.src().len() && c == self.src()[self.cur()],
                None => self.cur() >= self.src().len(),
            },
    {
        if self.is_at_end() {
            None
        } else {
            Some(self.source.as_str().get_char(self.current))
        }
    }

    /// The character after the next one, if any.
    pub fn peek_next(&self) -> (r: Option<char>)
        requires
            self.inv(),
        ensures
            match r {
                Some(c) => self.cur() + 1 < self.src().len() && c == self.src()[self.cur() + 1],
                None => self.cur() + 1 >= self.src().len(),
            },
    {
        if self.current + 1 >= self.source.as_str().unicode_len() {
            None
        } else {
            Some(self.source.as_str().get_char(self.current + 1))
        }
    }

    /// Consumes and returns the next character.
    pub fn advance(&mut self) -> (c: char)
        requires
            old(self).inv(),
            old(self).cur() < old(self).src().len(),
        ensures
            final(self).inv(),
            c == old(self).src()[old(self).cur()],
            final(self).cur() == old(self).cur() + 1,
            final(self).src() == old(self).src(),
            final(self).line_no() == old(self).line_no(),
            final(self).lex_start() == old(self).lex_start(),
            final(self).toks() == old(self).toks(),
    {
        let res = self.source.as_str().get_char(self.current);
        self.current = self.current + 1;
        res
    }

    /// Consumes the next character exactly when it equals `expected`.
    pub fn is_match(&mut self, expected: char) -> (r: bool)
        requires
            old(self).inv(),
        ensures
            final(self).inv(),
            r == (old(self).cur() < old(self).src().len() && old(self).src()[old(self).cur()]
                == expected),
            final(self).cur() == (if r {
                old(self).cur() + 1
            } else {
                old(self).cur()
            }),
            final(self).src() == old(self).src(),
            final(self).line_no() == old(self).line_no(),
            final(self).lex_start() == old(self).lex_start(),
            final(self).toks() == old(self).toks(),
    {
        match self.peek() {
            Some(c) => {
                if c == expected {
                    self.current = self.current + 1;
                    true
                } else {
                    false
                }
            },
            None => false,
        }
    }

    /// Appends a token without a literal payload for the current lexeme.
    pub fn add_token(&mut self, ttype: TokenType)
        requires
            old(self).inv(),
            0 <= old(self).lex_start() <= old(self).cur(),
        ensures
            final(self).inv(),
            final(self).toks() =~= old(self).toks().push(
                plain_tok(
                    old(self).src(),
                    old(self).lex_start(),
                    old(self).cur(),
                    old(self).line_no(),
                    ttype,
                ),
            ),
            final(self).src() == old(self).src(),
            final(self).cur() == old(self).cur(),
            final(self).line_no() == old(self).line_no(),
            final(self).lex_start() == old(self).lex_start(),
    {
        self.add_token_lit(ttype, None);
    }

    /// Appends a token carrying `lit` for the current lexeme.
    pub fn add_token_lit(&mut self, ttype: TokenType, lit: Option<Lit>)
        requires
            old(self).inv(),
            0 <= old(self).lex_start() <= old(self).cur(),
        ensures
            final(self).inv(),
            final(self).toks() =~= old(self).toks().push(
                TokenV {
                    ttype,
                    lexeme: old(self).src().subrange(old(self).lex_start(), old(self).cur()),
                    literal: match lit {
                        Some(l) => Some(l@),
                        None => None,
                    },
                    line: old(self).line_no() as nat,
                },
            ),
            final(self).src() == old(self).src(),
            final(self).cur() == old(self).cur(),
            final(self).line_no() == old(self).line_no(),
            final(self).lex_start() == old(self).lex_start(),
    {
        let lexeme = self.source.as_str().substring_char(self.start, self.current);
        let t = Token::new(ttype, lexeme, lit, self.line);
        self.tokens.push(t);
    }

    /// The keyword table lookup.
    pub fn keywords(s: &str) -> (r: Option<TokenType>)
        ensures
            r == keyword_of(s@),
    {
        let v = s.to_owned();
        if v.eq(&String::from_str("and")) {
            Some(TokenType::And)
        } else if v.eq(&String::from_str("class")) {
            Some(TokenType::Class)
        } else if v.eq(&String::from_str("else")) {
            Some(TokenType::Else)
        } else if v.eq(&String::from_str("false")) {
            Some(TokenType::False)
        } else if v.eq(&String::from_str("for")) {
            Some(TokenType::For)
        } else if v.eq(&String::from_str("fun")) {
            Some(TokenType::Fun)
        } else if v.eq(&String::from_str("if")) {
            Some(TokenType::If)
        } else if v.eq(&String::from_str("nil")) {
            Some(TokenType::Nil)
        } else if v.eq(&String::from_str("or")) {
            Some(TokenType::Or)
        } else if v.eq(&String::from_str("print")) {
            Some(TokenType::Print)
        } else if v.eq(&String::from_str("return")) {
            Some(TokenType::Return)
        } else if v.eq(&String::from_str("super")) {
            Some(TokenType::Super)
        } else if v.eq(&String::from_str("this")) {
            Some(TokenType::This)
        } else if v.eq(&String::from_str("true")) {
            Some(TokenType::True)
        } else if v.eq(&String::from_str("var")) {
            Some(TokenType::Var)
        } else if v.eq(&String::from_str("while")) {
            Some(TokenType::While)
        } else {
            None
        }
    }

    /// Consumes the rest of a `//` comment, up to (not including) the next
    /// newline.
    fn line_comment(&mut self)
        requires
            old(self).inv(),
        ensures
            final(self).inv(),
            final(self).src() == old(self).src(),
            final(self).line_no() == old(self).line_no(),
            final(self).lex_start() == old(self).lex_start(),
            final(self).toks() == old(self).toks(),
            final(self).cur() == find_newline(old(self).src(), old(self).cur()),
    {
        loop
            invariant
                self.inv(),
                self.src() == old(self).src(),
                self.line_no() == old(self).line_no(),
                self.lex_start() == old(self).lex_start(),
                self.toks() == old(self).toks(),
                old(self).cur() <= self.cur() <= self.src().len(),
                forall|k: int| old(self).cur() <= k < self.cur() ==> self.src()[k] != '\n',
            ensures
                self.cur() == find_newline(old(self).src(), old(self).cur()),
            decreases self.src().len() - self.cur(),
        {
            match self.peek() {
                None => {
                    proof {
                        lemma_find_newline_scan(self.src(), old(self).cur(), self.cur());
                    }
                    break ;
                },
                Some(pk) => {
                    if pk == '\n' {
                        proof {
                            lemma_find_newline_scan(self.src(), old(self).cur(), self.cur());
                        }
                        break ;
                    }
                    let _ = self.advance();
                },
            }
        }
    }

    /// Consumes the rest of a `/* */` comment (the opening `/*` already
    /// taken), honouring nesting; fails if the source ends first.
    fn block_comment(&mut self) -> (r: Result<(), LoxResult>)
        requires
            old(self).inv(),
        ensures
            final(self).inv(),
            final(self).src() == old(self).src(),
            final(self).lex_start() == old(self).lex_start(),
            final(self).toks() == old(self).toks(),
            match block_comment_end(old(self).src(), old(self).cur(), 1) {
                Some(j) => {
                    &&& r is Ok
                    &&& final(self).cur() == j
                    &&& final(self).line_no() == old(self).line_no() + count_newlines(
                        old(self).src(),
                        old(self).cur(),
                        j,
                    )
                },
                None => {
                    let line2 = old(self).line_no() + count_newlines(
                        old(self).src(),
                        old(self).cur(),
                        old(self).src().len() as int,
                    );
                    &&& (r matches Err(e) && e@ == lex_err(line2, "Unterminated block comment."@))
                    &&& final(self).cur() == old(self).src().len()
                    &&& final(self).line_no() == line2
                },
            },
    {
        let mut depth: usize = 1;
        let mut closed: bool = false;
        loop
            invariant_except_break
                1 <= depth as int <= 1 + self.cur() - old(self).cur(),
                !closed,
                block_comment_end(self.src(), old(self).cur(), 1) == block_comment_end(
                    self.src(),
                    self.cur(),
                    depth as nat,
                ),
            invariant
                self.inv(),
                self.src() == old(self).src(),
                self.lex_start() == old(self).lex_start(),
                self.toks() == old(self).toks(),
                old(self).cur() <= self.cur() <= self.src().len(),
                self.line_no() == old(self).line_no() + count_newlines(
                    self.src(),
                    old(self).cur(),
                    self.cur(),
                ),
            ensures
                self.inv(),
                self.src() == old(self).src(),
                self.lex_start() == old(self).lex_start(),
                self.toks() == old(self).toks(),
                self.line_no() == old(self).line_no() + count_newlines(
                    self.src(),
                    old(self).cur(),
                    self.cur(),
                ),
                closed ==> block_comment_end(self.src(), old(self).cur(), 1) == Some(self.cur()),
                !closed ==> self.cur() == self.src().len() && block_comment_end(
                    self.src(),
                    old(self).cur(),
                    1,
                ) is None,
            decreases self.src().len() - self.cur(),
        {
            match self.peek() {
                None => {
                    break ;
                },
                Some(pk) => {
                    let pn = self.peek_next();
                    let is_close = pk == '*' && (match pn {
                        Some(x) => x == '/',
                        None => false,
                    });
                    let is_open = pk == '/' && (match pn {
                        Some(x) => x == '*',
                        None => false,
                    });
                    if is_close {
                        proof {
                            lemma_count_newlines_snoc(self.src(), old(self).cur(), self.cur());
                            lemma_count_newlines_snoc(self.src(), old(self).cur(), self.cur() + 1);
                        }
                        let _ = self.advance();
                        let _ = self.advance();
                        if depth == 1 {
                            closed = true;
                            break ;
                        }
                        depth = depth - 1;
                    } else if is_open {
                        proof {
                            lemma_count_newlines_snoc(self.src(), old(self).cur(), self.cur());
                            lemma_count_newlines_snoc(self.src(), old(self).cur(), self.cur() + 1);
                        }
                        let _ = self.advance();
                        let _ = self.advance();
                        depth = depth + 1;
                    } else {
                        proof {
                            lemma_count_newlines_snoc(self.src(), old(self).cur(), self.cur());
                        }
                        let _ = self.advance();
                        if pk == '\n' {
                            self.line = self.line + 1;
                        }
                    }
                },
            }
        }
        if closed {
            Ok(())
        } else {
            Err(LoxResult::error(self.line, "Unterminated block comment."))
        }
    }

    /// Consumes the rest of a string literal (the opening quote already
    /// taken) and appends its token; an unterminated literal is an error.
    pub fn string(&mut self) -> (r: Result<(), LoxResult>)
        requires
            old(self).inv(),
            0 <= old(self).lex_start(),
            old(self).cur() == old(self).lex_start() + 1,
        ensures
            final(self).inv(),
            final(self).src() == old(self).src(),
            final(self).lex_start() == old(self).lex_start(),
            match find_quote(old(self).src(), old(self).cur()) {
                Some(j) => {
                    let line2 = old(self).line_no() + count_newlines(
                        old(self).src(),
                        old(self).cur(),
                        j,
                    );
                    &&& r is Ok
                    &&& final(self).cur() == j + 1
                    &&& final(self).line_no() == line2
                    &&& final(self).toks() =~= old(self).toks().push(
                        TokenV {
                            ttype: TokenType::String,
                            lexeme: old(self).src().subrange(old(self).lex_start(), j + 1),
                            literal: Some(
                                LitV::Str(old(self).src().subrange(old(self).cur(), j)),
                            ),
                            line: line2 as nat,
                        },
                    )
                },
                None => {
                    let line2 = old(self).line_no() + count_newlines(
                        old(self).src(),
                        old(self).cur(),
                        old(self).src().len() as int,
                    );
                    &&& (r matches Err(e) && e@ == lex_err(line2, "Unterminated String."@))
                    &&& final(self).cur() == old(self).src().len()
                    &&& final(self).line_no() == line2
                    &&& final(self).toks() == old(self).toks()
                },
            },
    {
        loop
            invariant
                self.inv(),
                self.src() == old(self).src(),
                self.lex_start() == old(self).lex_start(),
                self.toks() == old(self).toks(),
                old(self).cur() <= self.cur() <= self.src().len(),
                forall|k: int| old(self).cur() <= k < self.cur() ==> self.src()[k] != '"',
                self.line_no() == old(self).line_no() + count_newlines(
                    self.src(),
                    old(self).cur(),
                    self.cur(),
                ),
            ensures
                self.inv(),
                self.src() == old(self).src(),
                self.lex_start() == old(self).lex_start(),
                self.toks() == old(self).toks(),
                old(self).cur() <= self.cur() <= self.src().len(),
                self.line_no() == old(self).line_no() + count_newlines(
                    self.src(),
                    old(self).cur(),
                    self.cur(),
                ),
                match find_quote(old(self).src(), old(self).cur()) {
                    Some(j) => self.cur() == j && self.src()[j] == '"',
                    None => self.cur() == self.src().len(),
                },
            decreases self.src().len() - self.cur(),
        {
            match self.peek() {
                None => {
                    proof {
                        lemma_find_quote_scan(self.src(), old(self).cur(), self.cur());
                    }
                    break ;
                },
                Some(pk) => {
                    if pk == '"' {
                        proof {
                            lemma_find_quote_scan(self.src(), old(self).cur(), self.cur());
                        }
                        break ;
                    }
                    proof {
                        lemma_count_newlines_snoc(self.src(), old(self).cur(), self.cur());
                    }
                    let _ = self.advance();
                    if pk == '\n' {
                        self.line = self.line + 1;
                    }
                },
            }
        }
        proof {
            lemma_find_quote_ge(self.src(), old(self).cur());
        }
        if self.is_at_end() {
            return Err(LoxResult::error(self.line, "Unterminated String."));
        }
        let _ = self.advance();
        let value = self.source.as_str().substring_char(self.start + 1, self.current - 1);
        let lit = Lit::Str(value.to_owned());
        self.add_token_lit(TokenType::String, Some(lit));
        Ok(())
    }

    /// Consumes the rest of a number literal (its first digit already
    /// taken) and appends its token, whose payload is the parsed binary64
    /// value.
    pub fn number(&mut self) -> (r: Result<(), LoxResult>)
        requires
            old(self).inv(),
            0 <= old(self).lex_start() < old(self).src().len(),
            old(self).cur() == old(self).lex_start() + 1,
            spec_is_digit(old(self).src()[old(self).lex_start()]),
        ensures
            final(self).inv(),
            final(self).src() == old(self).src(),
            final(self).lex_start() == old(self).lex_start(),
            final(self).line_no() == old(self).line_no(),
            r is Ok,
            ({
                let src = old(self).src();
                let i = old(self).lex_start();
                let k1 = skip_digits(src, i + 1);
                let end = if k1 < src.len() && src[k1] == '.' && k1 + 1 < src.len()
                    && spec_is_digit(src[k1 + 1]) {
                    skip_digits(src, k1 + 1)
                } else {
                    k1
                };
                &&& final(self).cur() == end
                &&& final(self).toks() =~= old(self).toks().push(
                    TokenV {
                        ttype: TokenType::Number,
                        lexeme: src.subrange(i, end),
                        literal: Some(LitV::Num(parse_bits(src.subrange(i, end)))),
                        line: old(self).line_no() as nat,
                    },
                )
            }),
    {
        loop
            invariant
                self.inv(),
                self.src() == old(self).src(),
                self.lex_start() == old(self).lex_start(),
                self.toks() == old(self).toks(),
                self.line_no() == old(self).line_no(),
                old(self).cur() <= self.cur() <= self.src().len(),
                forall|k: int|
                    old(self).cur() <= k < self.cur() ==> spec_is_digit(#[trigger] self.src()[k]),
            ensures
                self.inv(),
                self.src() == old(self).src(),
                self.lex_start() == old(self).lex_start(),
                self.toks() == old(self).toks(),
                self.line_no() == old(self).line_no(),
                self.cur() == skip_digits(self.src(), old(self).cur()),
            decreases self.src().len() - self.cur(),
        {
            match self.peek() {
                None => {
                    proof {
                        lemma_skip_digits_scan(self.src(), old(self).cur(), self.cur());
                    }
                    break ;
                },
                Some(pk) => {
                    if !(pk >= '0' && pk <= '9') {
                        proof {
                            lemma_skip_digits_scan(self.src(), old(self).cur(), self.cur());
                        }
                        break ;
                    }
                    let _ = self.advance();
                },
            }
        }
        let ghost src = self.src();
        let ghost i = old(self).lex_start();
        let ghost k1 = self.cur();
        let dot = match (self.peek(), self.peek_next()) {
            (Some(d), Some(n)) => d == '.' && n >= '0' && n <= '9',
            _ => false,
        };
        if dot {
            let _ = self.advance();
            let ghost mid = self.cur();
            loop
                invariant
                    self.inv(),
                    self.src() == src,
                    self.lex_start() == old(self).lex_start(),
                    self.toks() == old(self).toks(),
                    self.line_no() == old(self).line_no(),
                    mid == k1 + 1,
                    0 <= k1,
                    mid <= self.cur() <= self.src().len(),
                    forall|k: int|
                        mid <= k < self.cur() ==> spec_is_digit(#[trigger] self.src()[k]),
                ensures
                    self.inv(),
                    self.src() == src,
                    self.lex_start() == old(self).lex_start(),
                    self.toks() == old(self).toks(),
                    self.line_no() == old(self).line_no(),
                    self.cur() == skip_digits(self.src(), mid),
                    mid <= self.cur(),
                decreases self.src().len() - self.cur(),
            {
                match self.peek() {
                    None => {
                        proof {
                            lemma_skip_digits_scan(self.src(), mid, self.cur());
                        }
                        break ;
                    },
                    Some(pk) => {
                        if !(pk >= '0' && pk <= '9') {
                            proof {
                                lemma_skip_digits_scan(self.src(), mid, self.cur());
                            }
                            break ;
                        }
                        let _ = self.advance();
                    },
                }
            }
        }
        let ghost end = self.cur();
        proof {
            assert(src.subrange(i, end)[0] == src[i]);
            if !dot {
                assert forall|m: int| 0 <= m < end - i implies spec_is_digit(
                    #[trigger] src.subrange(i, end)[m],
                ) by {
                    assert(src.subrange(i, end)[m] == src[i + m]);
                }
                assert(crate::num::all_digits(src.subrange(i, end)));
            } else {
                let k = k1 - i;
                assert(src.subrange(i, end)[k] == src[k1]);
                assert(skip_digits(src, k1 + 1) >= k1 + 2) by {
                    assert(spec_is_digit(src[k1 + 1]));
                    lemma_skip_digits_ge(src, k1 + 2);
                }
                assert forall|m: int| 0 <= m < k implies spec_is_digit(
                    #[trigger] src.subrange(i, end).subrange(0, k)[m],
                ) by {
                    assert(src.subrange(i, end).subrange(0, k)[m] == src[i + m]);
                }
                assert(crate::num::all_digits(src.subrange(i, end).subrange(0, k)));
                assert forall|m: int| 0 <= m < end - k1 - 1 implies spec_is_digit(
                    #[trigger] src.subrange(i, end).subrange(k + 1, end - i)[m],
                ) by {
                    assert(src.subrange(i, end).subrange(k + 1, end - i)[m] == src[k1 + 1 + m]);
                }
                assert(crate::num::all_digits(src.subrange(i, end).subrange(k + 1, end - i)));
                assert(1 <= k < src.subrange(i, end).len() - 1);
            }
            assert(crate::num::is_number_lexeme(src.subrange(i, end)));
        }
        let lexeme = self.source.as_str().substring_char(self.start, self.current);
        match num_parse(lexeme) {
            Some(b) => {
                self.add_token_lit(TokenType::Number, Some(Lit::Num(b)));
                Ok(())
            },
            None => {
                proof {
                    assert(false);
                }
                Err(LoxResult::error(self.line, "Unexpected character."))
            },
        }
    }

    /// Consumes the rest of an identifier (its first letter already taken)
    /// and appends its token, a keyword when the lexeme is in the table.
    fn identifier(&mut self) -> (r: Result<(), LoxResult>)
        requires
            old(self).inv(),
            0 <= old(self).lex_start(),
            old(self).cur() == old(self).lex_start() + 1,
        ensures
            final(self).inv(),
            final(self).src() == old(self).src(),
            final(self).lex_start() == old(self).lex_start(),
            final(self).line_no() == old(self).line_no(),
            r is Ok,
            ({
                let src = old(self).src();
                let i = old(self).lex_start();
                let end = skip_alnum(src, i + 1);
                let ttype = match keyword_of(src.subrange(i, end)) {
                    Some(k) => k,
                    None => TokenType::Identifier,
                };
                &&& final(self).cur() == end
                &&& final(self).toks() =~= old(self).toks().push(
                    plain_tok(src, i, end, old(self).line_no(), ttype),
                )
            }),
    {
        loop
            invariant
                self.inv(),
                self.src() == old(self).src(),
                self.lex_start() == old(self).lex_start(),
                self.toks() == old(self).toks(),
                self.line_no() == old(self).line_no(),
                old(self).cur() <= self.cur() <= self.src().len(),
                forall|k: int|
                    old(self).cur() <= k < self.cur() ==> spec_is_alnum(#[trigger] self.src()[k]),
            ensures
                self.inv(),
                self.src() == old(self).src(),
                self.lex_start() == old(self).lex_start(),
                self.toks() == old(self).toks(),
                self.line_no() == old(self).line_no(),
                self.cur() == skip_alnum(self.src(), old(self).cur()),
            decreases self.src().len() - self.cur(),
        {
            match self.peek() {
                None => {
                    proof {
                        lemma_skip_alnum_scan(self.src(), old(self).cur(), self.cur());
                    }
                    break ;
                },
                Some(pk) => {
                    let alnum = (pk >= '0' && pk <= '9') || (pk >= 'a' && pk <= 'z') || (pk >= 'A'
                        && pk <= 'Z');
                    if !alnum {
                        proof {
                            lemma_skip_alnum_scan(self.src(), old(self).cur(), self.cur());
                        }
                        break ;
                    }
                    let _ = self.advance();
                },
            }
        }
        let lexeme = self.source.as_str().substring_char(self.start, self.current);
        let ttype = match Self::keywords(lexeme) {
            Some(k) => k,
            None => TokenType::Identifier,
        };
        self.add_token(ttype);
        Ok(())
    }

    /// Scans one lexeme at the cursor. The cursor, the line counter, the
    /// token produced (if any) and the error raised (if any) are exactly
    /// those of `scan_step`.
    pub fn scan_token(&mut self) -> (r: Result<(), LoxResult>)
        requires
            old(self).inv(),
            old(self).cur() < old(self).src().len(),
            old(self).lex_start() == old(self).cur(),
        ensures
            final(self).inv(),
            final(self).src() == old(self).src(),
            ({
                let st = scan_step(old(self).src(), old(self).cur(), old(self).line_no());
                &&& final(self).cur() == st.next
                &&& final(self).line_no() == st.line2
                &&& final(self).toks() =~= old(self).toks() + (match st.tok {
                    Some(t) => seq![t],
                    None => Seq::<TokenV>::empty(),
                })
                &&& match (r, st.err) {
                    (Ok(_), None) => true,
                    (Err(e), Some(ev)) => e@ == ev,
                    _ => false,
                }
            }),
    {
        let c = self.advance();
        if c == '(' {
            self.add_token(TokenType::LeftParen);
            Ok(())
        } else if c == ')' {
            self.add_token(TokenType::RightParen);
            Ok(())
        } else if c == '{' {
            self.add_token(TokenType::LeftBrace);
            Ok(())
        } else if c == '}' {
            self.add_token(TokenType::RightBrace);
            Ok(())
        } else if c == ',' {
            self.add_token(TokenType::Comma);
            Ok(())
        } else if c == '.' {
            self.add_token(TokenType::Dot);
            Ok(())
        } else if c == '-' {
            self.add_token(TokenType::Minus);
            Ok(())
        } else if c == '+' {
            self.add_token(TokenType::Plus);
            Ok(())
        } else if c == ';' {
            self.add_token(TokenType::Semicolon);
            Ok(())
        } else if c == '*' {
            self.add_token(TokenType::Star);
            Ok(())
        } else if c == '!' {
            let tt = if self.is_match('=') {
                TokenType::BangEqual
            } else {
                TokenType::Bang
            };
            self.add_token(tt);
            Ok(())
        } else if c == '=' {
            let tt = if self.is_match('=') {
                TokenType::EqualEqual
            } else {
                TokenType::Equal
            };
            self.add_token(tt);
            Ok(())
        } else if c == '<' {
            let tt = if self.is_match('=') {
                TokenType::LessEqual
            } else {
                TokenType::Less
            };
            self.add_token(tt);
            Ok(())
        } else if c == '>' {
            let tt = if self.is_match('=') {
                TokenType::GreaterEqual
            } else {
                TokenType::Greater
            };
            self.add_token(tt);
            Ok(())
        } else if c == '/' {
            if self.is_match('/') {
                self.line_comment();
                Ok(())
            } else if self.is_match('*') {
                self.block_comment()
            } else {
                self.add_token(TokenType::Slash);
                Ok(())
            }
        } else if c == ' ' || c == '\r' || c == '\t' {
            Ok(())
        } else if c == '\n' {
            self.line = self.line + 1;
            Ok(())
        } else if c == '"' {
            self.string()
        } else if c >= '0' && c <= '9' {
            self.number()
        } else if (c >= 'a' && c <= 'z') || (c >= 'A' && c <= 'Z') {
            self.identifier()
        } else {
            Err(LoxResult::error(self.line, "Unexpected character."))
        }
    }

    /// Scans the whole source: returns the lexical errors found, and
    /// leaves behind the token sequence `scan_spec` names, closed by the
    /// end-of-input token.
    pub fn scan_tokens(&mut self) -> (errors: Vec<LoxResult>)
        requires
            old(self).inv(),
            old(self).cur() == 0,
            old(self).line_no() == 1,
            old(self).toks() == Seq::<TokenV>::empty(),
        ensures
            final(self).inv(),
            final(self).src() == old(self).src(),
            final(self).toks() =~= scan_spec(old(self).src(), 0, 1).0,
            errors_view(errors@) =~= scan_spec(old(self).src(), 0, 1).1,
    {
        let mut errors: Vec<LoxResult> = Vec::new();
        while !self.is_at_end()
            invariant
                self.inv(),
                self.src() == old(self).src(),
                0 <= self.cur(),
                1 <= self.line_no(),
                scan_spec(self.src(), 0, 1).0 =~= self.toks() + scan_spec(
                    self.src(),
                    self.cur(),
                    self.line_no(),
                ).0,
                scan_spec(self.src(), 0, 1).1 =~= errors_view(errors@) + scan_spec(
                    self.src(),
                    self.cur(),
                    self.line_no(),
                ).1,
            decreases self.src().len() - self.cur(),
        {
            self.start = self.current;
            let ghost pre = *self;
            let r = self.scan_token();
            proof {
                lemma_scan_step_advances(pre.src(), pre.cur(), pre.line_no());
                let st = scan_step(pre.src(), pre.cur(), pre.line_no());
                let rest = scan_spec(self.src(), self.cur(), self.line_no());
                assert(scan_spec(self.src(), pre.cur(), pre.line_no()).0 =~= (match st.tok {
                    Some(t) => seq![t],
                    None => Seq::<TokenV>::empty(),
                }) + rest.0);
                assert(scan_spec(self.src(), pre.cur(), pre.line_no()).1 =~= (match st.err {
                    Some(e) => seq![e],
                    None => Seq::<LoxResultV>::empty(),
                }) + rest.1);
                assert(scan_spec(self.src(), 0, 1).0 =~= self.toks() + rest.0);
            }
            match r {
                Ok(_) => {},
                Err(e) => {
                    proof {
                        assert(errors_view(errors@.push(e)) =~= errors_view(errors@) + seq![e@]);
                        assert(scan_spec(self.src(), 0, 1).1 =~= errors_view(errors@.push(e))
                            + scan_spec(self.src(), self.cur(), self.line_no()).1);
                    }
                    errors.push(e);
                },
            }
        }
        let ghost pre = *self;
        let eof = Token::eof(self.line);
        self.tokens.push(eof);
        proof {
            assert(self.toks() =~= pre.toks().push(
                TokenV {
                    ttype: TokenType::Eof,
                    lexeme: Seq::empty(),
                    literal: None,
                    line: pre.line_no() as nat,
                },
            ));
            assert(self.toks() =~= scan_spec(self.src(), 0, 1).0);
        }
        errors
    }

    /// Hands out the scanned tokens.
    pub fn into_tokens(self) -> (ts: Vec<Token>)
        ensures
            tokens_view(ts@) == self.toks(),
    {
        self.tokens
    }
}

/// Every scan ends with the synthetic end-of-input token, whatever the
/// source held: the token stream is never empty and its last element is
/// the end marker.
pub proof fn lemma_scan_spec_eof(src: Seq<char>, i: int, line: int)
    requires
        0 <= i,
    ensures
        scan_spec(src, i, line).0.len() >= 1,
        scan_spec(src, i, line).0.last().ttype == TokenType::Eof,
    decreases src.len() - i,
{
    if i < src.len() {
        lemma_scan_step_advances(src, i, line);
        let st = scan_step(src, i, line);
        lemma_scan_spec_eof(src, st.next, st.line2);
    }
}

} // verus!
